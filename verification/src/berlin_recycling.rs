//! The customer portal of Berlin Recycling: the session, and the collection calendar behind it.
use vstd::prelude::*;

use crate::date::{parse_date, parsed_date, Date, DateView};
use crate::json::{parse_json, parsed_json, Json, JsonView};
use crate::numbers::is_digit;
use crate::pickup::{
    date_sorted, law_a_pickup_counts_for_its_own_day, law_sorting_keeps_every_pickup, law_sorting_orders_by_day, on_day,
    sort_by_date, views, Pickup, PickupView,
};
use crate::tables::TextMap;
use crate::text::{chars_of, has_char, lemma_split_at_first, split_at_first, split_once};

verus! {

/// Where the portal starts.
pub const BR_PORTAL: &'static str = "https://kundenportal.berlin-recycling.de/";

/// The host that the portal is on.
pub const BR_HOST: &'static str = "kundenportal.berlin-recycling.de";

/// Why no pickups came out of the portal.
#[derive(Debug)]
pub enum PortalError {
    /// A request did not go through, or the login was refused; this is why.
    Request(String),
    /// The portal sent the bot to this address in place of its start page.
    LoginFailed(String),
    /// The answer is no JSON; this is why.
    Undecodable(String),
    /// The calendar in the answer is no JSON; this is why.
    Json(String),
    /// The answer does not hold the text that the calendar is in.
    NoPayload,
    /// The calendar does not hold a list of pickups.
    NoData,
}

/// A portal error, by its texts.
pub enum PortalErrorView {
    Request(Seq<char>),
    LoginFailed(Seq<char>),
    Undecodable(Seq<char>),
    Json(Seq<char>),
    NoPayload,
    NoData,
}

impl View for PortalError {
    type V = PortalErrorView;

    open spec fn view(&self) -> PortalErrorView {
        match self {
            PortalError::Request(message) => PortalErrorView::Request(message@),
            PortalError::LoginFailed(url) => PortalErrorView::LoginFailed(url@),
            PortalError::Undecodable(reason) => PortalErrorView::Undecodable(reason@),
            PortalError::Json(message) => PortalErrorView::Json(message@),
            PortalError::NoPayload => PortalErrorView::NoPayload,
            PortalError::NoData => PortalErrorView::NoData,
        }
    }
}

impl PortalErrorView {
    /// What the error says.
    pub open spec fn message(self) -> Seq<char> {
        match self {
            PortalErrorView::Request(message) => message,
            PortalErrorView::LoginFailed(url) => "Berlin Recycling login failed — redirected to "@ + url,
            PortalErrorView::Undecodable(_) => "error decoding response body"@,
            PortalErrorView::Json(message) => message,
            PortalErrorView::NoPayload => "Berlin Recycling: unexpected response shape (missing 'd')"@,
            PortalErrorView::NoData => "Berlin Recycling: no data array in response"@,
        }
    }
}

impl PortalError {
    /// What the error says.
    pub fn message(&self) -> (text: String)
        ensures
            text@ == self@.message(),
    {
        match self {
            PortalError::Request(message) => message.clone(),
            PortalError::LoginFailed(url) => {
                let mut text = "Berlin Recycling login failed — redirected to ".to_owned();
                text.append(url.as_str());
                text
            },
            PortalError::Undecodable(_) => "error decoding response body".to_owned(),
            PortalError::Json(message) => message.clone(),
            PortalError::NoPayload => "Berlin Recycling: unexpected response shape (missing 'd')".to_owned(),
            PortalError::NoData => "Berlin Recycling: no data array in response".to_owned(),
        }
    }
}

/// Whether a word is a category code, like `5.01`: digits and points, and at least one point.
pub open spec fn is_category_code(word: Seq<char>) -> bool {
    &&& word.contains('.')
    &&& forall|i: int| 0 <= i < word.len() ==> is_digit(#[trigger] word[i]) || word[i] == '.'
}

/// The description of a material without the category code that it may start with.
pub open spec fn material_name(description: Seq<char>) -> Seq<char> {
    match split_at_first(description, ' ') {
        Some(parts) => if is_category_code(parts.0) {
            parts.1
        } else {
            description
        },
        None => description,
    }
}

/// Whether a word is a category code.
fn category_code(word: &str) -> (r: bool)
    ensures
        r == is_category_code(word@),
{
    if !has_char(word, '.') {
        return false;
    }
    let chars = chars_of(word);
    let mut i: usize = 0;
    while i < chars.len()
        invariant
            chars@ == word@,
            i <= chars@.len(),
            forall|j: int| 0 <= j < i ==> is_digit(#[trigger] chars@[j]) || chars@[j] == '.',
        decreases chars@.len() - i,
    {
        if !(('0' <= chars[i] && chars[i] <= '9') || chars[i] == '.') {
            assert(!(is_digit(word@[i as int]) || word@[i as int] == '.'));
            return false;
        }
        i += 1;
    }
    true
}

/// Takes the category code off the description of a material.
pub fn strip_category_code(description: &str) -> (r: String)
    ensures
        r@ == material_name(description@),
{
    match split_once(description, ' ') {
        Some((code, rest)) => if category_code(code.as_str()) {
            rest
        } else {
            description.to_owned()
        },
        None => description.to_owned(),
    }
}

/// A description that starts with a category code and a blank is named by what follows.
pub proof fn law_category_code_is_stripped(code: Seq<char>, name: Seq<char>)
    requires
        is_category_code(code),
    ensures
        material_name(code.push(' ') + name) == name,
{
    assert(!code.contains(' ')) by {
        if code.contains(' ') {
            let at = choose|i: int| 0 <= i < code.len() && code[i] == ' ';
            assert(is_digit(code[at]) || code[at] == '.');
        }
    }
    lemma_split_at_first(code, ' ', name);
}

/// The label of a material: the configured one, or its own name.
pub open spec fn material_label(name: Seq<char>, labels: Map<Seq<char>, Seq<char>>) -> Seq<char> {
    if labels.contains_key(name) {
        labels[name]
    } else {
        name
    }
}

/// The pickup of a calendar row, given its day and the description of its material. There is none
/// where either is missing.
pub open spec fn material_pickup(
    date: Option<DateView>,
    description: Option<Seq<char>>,
    labels: Map<Seq<char>, Seq<char>>,
) -> Option<PickupView> {
    match (date, description) {
        (Some(date), Some(description)) => Some(
            PickupView { date, label: material_label(material_name(description), labels) },
        ),
        _ => None,
    }
}

/// The day of a calendar row, where it has one.
pub open spec fn row_date(row: JsonView) -> Option<DateView> {
    match row.member("Task Date"@).as_text() {
        Some(text) => parsed_date(text, "%Y-%m-%d"@),
        None => None,
    }
}

/// The pickup of a calendar row, where it has one.
pub open spec fn row_pickup(row: JsonView, labels: Map<Seq<char>, Seq<char>>) -> Option<PickupView> {
    material_pickup(row_date(row), row.member("Material Description"@).as_text(), labels)
}

/// Makes the pickup of a calendar row, given its day and the description of its material.
pub fn pickup_of_material(date: Option<Date>, description: Option<String>, labels: &TextMap) -> (r: Option<Pickup>)
    ensures
        match (date, description) {
            (Some(day), Some(text)) => r matches Some(pickup) && pickup@.date == day@ && pickup@.label
                == material_label(material_name(text@), labels@),
            _ => r is None,
        },
{
    match (date, description) {
        (Some(date), Some(description)) => {
            let name = strip_category_code(description.as_str());
            let label = match labels.get(name.as_str()) {
                Some(label) => label,
                None => name,
            };
            Some(Pickup { date, label })
        },
        _ => None,
    }
}

/// Reads one row of the calendar.
pub fn read_row(row: &Json, labels: &TextMap) -> (r: Option<Pickup>)
    ensures
        r is Some <==> row_pickup(row@, labels@) is Some,
        r matches Some(pickup) ==> row_pickup(row@, labels@) == Some(pickup@),
{
    let date = match row.text_member("Task Date") {
        Some(text) => parse_date(text.as_str(), "%Y-%m-%d"),
        None => None,
    };
    let description = row.text_member("Material Description");
    pickup_of_material(date, description, labels)
}

/// The text that the calendar is in. The portal wraps it in JSON.
pub open spec fn calendar_payload(response: JsonView) -> Result<Seq<char>, PortalErrorView> {
    match response.member("d"@).as_text() {
        None => Err(PortalErrorView::NoPayload),
        Some(text) => Ok(text),
    }
}

/// The pickups of a calendar, in the order of their days. Rows without a day or a material are left
/// out.
pub open spec fn pickups_in_calendar(calendar: JsonView, labels: Map<Seq<char>, Seq<char>>) -> Result<
    Seq<PickupView>,
    PortalErrorView,
> {
    match calendar.member("Object"@).member("data"@).as_list() {
        None => Err(PortalErrorView::NoData),
        Some(rows) => Ok(date_sorted(rows.filter_map(|row: JsonView| row_pickup(row, labels)))),
    }
}

/// The pickups of the calendar in an answer of the portal.
pub open spec fn calendar_pickups(body: Seq<char>, labels: Map<Seq<char>, Seq<char>>) -> Result<
    Seq<PickupView>,
    PortalErrorView,
> {
    match parsed_json(body) {
        Err(reason) => Err(PortalErrorView::Undecodable(reason)),
        Ok(response) => match calendar_payload(response) {
            Err(error) => Err(error),
            Ok(payload) => match parsed_json(payload) {
                Err(message) => Err(PortalErrorView::Json(message)),
                Ok(calendar) => pickups_in_calendar(calendar, labels),
            },
        },
    }
}

/// Takes the text that the calendar is in out of the portal's answer.
pub fn unwrap_calendar(response: &Json) -> (r: Result<String, PortalError>)
    ensures
        match calendar_payload(response@) {
            Ok(text) => r matches Ok(payload) && payload@ == text,
            Err(reason) => r matches Err(error) && error@ == reason,
        },
{
    match response.text_member("d") {
        Some(text) => Ok(text),
        None => Err(PortalError::NoPayload),
    }
}

/// Reads the pickups out of a calendar.
pub fn read_calendar_rows(calendar: &Json, labels: &TextMap) -> (r: Result<Vec<Pickup>, PortalError>)
    ensures
        match pickups_in_calendar(calendar@, labels@) {
            Ok(found) => r matches Ok(pickups) && views(pickups@) == found,
            Err(reason) => r matches Err(error) && error@ == reason,
        },
{
    let data = match calendar.member("Object") {
        Some(object) => object.member("data"),
        None => None,
    };
    match data {
        Some(Json::List(rows)) => {
            let ghost all = data->0@->List_0;
            let ghost make = |row: JsonView| row_pickup(row, labels@);
            let mut found: Vec<Pickup> = Vec::new();
            let mut i: usize = 0;
            assert(views(found@) =~= all.take(0).filter_map(make));
            while i < rows.len()
                invariant
                    data == Some(&Json::List(*rows)),
                    all == data->0@->List_0,
                    make == (|row: JsonView| row_pickup(row, labels@)),
                    i <= rows@.len(),
                    views(found@) == all.take(i as int).filter_map(make),
                decreases rows@.len() - i,
            {
                let ghost before = views(found@);
                proof {
                    assert(rows@[i as int]@ == all[i as int]);
                    assert(all.take(i + 1).drop_last() =~= all.take(i as int));
                    assert(all.take(i + 1).last() == all[i as int]);
                }
                match read_row(&rows[i], labels) {
                    Some(pickup) => {
                        found.push(pickup);
                        assert(views(found@) =~= before + seq![pickup@]);
                    },
                    None => {},
                }
                i += 1;
            }
            assert(all.take(i as int) =~= all);
            Ok(sort_by_date(found))
        },
        _ => Err(PortalError::NoData),
    }
}

/// Reads the pickups out of the portal's answer to the request for the calendar.
pub fn read_calendar(body: &str, labels: &TextMap) -> (r: Result<Vec<Pickup>, PortalError>)
    ensures
        match calendar_pickups(body@, labels@) {
            Ok(found) => r matches Ok(pickups) && views(pickups@) == found,
            Err(reason) => r matches Err(error) && error@ == reason,
        },
{
    match parse_json(body) {
        Err(reason) => Err(PortalError::Undecodable(reason)),
        Ok(response) => match unwrap_calendar(&response) {
            Err(error) => Err(error),
            Ok(payload) => match parse_json(payload.as_str()) {
                Err(message) => Err(PortalError::Json(message)),
                Ok(calendar) => read_calendar_rows(&calendar, labels),
            },
        },
    }
}

/// Where a description is a word without a blank, a blank and a rest, and the word is digits and
/// points with a point among them, it is named by the rest; in every other case it is its own name.
pub proof fn law_a_material_is_named_by_what_follows_its_code(description: Seq<char>, word: Seq<char>, rest: Seq<char>)
    requires
        description == word.push(' ') + rest,
        forall|i: int| 0 <= i < word.len() ==> #[trigger] word[i] != ' ',
    ensures
        ({
            let is_code = (exists|i: int| 0 <= i < word.len() && #[trigger] word[i] == '.') && (forall|i: int|
                0 <= i < word.len() ==> #[trigger] word[i] == '.' || 48 <= word[i] as int <= 57);
            &&& is_code ==> material_name(description) == rest
            &&& !is_code ==> material_name(description) == description
        }),
{
    lemma_split_at_first(word, ' ', rest);
    if exists|i: int| 0 <= i < word.len() && #[trigger] word[i] == '.' {
        let at = choose|i: int| 0 <= i < word.len() && #[trigger] word[i] == '.';
        assert(word.contains('.'));
    }
    if is_category_code(word) {
        assert forall|i: int| 0 <= i < word.len() implies #[trigger] word[i] == '.' || 48 <= word[i] as int <= 57 by {
            assert(is_digit(word[i]) || word[i] == '.');
        }
        let at = choose|i: int| 0 <= i < word.len() && word[i] == '.';
        assert(word[at] == '.');
    }
}

/// A description without a blank is its own name.
pub proof fn law_a_single_word_is_its_own_name(description: Seq<char>)
    requires
        forall|i: int| 0 <= i < description.len() ==> #[trigger] description[i] != ' ',
    ensures
        material_name(description) == description,
{
    assert(!description.contains(' '));
}

/// A material has the label that is configured for its name, unchanged, and its name where none is.
pub proof fn law_a_configured_material_label_is_kept(name: Seq<char>, labels: Map<Seq<char>, Seq<char>>)
    ensures
        labels.contains_key(name) ==> material_label(name, labels) == labels[name],
        !labels.contains_key(name) ==> material_label(name, labels) == name,
{
}

/// A row gives a pickup exactly when its date is a text that reads as year, month and day and its
/// description is a text. The pickup is on that day, with the label configured for the name of the
/// material, or that name.
pub proof fn law_a_row_gives_the_pickup_that_it_describes(row: JsonView, labels: Map<Seq<char>, Seq<char>>)
    ensures
        row_pickup(row, labels) is Some <==> {
            &&& row.member("Task Date"@) is Text
            &&& parsed_date(row.member("Task Date"@)->Text_0, "%Y-%m-%d"@) is Some
            &&& row.member("Material Description"@) is Text
        },
        row_pickup(row, labels) matches Some(pickup) ==> {
            let name = material_name(row.member("Material Description"@)->Text_0);
            &&& parsed_date(row.member("Task Date"@)->Text_0, "%Y-%m-%d"@) == Some(pickup.date)
            &&& labels.contains_key(name) ==> pickup.label == labels[name]
            &&& !labels.contains_key(name) ==> pickup.label == name
        },
{
}

/// The pickups of rows, and of these rows and one more.
proof fn lemma_one_more_row(rows: Seq<JsonView>, row: JsonView, labels: Map<Seq<char>, Seq<char>>)
    ensures
        ({
            let make = |row: JsonView| row_pickup(row, labels);
            rows.push(row).filter_map(make) == match row_pickup(row, labels) {
                Some(pickup) => rows.filter_map(make).push(pickup),
                None => rows.filter_map(make),
            }
        }),
{
    let make = |row: JsonView| row_pickup(row, labels);
    assert(rows.push(row).drop_last() =~= rows);
    assert(rows.push(row).filter_map(make) =~= match row_pickup(row, labels) {
        Some(pickup) => rows.filter_map(make).push(pickup),
        None => rows.filter_map(make),
    });
}

/// There are as many pickups as rows that give one, and each of these is among them.
proof fn lemma_every_row(rows: Seq<JsonView>, labels: Map<Seq<char>, Seq<char>>)
    ensures
        ({
            let found = rows.filter_map(|row: JsonView| row_pickup(row, labels));
            &&& found.len() == rows.filter(|row: JsonView| row_pickup(row, labels) is Some).len()
            &&& forall|i: int|
                0 <= i < rows.len() && row_pickup(#[trigger] rows[i], labels) is Some ==> found.contains(
                    row_pickup(rows[i], labels)->0,
                )
        }),
    decreases rows.len(),
{
    let make = |row: JsonView| row_pickup(row, labels);
    let gives = |row: JsonView| row_pickup(row, labels) is Some;
    if rows.len() == 0 {
        assert(rows.filter_map(make) =~= Seq::<PickupView>::empty());
        assert(rows.filter(gives) =~= Seq::<JsonView>::empty());
    } else {
        let shorter = rows.drop_last();
        lemma_every_row(shorter, labels);
        assert(rows =~= shorter.push(rows.last()));
        lemma_one_more_row(shorter, rows.last(), labels);
        shorter.lemma_filter_push(rows.last(), gives);
        let before = shorter.filter_map(make);
        let found = rows.filter_map(make);
        assert forall|i: int| 0 <= i < rows.len() && row_pickup(
            #[trigger] rows[i],
            labels,
        ) is Some implies found.contains(row_pickup(rows[i], labels)->0) by {
            let wanted = row_pickup(rows[i], labels)->0;
            if i < shorter.len() {
                assert(shorter[i] == rows[i]);
                assert(before.contains(wanted));
                let at = choose|k: int| 0 <= k < before.len() && before[k] == wanted;
                assert(found[at] == wanted);
            } else {
                assert(found[before.len() as int] == wanted);
            }
        }
    }
}

/// Every row of a calendar that describes a pickup gives it, and there are no others: the pickups are
/// as many as these rows, each row's is among them, and they go from day to day.
pub proof fn law_every_row_of_the_calendar_counts(
    calendar: JsonView,
    rows: Seq<JsonView>,
    labels: Map<Seq<char>, Seq<char>>,
)
    requires
        calendar.member("Object"@).member("data"@) == JsonView::List(rows),
    ensures
        pickups_in_calendar(calendar, labels) matches Ok(found) && {
            &&& found.len() == rows.filter(|row: JsonView| row_pickup(row, labels) is Some).len()
            &&& forall|i: int|
                0 <= i < rows.len() && row_pickup(#[trigger] rows[i], labels) is Some ==> found.contains(
                    row_pickup(rows[i], labels)->0,
                )
            &&& forall|i: int, j: int|
                0 <= i <= j < found.len() ==> !(#[trigger] found[j]).date.before((#[trigger] found[i]).date)
        },
{
    broadcast use vstd::seq_lib::group_to_multiset_ensures;

    let all = rows.filter_map(|row: JsonView| row_pickup(row, labels));
    let found = date_sorted(all);
    lemma_every_row(rows, labels);
    law_sorting_orders_by_day(all);
    law_sorting_keeps_every_pickup(all);
    assert forall|i: int| 0 <= i < rows.len() && row_pickup(
        #[trigger] rows[i],
        labels,
    ) is Some implies found.contains(row_pickup(rows[i], labels)->0) by {
        let wanted = row_pickup(rows[i], labels)->0;
        assert(all.contains(wanted));
        assert(all.to_multiset().count(wanted) > 0);
    }
}

/// One more row in a calendar adds the pickup that it describes, and nothing where it describes none;
/// the other pickups stay, each as often as before. A calendar without rows has no pickups.
pub proof fn law_one_more_row_adds_its_pickup(
    calendar: JsonView,
    longer: JsonView,
    rows: Seq<JsonView>,
    row: JsonView,
    labels: Map<Seq<char>, Seq<char>>,
)
    requires
        calendar.member("Object"@).member("data"@) == JsonView::List(rows),
        longer.member("Object"@).member("data"@) == JsonView::List(rows.push(row)),
    ensures
        ({
            let before = pickups_in_calendar(calendar, labels)->Ok_0;
            let after = pickups_in_calendar(longer, labels)->Ok_0;
            &&& pickups_in_calendar(calendar, labels) is Ok
            &&& pickups_in_calendar(longer, labels) is Ok
            &&& rows.len() == 0 ==> before.len() == 0
            &&& row_pickup(row, labels) is None ==> after == before
            &&& row_pickup(row, labels) matches Some(pickup) ==> {
                &&& after.to_multiset() == before.to_multiset().insert(pickup)
                &&& on_day(after, pickup.date) == on_day(before, pickup.date).push(pickup)
            }
        }),
{
    broadcast use vstd::seq_lib::group_to_multiset_ensures;

    let make = |row: JsonView| row_pickup(row, labels);
    let all = rows.filter_map(make);
    let more = rows.push(row).filter_map(make);
    lemma_one_more_row(rows, row, labels);
    law_sorting_keeps_every_pickup(all);
    law_sorting_keeps_every_pickup(more);
    law_sorting_orders_by_day(all);
    law_sorting_orders_by_day(more);
    if rows.len() == 0 {
        assert(all =~= Seq::<PickupView>::empty());
    }
    if let Some(pickup) = row_pickup(row, labels) {
        law_a_pickup_counts_for_its_own_day(all, pickup, pickup.date);
        assert(on_day(date_sorted(all), pickup.date) == on_day(all, pickup.date));
        assert(on_day(date_sorted(more), pickup.date) == on_day(more, pickup.date));
        assert(date_sorted(more).to_multiset() =~= date_sorted(all).to_multiset().insert(pickup));
    }
}

/// An answer of the portal leads to pickups exactly when it is JSON, has a text named `d`, this text is
/// JSON, and holds a list of rows; what is missing first is what the error says.
pub proof fn law_an_answer_fails_for_what_it_lacks_first(body: Seq<char>, labels: Map<Seq<char>, Seq<char>>)
    ensures
        parsed_json(body) matches Err(reason) ==> calendar_pickups(body, labels) == Err::<
            Seq<PickupView>,
            PortalErrorView,
        >(PortalErrorView::Undecodable(reason)),
        parsed_json(body) matches Ok(response) ==> {
            &&& response.member("d"@) !is Text ==> calendar_pickups(body, labels) == Err::<
                Seq<PickupView>,
                PortalErrorView,
            >(PortalErrorView::NoPayload)
            &&& response.member("d"@) matches JsonView::Text(payload) ==> {
                &&& parsed_json(payload) matches Err(message) ==> calendar_pickups(body, labels) == Err::<
                    Seq<PickupView>,
                    PortalErrorView,
                >(PortalErrorView::Json(message))
                &&& parsed_json(payload) matches Ok(calendar) ==> {
                    &&& calendar_pickups(body, labels) == pickups_in_calendar(calendar, labels)
                    &&& calendar.member("Object"@).member("data"@) !is List ==> calendar_pickups(body, labels)
                        == Err::<Seq<PickupView>, PortalErrorView>(PortalErrorView::NoData)
                }
            }
        },
{
}

/// The text that the calendar is in is the one named `d` in the answer, unchanged.
pub proof fn law_the_calendar_text_is_unwrapped_unchanged(response: JsonView)
    ensures
        response.member("d"@) matches JsonView::Text(text) ==> calendar_payload(response) == Ok::<
            Seq<char>,
            PortalErrorView,
        >(text),
        response.member("d"@) !is Text ==> calendar_payload(response) == Err::<Seq<char>, PortalErrorView>(
            PortalErrorView::NoPayload,
        ),
{
}

/// A portal error says what it holds, and is seen with it.
pub proof fn law_a_portal_error_says_what_went_wrong(error: PortalError)
    ensures
        error matches PortalError::Request(message) ==> error@ == PortalErrorView::Request(message@)
            && error@.message() == message@,
        error matches PortalError::LoginFailed(url) ==> error@ == PortalErrorView::LoginFailed(url@)
            && error@.message() == "Berlin Recycling login failed — redirected to "@ + url@,
        error matches PortalError::Undecodable(reason) ==> error@ == PortalErrorView::Undecodable(reason@)
            && error@.message() == "error decoding response body"@,
        error matches PortalError::Json(message) ==> error@ == PortalErrorView::Json(message@) && error@.message()
            == message@,
        error is NoPayload ==> error@ == PortalErrorView::NoPayload && error@.message()
            == "Berlin Recycling: unexpected response shape (missing 'd')"@,
        error is NoData ==> error@ == PortalErrorView::NoData && error@.message()
            == "Berlin Recycling: no data array in response"@,
{
}

} // verus!
