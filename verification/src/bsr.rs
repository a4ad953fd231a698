//! The waste collection service of Berlin: looking up a schedule, and reading its pickups.
use vstd::prelude::*;

use crate::date::{lemma_two_digits, parse_date, parsed_date, Date, DateView};
use crate::numbers::{decimal, signed_decimal, signed_decimal_text, two_digit_text, zero_padded};
use crate::order::text_views;
use crate::pickup::{date_sorted, law_sorting_keeps_every_pickup, sort_by_date, views, Pickup, PickupView};
use crate::tables::TextMap;
use crate::text::{has_part, occurs_in, optional_text, same_text};
use crate::urls::{parse_with_param, url_with_param};

verus! {

/// Where the pickups of a schedule are asked for.
pub const BSR_PICKUPS: &'static str = "https://umnewforms.bsr.de/p/de.bsr.adressen.app/abfuhrEvents";

/// Where streets are asked for.
pub const BSR_STREETS: &'static str = "https://umnewforms.bsr.de/p/de.bsr.adressen.app/streetNames";

/// Where the schedules of an address are asked for.
pub const BSR_SCHEDID: &'static str = "https://umnewforms.bsr.de/p/de.bsr.adressen.app/plzSet/plzSet";

/// A street that the service knows.
#[derive(Debug)]
pub struct BsrStreetEntry {
    pub value: String,
}

/// A schedule of an address: its id, and a label that tells it from others.
#[derive(Debug)]
pub struct BsrScheduleEntry {
    pub value: String,
    pub label: String,
}

/// A pickup as the service reports it.
#[derive(Debug)]
pub struct BsrPickupEntry {
    pub service_date: String,
    pub category: String,
}

/// A pickup as the service reports it, by its texts.
pub struct BsrPickupEntryView {
    pub service_date: Seq<char>,
    pub category: Seq<char>,
}

impl View for BsrPickupEntry {
    type V = BsrPickupEntryView;

    open spec fn view(&self) -> BsrPickupEntryView {
        BsrPickupEntryView { service_date: self.service_date@, category: self.category@ }
    }
}

/// Why a request could not be made, or led to nothing.
#[derive(Debug)]
pub enum LookupError {
    /// The address of a request could not be made; this is why.
    Url(String),
    /// The service knows no street like this one.
    NoStreet(String),
    /// The service knows no such house number in the street.
    NoAddress(String, String),
}

/// A lookup error, by its texts.
pub enum LookupErrorView {
    Url(Seq<char>),
    NoStreet(Seq<char>),
    NoAddress(Seq<char>, Seq<char>),
}

impl View for LookupError {
    type V = LookupErrorView;

    open spec fn view(&self) -> LookupErrorView {
        match self {
            LookupError::Url(message) => LookupErrorView::Url(message@),
            LookupError::NoStreet(street) => LookupErrorView::NoStreet(street@),
            LookupError::NoAddress(street, number) => LookupErrorView::NoAddress(street@, number@),
        }
    }
}

/// A text in quotes, with its special characters escaped, as Rust writes it for debugging.
pub uninterp spec fn debug_quoted(text: Seq<char>) -> Seq<char>;

/// Formatting a `str` with `{:?}`. The result is the one that `debug_quoted` stands for.
#[verifier::external_body]
fn quote_for_debugging(text: &str) -> (r: String)
    ensures
        r@ == debug_quoted(text@),
{
    format!("{:?}", text)
}

impl LookupErrorView {
    /// What the error says, given the text that it quotes, where it quotes one.
    pub open spec fn message_with(self, quoted: Seq<char>) -> Seq<char> {
        match self {
            LookupErrorView::Url(message) => message,
            LookupErrorView::NoStreet(_) => "No BSR street found for: "@ + quoted,
            LookupErrorView::NoAddress(street, number) => "No BSR address found for: "@ + street + " "@ + number,
        }
    }

    /// What the error says. A street that is not known stands in it in quotes.
    pub open spec fn message(self) -> Seq<char> {
        match self {
            LookupErrorView::NoStreet(street) => self.message_with(debug_quoted(street)),
            _ => self.message_with(Seq::empty()),
        }
    }
}

impl LookupError {
    /// What the error says, given the text that it quotes, where it quotes one.
    pub fn message_quoting(&self, quoted: &str) -> (text: String)
        ensures
            text@ == self@.message_with(quoted@),
    {
        match self {
            LookupError::Url(message) => message.clone(),
            LookupError::NoStreet(_) => {
                let mut text = "No BSR street found for: ".to_owned();
                text.append(quoted);
                text
            },
            LookupError::NoAddress(street, number) => {
                let mut text = "No BSR address found for: ".to_owned();
                text.append(street.as_str());
                text.append(" ");
                text.append(number.as_str());
                text
            },
        }
    }

    /// What the error says.
    pub fn message(&self) -> (text: String)
        ensures
            text@ == self@.message(),
    {
        match self {
            LookupError::NoStreet(street) => self.message_quoting(quote_for_debugging(street.as_str()).as_str()),
            _ => self.message_quoting(""),
        }
    }
}

/// A text in lower case, as Rust's Unicode tables have it.
pub uninterp spec fn lower_case(text: Seq<char>) -> Seq<char>;

/// `str::to_lowercase`. The result is the one that `lower_case` stands for.
#[verifier::external_body]
fn to_lower_case(text: &str) -> (r: String)
    ensures
        r@ == lower_case(text@),
{
    text.to_lowercase()
}

/// Whether the name at `at` is the first one that is `wanted`.
pub open spec fn is_first_named(names: Seq<Seq<char>>, wanted: Seq<char>, at: int) -> bool {
    &&& 0 <= at < names.len()
    &&& names[at] == wanted
    &&& forall|i: int| 0 <= i < at ==> #[trigger] names[i] != wanted
}

/// The street to go on with: the first one that is named `wanted`, or the first one of all where
/// none is.
pub open spec fn picked_street(names: Seq<Seq<char>>, wanted: Seq<char>) -> Option<int> {
    if names.len() == 0 {
        None
    } else if exists|at: int| is_first_named(names, wanted, at) {
        Some(choose|at: int| is_first_named(names, wanted, at))
    } else {
        Some(0)
    }
}

/// The names of streets in lower case.
pub open spec fn lower_case_names(streets: Seq<BsrStreetEntry>) -> Seq<Seq<char>> {
    streets.map_values(|street: BsrStreetEntry| lower_case(street.value@))
}

/// The street to go on with: the first one with the name that is looked for, but for upper and
/// lower case; the first one of all where none has that name.
pub open spec fn matched_street(streets: Seq<BsrStreetEntry>, street: Seq<char>) -> Option<int> {
    picked_street(lower_case_names(streets), lower_case(street))
}

/// Picks the street to go on with, given the names of the streets and of the one that is looked for,
/// all in lower case.
pub fn pick_street(names: &Vec<String>, wanted: &str) -> (r: Option<usize>)
    ensures
        match picked_street(text_views(names@), wanted@) {
            Some(at) => r matches Some(picked) && picked == at && picked < names@.len(),
            None => r is None,
        },
{
    if names.len() == 0 {
        return None;
    }
    let ghost all = text_views(names@);
    let mut i: usize = 0;
    while i < names.len()
        invariant
            i <= names@.len(),
            names@.len() > 0,
            all == text_views(names@),
            forall|j: int| 0 <= j < i ==> #[trigger] all[j] != wanted@,
        decreases names@.len() - i,
    {
        assert(all[i as int] == names@[i as int]@);
        if same_text(names[i].as_str(), wanted) {
            proof {
                assert(is_first_named(all, wanted@, i as int));
                let at = choose|at: int| is_first_named(all, wanted@, at);
                assert(all[i as int] == wanted@);
                assert(at == i);
            }
            return Some(i);
        }
        i += 1;
    }
    Some(0)
}

/// Picks the street to go on with.
pub fn match_street(streets: &Vec<BsrStreetEntry>, street: &str) -> (r: Option<usize>)
    ensures
        match matched_street(streets@, street@) {
            Some(at) => r matches Some(picked) && picked == at && picked < streets@.len(),
            None => r is None,
        },
{
    let wanted = to_lower_case(street);
    let mut names: Vec<String> = Vec::new();
    let mut i: usize = 0;
    while i < streets.len()
        invariant
            i <= streets@.len(),
            text_views(names@) == lower_case_names(streets@).take(i as int),
        decreases streets@.len() - i,
    {
        let ghost before = text_views(names@);
        let name = to_lower_case(streets[i].value.as_str());
        names.push(name);
        assert(text_views(names@) =~= before.push(name@));
        assert(lower_case_names(streets@).take(i + 1) =~= lower_case_names(streets@).take(i as int).push(name@));
        i += 1;
    }
    assert(lower_case_names(streets@).take(i as int) =~= lower_case_names(streets@));
    pick_street(&names, wanted.as_str())
}

/// Where a street has the name that is looked for, one of them is the first.
proof fn lemma_first_named(names: Seq<Seq<char>>, wanted: Seq<char>, found: int) -> (at: int)
    requires
        0 <= found < names.len(),
        names[found] == wanted,
    ensures
        is_first_named(names, wanted, at),
    decreases found,
{
    if exists|i: int| 0 <= i < found && #[trigger] names[i] == wanted {
        let earlier = choose|i: int| 0 <= i < found && #[trigger] names[i] == wanted;
        lemma_first_named(names, wanted, earlier)
    } else {
        found
    }
}

/// A street is picked unless there are none. It has the name that is looked for, but for upper and
/// lower case, and no street before it has, wherever any street has that name; otherwise it is the
/// first of all.
pub proof fn law_the_street_that_is_looked_for_wins(streets: Seq<BsrStreetEntry>, street: Seq<char>)
    ensures
        matched_street(streets, street) is None <==> streets.len() == 0,
        matched_street(streets, street) matches Some(at) ==> {
            &&& 0 <= at < streets.len()
            &&& forall|i: int| 0 <= i < at ==> lower_case((#[trigger] streets[i]).value@) != lower_case(street)
            &&& lower_case(streets[at].value@) != lower_case(street) ==> at == 0 && forall|i: int|
                0 <= i < streets.len() ==> lower_case((#[trigger] streets[i]).value@) != lower_case(street)
        },
{
    let names = lower_case_names(streets);
    let wanted = lower_case(street);
    assert forall|i: int| 0 <= i < streets.len() implies lower_case((#[trigger] streets[i]).value@) == names[i] by {}
    if exists|i: int| 0 <= i < names.len() && #[trigger] names[i] == wanted {
        let found = choose|i: int| 0 <= i < names.len() && #[trigger] names[i] == wanted;
        let at = lemma_first_named(names, wanted, found);
        assert(is_first_named(names, wanted, at));
    }
}

/// Whether the schedule at `at` is the first one whose label holds the postal code.
pub open spec fn is_first_with_plz(results: Seq<BsrScheduleEntry>, plz: Seq<char>, at: int) -> bool {
    &&& 0 <= at < results.len()
    &&& occurs_in(results[at].label@, plz)
    &&& forall|i: int| 0 <= i < at ==> !occurs_in((#[trigger] results[i]).label@, plz)
}

/// The schedule to use: the only one, or the first one whose label holds the postal code, or the
/// first one of all.
pub open spec fn chosen_schedule(results: Seq<BsrScheduleEntry>, plz: Option<Seq<char>>) -> Option<int> {
    if results.len() == 0 {
        None
    } else if results.len() > 1 && plz is Some && exists|at: int| is_first_with_plz(results, plz->0, at) {
        Some(choose|at: int| is_first_with_plz(results, plz->0, at))
    } else {
        Some(0)
    }
}

/// Picks the schedule to use.
pub fn choose_schedule(results: &Vec<BsrScheduleEntry>, plz: &Option<String>) -> (r: Option<usize>)
    ensures
        r is Some <==> chosen_schedule(results@, optional_text(*plz)) is Some,
        r matches Some(at) ==> chosen_schedule(results@, optional_text(*plz)) == Some(at as int) && at
            < results@.len(),
{
    if results.len() == 0 {
        return None;
    }
    if results.len() == 1 {
        return Some(0);
    }
    match plz {
        None => {},
        Some(code) => {
            let mut i: usize = 0;
            while i < results.len()
                invariant
                    i <= results@.len(),
                    results@.len() > 1,
                    optional_text(*plz) == Some(code@),
                    forall|j: int| 0 <= j < i ==> !occurs_in((#[trigger] results@[j]).label@, code@),
                decreases results@.len() - i,
            {
                if has_part(results[i].label.as_str(), code.as_str()) {
                    proof {
                        let wanted = optional_text(*plz)->0;
                        assert(is_first_with_plz(results@, wanted, i as int));
                        let at = choose|at: int| is_first_with_plz(results@, wanted, at);
                        assert(occurs_in(results@[i as int].label@, wanted));
                        assert(at == i);
                    }
                    return Some(i);
                }
                i += 1;
            }
        },
    }
    Some(0)
}

/// Where a label holds the postal code, one of them is the first.
proof fn lemma_first_with_plz(results: Seq<BsrScheduleEntry>, plz: Seq<char>, found: int) -> (at: int)
    requires
        0 <= found < results.len(),
        occurs_in(results[found].label@, plz),
    ensures
        is_first_with_plz(results, plz, at),
    decreases found,
{
    if exists|i: int| 0 <= i < found && occurs_in((#[trigger] results[i]).label@, plz) {
        let earlier = choose|i: int| 0 <= i < found && occurs_in((#[trigger] results[i]).label@, plz);
        lemma_first_with_plz(results, plz, earlier)
    } else {
        found
    }
}

/// A schedule is picked unless there are none. With a postal code its label holds that code, and no
/// label before it does, wherever any label does; in every other case it is the first of all.
pub proof fn law_the_postal_code_decides(results: Seq<BsrScheduleEntry>, plz: Option<Seq<char>>)
    ensures
        chosen_schedule(results, plz) is None <==> results.len() == 0,
        chosen_schedule(results, plz) matches Some(at) ==> {
            &&& 0 <= at < results.len()
            &&& plz is None ==> at == 0
            &&& plz matches Some(code) ==> {
                &&& forall|i: int| 0 <= i < at ==> !occurs_in((#[trigger] results[i]).label@, code)
                &&& !occurs_in(results[at].label@, code) ==> at == 0 && forall|i: int|
                    0 <= i < results.len() ==> !occurs_in((#[trigger] results[i]).label@, code)
            }
        },
{
    if plz is Some && exists|i: int| 0 <= i < results.len() && occurs_in((#[trigger] results[i]).label@, plz->0) {
        let found = choose|i: int| 0 <= i < results.len() && occurs_in((#[trigger] results[i]).label@, plz->0);
        let at = lemma_first_with_plz(results, plz->0, found);
        assert(is_first_with_plz(results, plz->0, at));
    }
}

/// What the service is asked when the schedules of a house are looked for.
pub open spec fn house_query(street: Seq<char>, number: Seq<char>) -> Seq<char> {
    street + ":::"@ + number
}

/// Writes what the service is asked when the schedules of a house are looked for.
pub fn write_house_query(street: &str, number: &str) -> (query: String)
    ensures
        query@ == house_query(street@, number@),
{
    let mut query = street.to_owned();
    query.append(":::");
    query.append(number);
    query
}

/// The search for the schedule of an address. The service is asked for the street first, then for
/// the house in the street that was picked.
#[derive(Debug)]
pub struct ScheduleLookup {
    pub street: String,
    pub number: String,
    pub plz: Option<String>,
}

/// The second request of a lookup.
#[derive(Debug)]
pub struct HouseRequest {
    /// The street that was picked.
    pub street: String,
    /// The address of the request.
    pub url: String,
}

impl ScheduleLookup {
    /// The address of the first request.
    pub fn first_request(&self) -> (r: Result<String, LookupError>)
        ensures
            match url_with_param(BSR_STREETS@, "searchQuery"@, self.street@) {
                Ok(address) => r matches Ok(url) && url@ == address,
                Err(message) => r matches Err(error) && error@ == LookupErrorView::Url(message),
            },
    {
        proof {
            reveal_strlit("https://umnewforms.bsr.de/p/de.bsr.adressen.app/streetNames");
        }
        match parse_with_param(BSR_STREETS, "searchQuery", self.street.as_str()) {
            Ok(url) => Ok(url),
            Err(message) => Err(LookupError::Url(message)),
        }
    }

    /// The second request, once the service has answered the first one with `streets`.
    pub fn second_request(&self, streets: &Vec<BsrStreetEntry>) -> (r: Result<HouseRequest, LookupError>)
        ensures
            match matched_street(streets@, self.street@) {
                None => r matches Err(error) && error@ == LookupErrorView::NoStreet(self.street@),
                Some(at) => match url_with_param(
                    BSR_SCHEDID@,
                    "searchQuery"@,
                    house_query(streets@[at].value@, self.number@),
                ) {
                    Ok(url) => r matches Ok(house) && house.street@ == streets@[at].value@ && house.url@ == url,
                    Err(message) => r matches Err(error) && error@ == LookupErrorView::Url(message),
                },
            },
    {
        match match_street(streets, self.street.as_str()) {
            None => Err(LookupError::NoStreet(self.street.clone())),
            Some(at) => {
                let street = streets[at].value.clone();
                let query = write_house_query(street.as_str(), self.number.as_str());
                proof {
                    reveal_strlit("https://umnewforms.bsr.de/p/de.bsr.adressen.app/plzSet/plzSet");
                }
                match parse_with_param(BSR_SCHEDID, "searchQuery", query.as_str()) {
                    Ok(url) => Ok(HouseRequest { street, url }),
                    Err(message) => Err(LookupError::Url(message)),
                }
            },
        }
    }

    /// The id of the schedule, once the service has answered the second request, for `street`, with
    /// `results`.
    pub fn schedule_id(&self, street: &str, results: &Vec<BsrScheduleEntry>) -> (r: Result<String, LookupError>)
        ensures
            match chosen_schedule(results@, optional_text(self.plz)) {
                None => r matches Err(error) && error@ == LookupErrorView::NoAddress(street@, self.number@),
                Some(at) => r matches Ok(id) && id@ == results@[at].value@,
            },
    {
        match choose_schedule(results, &self.plz) {
            None => Err(LookupError::NoAddress(street.to_owned(), self.number.clone())),
            Some(at) => Ok(results[at].value.clone()),
        }
    }
}

/// The condition of the request for the pickups of a schedule: a year from the first of a month.
pub open spec fn pickup_filter(schedule_id: Seq<char>, year: int, month: int) -> Seq<char> {
    let month_text = zero_padded(decimal(month as nat), 2);
    "AddrKey eq '"@ + schedule_id + "' and DateFrom eq datetime'"@ + signed_decimal(year) + "-"@ + month_text
        + "-01T00:00:00' and DateTo eq datetime'"@ + signed_decimal(year + 1) + "-"@ + month_text
        + "-01T00:00:00'"@
}

/// Writes the condition of the request for the pickups of a schedule, from the month of `today` on.
pub fn write_pickup_filter(schedule_id: &str, today: &Date) -> (filter: String)
    ensures
        filter@ == pickup_filter(schedule_id@, today@.year, today@.month),
{
    let month = two_digit_text(today.month() as u64);
    let mut filter = "AddrKey eq '".to_owned();
    filter.append(schedule_id);
    filter.append("' and DateFrom eq datetime'");
    filter.append(signed_decimal_text(today.year()).as_str());
    filter.append("-");
    filter.append(month.as_str());
    filter.append("-01T00:00:00' and DateTo eq datetime'");
    filter.append(signed_decimal_text(today.year() + 1).as_str());
    filter.append("-");
    filter.append(month.as_str());
    filter.append("-01T00:00:00'");
    filter
}

/// The address of the request for the pickups of a schedule, from the month of `today` on.
pub fn pickups_request(schedule_id: &str, today: &Date) -> (r: Result<String, LookupError>)
    ensures
        match url_with_param(BSR_PICKUPS@, "filter"@, pickup_filter(schedule_id@, today@.year, today@.month)) {
            Ok(address) => r matches Ok(url) && url@ == address,
            Err(message) => r matches Err(error) && error@ == LookupErrorView::Url(message),
        },
{
    let filter = write_pickup_filter(schedule_id, today);
    proof {
        reveal_strlit("https://umnewforms.bsr.de/p/de.bsr.adressen.app/abfuhrEvents");
    }
    match parse_with_param(BSR_PICKUPS, "filter", filter.as_str()) {
        Ok(url) => Ok(url),
        Err(message) => Err(LookupError::Url(message)),
    }
}

/// The label of a category: the configured one, or one that says that there is none.
pub open spec fn category_label(category: Seq<char>, labels: Map<Seq<char>, Seq<char>>) -> Seq<char> {
    if labels.contains_key(category) {
        labels[category]
    } else {
        "Unbekannt ("@ + category + ")"@
    }
}

/// The pickup behind an entry, given the day that was read out of its date. There is none where
/// no day was read.
pub open spec fn pickup_of(
    entry: BsrPickupEntryView,
    date: Option<DateView>,
    labels: Map<Seq<char>, Seq<char>>,
) -> Option<PickupView> {
    match date {
        Some(date) => Some(PickupView { date, label: category_label(entry.category, labels) }),
        None => None,
    }
}

/// The pickup behind an entry. There is none where the date of the entry is not day, month and
/// year.
pub open spec fn entry_pickup(entry: BsrPickupEntryView, labels: Map<Seq<char>, Seq<char>>) -> Option<PickupView> {
    pickup_of(entry, parsed_date(entry.service_date, "%d.%m.%Y"@), labels)
}

/// The entries of an answer, group by group.
pub open spec fn entry_groups(groups: Seq<Vec<BsrPickupEntry>>) -> Seq<Seq<BsrPickupEntryView>> {
    groups.map_values(|group: Vec<BsrPickupEntry>| group@.map_values(|entry: BsrPickupEntry| entry@))
}

/// The pickups of an answer, in the order in which its entries stand.
pub open spec fn reported_pickups(
    groups: Seq<Seq<BsrPickupEntryView>>,
    labels: Map<Seq<char>, Seq<char>>,
) -> Seq<PickupView> {
    groups.flatten().filter_map(|entry: BsrPickupEntryView| entry_pickup(entry, labels))
}

/// The pickups of entries that are put together from two lists.
proof fn lemma_pickups_of_both(
    a: Seq<BsrPickupEntryView>,
    b: Seq<BsrPickupEntryView>,
    labels: Map<Seq<char>, Seq<char>>,
)
    ensures
        ({
            let make = |entry: BsrPickupEntryView| entry_pickup(entry, labels);
            (a + b).filter_map(make) == a.filter_map(make) + b.filter_map(make)
        }),
    decreases b.len(),
{
    let make = |entry: BsrPickupEntryView| entry_pickup(entry, labels);
    if b.len() == 0 {
        assert(a + b =~= a);
        assert(b.filter_map(make) =~= Seq::<PickupView>::empty());
        assert(a.filter_map(make) + b.filter_map(make) =~= a.filter_map(make));
    } else {
        let shorter = b.drop_last();
        lemma_pickups_of_both(a, shorter, labels);
        assert((a + b).drop_last() =~= a + shorter);
        assert((a + b).last() == b.last());
        assert((a + b).filter_map(make) =~= a.filter_map(make) + b.filter_map(make));
    }
}

/// The pickups of an answer with one more group at its end.
proof fn lemma_one_more_group(
    groups: Seq<Seq<BsrPickupEntryView>>,
    group: Seq<BsrPickupEntryView>,
    labels: Map<Seq<char>, Seq<char>>,
)
    ensures
        reported_pickups(groups.push(group), labels) == reported_pickups(groups, labels) + group.filter_map(
            |entry: BsrPickupEntryView| entry_pickup(entry, labels),
        ),
{
    groups.lemma_flatten_push(group);
    lemma_pickups_of_both(groups.flatten(), group, labels);
}

/// The pickups of an answer without one of its groups are fewer by those of the group.
proof fn lemma_without_group(groups: Seq<Seq<BsrPickupEntryView>>, at: int, labels: Map<Seq<char>, Seq<char>>)
    requires
        0 <= at < groups.len(),
    ensures
        reported_pickups(groups, labels).to_multiset() == reported_pickups(
            groups.remove(at),
            labels,
        ).to_multiset().add(
            groups[at].filter_map(|entry: BsrPickupEntryView| entry_pickup(entry, labels)).to_multiset(),
        ),
    decreases groups.len(),
{
    let make = |entry: BsrPickupEntryView| entry_pickup(entry, labels);
    let shorter = groups.drop_last();
    let last = groups.last();
    assert(groups =~= shorter.push(last));
    lemma_one_more_group(shorter, last, labels);
    vstd::seq_lib::lemma_multiset_commutative(reported_pickups(shorter, labels), last.filter_map(make));
    if at == groups.len() - 1 {
        assert(groups.remove(at) =~= shorter);
    } else {
        lemma_without_group(shorter, at, labels);
        assert(groups.remove(at) =~= shorter.remove(at).push(last));
        lemma_one_more_group(shorter.remove(at), last, labels);
        vstd::seq_lib::lemma_multiset_commutative(
            reported_pickups(shorter.remove(at), labels),
            last.filter_map(make),
        );
        assert(reported_pickups(groups, labels).to_multiset() =~= reported_pickups(
            groups.remove(at),
            labels,
        ).to_multiset().add(groups[at].filter_map(make).to_multiset()));
    }
}

/// Whatever order the groups of an answer come in, the same pickups are read out of it.
pub proof fn law_group_order_makes_no_difference(
    groups: Seq<Seq<BsrPickupEntryView>>,
    others: Seq<Seq<BsrPickupEntryView>>,
    labels: Map<Seq<char>, Seq<char>>,
)
    requires
        groups.to_multiset() == others.to_multiset(),
    ensures
        date_sorted(reported_pickups(groups, labels)).to_multiset() == date_sorted(
            reported_pickups(others, labels),
        ).to_multiset(),
{
    lemma_same_pickups(groups, others, labels);
    law_sorting_keeps_every_pickup(reported_pickups(groups, labels));
    law_sorting_keeps_every_pickup(reported_pickups(others, labels));
}

/// Answers with the same groups hold the same pickups.
proof fn lemma_same_pickups(
    groups: Seq<Seq<BsrPickupEntryView>>,
    others: Seq<Seq<BsrPickupEntryView>>,
    labels: Map<Seq<char>, Seq<char>>,
)
    requires
        groups.to_multiset() == others.to_multiset(),
    ensures
        reported_pickups(groups, labels).to_multiset() == reported_pickups(others, labels).to_multiset(),
    decreases groups.len(),
{
    broadcast use vstd::seq_lib::group_to_multiset_ensures;

    assert(groups.to_multiset().len() == groups.len());
    assert(others.to_multiset().len() == others.len());
    if groups.len() == 0 {
        assert(groups =~= others);
    } else {
        let last = groups.last();
        assert(groups.contains(last));
        assert(groups.to_multiset().count(last) > 0);
        assert(others.contains(last));
        let at = choose|i: int| 0 <= i < others.len() && others[i] == last;
        let end = groups.len() - 1;
        assert(groups.remove(end).to_multiset() =~= others.remove(at).to_multiset());
        lemma_same_pickups(groups.remove(end), others.remove(at), labels);
        lemma_without_group(groups, end, labels);
        lemma_without_group(others, at, labels);
    }
}

/// Makes the pickup of an entry, given the day that was read out of its date.
pub fn pickup_from_entry(entry: &BsrPickupEntry, date: Option<Date>, labels: &TextMap) -> (r: Option<Pickup>)
    ensures
        match date {
            Some(day) => r matches Some(pickup) && pickup_of(entry@, Some(day@), labels@) == Some(pickup@)
                && pickup.date@ == day@,
            None => r is None && pickup_of(entry@, None, labels@) is None,
        },
        r matches Some(pickup) ==> (labels@.contains_key(entry.category@) ==> pickup.label@
            == labels@[entry.category@]),
        r matches Some(pickup) ==> (!labels@.contains_key(entry.category@) ==> pickup.label@ == "Unbekannt ("@
            + entry.category@ + ")"@),
{
    match date {
        None => None,
        Some(date) => {
            let label = match labels.get(entry.category.as_str()) {
                Some(label) => label,
                None => {
                    let mut label = "Unbekannt (".to_owned();
                    label.append(entry.category.as_str());
                    label.append(")");
                    label
                },
            };
            Some(Pickup { date, label })
        },
    }
}

/// Reads the pickups out of the service's answer, in the order of their days. The entries come in
/// groups, in whatever order the answer holds these; an entry whose date cannot be read is left
/// out.
pub fn read_pickups(groups: &Vec<Vec<BsrPickupEntry>>, labels: &TextMap) -> (r: Vec<Pickup>)
    ensures
        views(r@) == date_sorted(reported_pickups(entry_groups(groups@), labels@)),
{
    let ghost all = entry_groups(groups@);
    let ghost make = |entry: BsrPickupEntryView| entry_pickup(entry, labels@);
    let mut found: Vec<Pickup> = Vec::new();
    let mut i: usize = 0;
    assert(all.take(0).flatten() =~= Seq::empty());
    assert(views(found@) =~= all.take(0).flatten().filter_map(make));
    while i < groups.len()
        invariant
            i <= groups@.len(),
            all == entry_groups(groups@),
            make == (|entry: BsrPickupEntryView| entry_pickup(entry, labels@)),
            views(found@) == all.take(i as int).flatten().filter_map(make),
        decreases groups@.len() - i,
    {
        let ghost earlier = all.take(i as int).flatten();
        let ghost group = all[i as int];
        let mut j: usize = 0;
        assert(earlier + group.take(0) =~= earlier);
        while j < groups[i].len()
            invariant
                i < groups@.len(),
                j <= groups@[i as int]@.len(),
                all == entry_groups(groups@),
                make == (|entry: BsrPickupEntryView| entry_pickup(entry, labels@)),
                group == all[i as int],
                views(found@) == (earlier + group.take(j as int)).filter_map(make),
            decreases groups@[i as int]@.len() - j,
        {
            let entry = &groups[i][j];
            let ghost before = earlier + group.take(j as int);
            let ghost before_found = views(found@);
            proof {
                assert(entry@ == group[j as int]);
                assert(earlier + group.take(j + 1) =~= before.push(entry@));
                assert(before.push(entry@).drop_last() =~= before);
            }
            let date = parse_date(entry.service_date.as_str(), "%d.%m.%Y");
            match pickup_from_entry(entry, date, labels) {
                Some(pickup) => {
                    found.push(pickup);
                    assert(views(found@) =~= before_found + seq![pickup@]);
                },
                None => {},
            }
            j += 1;
        }
        proof {
            assert(group.take(j as int) =~= group);
            assert(all.take(i + 1) =~= all.take(i as int).push(group));
            all.take(i as int).lemma_flatten_push(group);
        }
        i += 1;
    }
    assert(all.take(i as int) =~= all);
    sort_by_date(found)
}

/// A category has the label that is configured for it, unchanged; one without has its own name in
/// it.
pub proof fn law_a_configured_label_is_kept(
    entry: BsrPickupEntryView,
    date: DateView,
    labels: Map<Seq<char>, Seq<char>>,
)
    ensures
        pickup_of(entry, None, labels) is None,
        pickup_of(entry, Some(date), labels) matches Some(pickup) && {
            &&& pickup.date == date
            &&& labels.contains_key(entry.category) ==> pickup.label == labels[entry.category]
            &&& !labels.contains_key(entry.category) ==> pickup.label == "Unbekannt ("@ + entry.category + ")"@
        },
{
}

/// The entries of an answer are seen as they are, group by group and one for one.
pub proof fn law_entries_are_seen_as_they_are(groups: Seq<Vec<BsrPickupEntry>>)
    ensures
        entry_groups(groups).len() == groups.len(),
        forall|i: int| 0 <= i < groups.len() ==> (#[trigger] entry_groups(groups)[i]).len() == groups[i]@.len(),
        forall|i: int, j: int|
            0 <= i < groups.len() && 0 <= j < groups[i]@.len() ==> {
                let seen = #[trigger] entry_groups(groups)[i][j];
                seen.service_date == groups[i]@[j].service_date@ && seen.category == groups[i]@[j].category@
            },
{
}

/// An answer without groups has no pickups, and a group without entries adds none. One more entry in
/// the last group adds a pickup exactly when its date reads as day, month and year: on that day, with
/// the label configured for its category, or one that names the category.
pub proof fn law_one_more_entry_adds_its_pickup(
    groups: Seq<Seq<BsrPickupEntryView>>,
    group: Seq<BsrPickupEntryView>,
    entry: BsrPickupEntryView,
    labels: Map<Seq<char>, Seq<char>>,
)
    ensures
        ({
            let none = Seq::<BsrPickupEntryView>::empty();
            let before = reported_pickups(groups.push(group), labels);
            let after = reported_pickups(groups.push(group.push(entry)), labels);
            &&& reported_pickups(Seq::empty(), labels) == Seq::<PickupView>::empty()
            &&& reported_pickups(groups.push(none), labels) == reported_pickups(groups, labels)
            &&& parsed_date(entry.service_date, "%d.%m.%Y"@) is None ==> after == before
            &&& parsed_date(entry.service_date, "%d.%m.%Y"@) matches Some(date) ==> {
                &&& labels.contains_key(entry.category) ==> after == before.push(
                    PickupView { date, label: labels[entry.category] },
                )
                &&& !labels.contains_key(entry.category) ==> after == before.push(
                    PickupView { date, label: "Unbekannt ("@ + entry.category + ")"@ },
                )
            }
        }),
{
    let make = |entry: BsrPickupEntryView| entry_pickup(entry, labels);
    let none = Seq::<BsrPickupEntryView>::empty();
    let nothing = Seq::<Seq<BsrPickupEntryView>>::empty();
    assert(nothing.flatten() =~= none);
    assert(none.filter_map(make) =~= Seq::<PickupView>::empty());
    lemma_one_more_group(groups, none, labels);
    assert(reported_pickups(groups.push(none), labels) =~= reported_pickups(groups, labels));
    lemma_one_more_group(groups, group, labels);
    lemma_one_more_group(groups, group.push(entry), labels);
    assert(group.push(entry).drop_last() =~= group);
    let before = reported_pickups(groups.push(group), labels);
    let after = reported_pickups(groups.push(group.push(entry)), labels);
    match entry_pickup(entry, labels) {
        Some(pickup) => {
            assert(after =~= before.push(pickup));
        },
        None => {
            assert(after =~= before);
        },
    }
}

/// The request for a house names the street and the number, with three colons between them.
pub proof fn law_a_house_is_asked_for_by_street_and_number(street: Seq<char>, number: Seq<char>)
    ensures
        house_query(street, number) == street + seq![':', ':', ':'] + number,
{
    reveal_strlit(":::");
    assert(":::"@ =~= seq![':', ':', ':']);
}

/// The pickups that are asked for are those of the schedule, from the first of the month to the first
/// of the same month a year later.
pub proof fn law_pickups_are_asked_for_a_year(schedule_id: Seq<char>, year: int, month: int)
    requires
        1 <= month <= 12,
    ensures
        ({
            let digits = seq![(48 + month / 10) as char, (48 + month % 10) as char];
            pickup_filter(schedule_id, year, month) == "AddrKey eq '"@ + schedule_id
                + "' and DateFrom eq datetime'"@ + signed_decimal(year) + "-"@ + digits
                + "-01T00:00:00' and DateTo eq datetime'"@ + signed_decimal(year + 1) + "-"@ + digits
                + "-01T00:00:00'"@
        }),
{
    lemma_two_digits(month as nat);
}

/// A lookup error says what the address parser said, which street is not known, or which house; and it
/// is seen with the texts that it holds.
pub proof fn law_a_lookup_error_says_what_was_looked_for(error: LookupError, quoted: Seq<char>)
    ensures
        error matches LookupError::Url(message) ==> error@ == LookupErrorView::Url(message@) && error@.message()
            == message@,
        error matches LookupError::NoStreet(street) ==> {
            &&& error@ == LookupErrorView::NoStreet(street@)
            &&& error@.message() == "No BSR street found for: "@ + debug_quoted(street@)
            &&& error@.message_with(quoted) == "No BSR street found for: "@ + quoted
        },
        error matches LookupError::NoAddress(street, number) ==> {
            &&& error@ == LookupErrorView::NoAddress(street@, number@)
            &&& error@.message() == "No BSR address found for: "@ + street@ + " "@ + number@
        },
        error !is NoStreet ==> error@.message_with(quoted) == error@.message(),
{
}

} // verus!
