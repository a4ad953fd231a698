//! The reminder: for which day it is, whether there is one, and what it says.
use vstd::prelude::*;

use crate::date::{day_after, format_date, tomorrow_of, Date, DateView};
use crate::pickup::{
    date_sorted, in_date_order, law_a_pickup_counts_for_its_own_day, law_next_day_is_the_earliest,
    law_sorting_keeps_every_pickup, law_sorting_orders_by_day, law_the_next_day_is_that_of_the_first_pickup_to_come,
    lemma_on_day_add, next_day_with_pickup, next_pickup_day, on_day, pickups_on, sort_by_date, views, Pickup, PickupView,
};
use crate::tables::TextMap;
use crate::text::{occurs_at, occurs_in};

verus! {

/// The line for one pickup in a plain message.
pub open spec fn plain_bin(pickup: PickupView) -> Seq<char> {
    "🗑️ "@ + pickup.label + "\n"@
}

/// The item for one pickup in a formatted message, in the color of its label where it has one.
pub open spec fn html_bin(pickup: PickupView, colors: Map<Seq<char>, Seq<char>>) -> Seq<char> {
    if colors.contains_key(pickup.label) {
        "<li>🗑️ <font data-mx-color=\""@ + colors[pickup.label] + "\"><strong>"@ + pickup.label
            + "</strong></font></li>"@
    } else {
        "<li>🗑️ <strong>"@ + pickup.label + "</strong></li>"@
    }
}

/// The lines for all pickups in a plain message.
pub open spec fn plain_bins(pickups: Seq<PickupView>) -> Seq<char> {
    pickups.map_values(|p: PickupView| plain_bin(p)).flatten()
}

/// The items for all pickups in a formatted message.
pub open spec fn html_bins(pickups: Seq<PickupView>, colors: Map<Seq<char>, Seq<char>>) -> Seq<char> {
    pickups.map_values(|p: PickupView| html_bin(p, colors)).flatten()
}

/// The plain message for the pickups of a day.
pub open spec fn plain_reminder(pickups: Seq<PickupView>, date: DateView) -> Seq<char> {
    "📢 Garbage Collection Reminder\nTomorrow ("@ + date.long_form() + "):\n"@ + plain_bins(pickups)
        + "Please put them out tonight!\nReact with ✅ once it's done."@
}

/// The formatted message for the pickups of a day.
pub open spec fn html_reminder(
    pickups: Seq<PickupView>,
    date: DateView,
    colors: Map<Seq<char>, Seq<char>>,
) -> Seq<char> {
    "<strong>📢 Garbage Collection Reminder</strong><p>Tomorrow <b>"@ + date.long_form() + "</b>:</p><ul>"@
        + html_bins(pickups, colors)
        + "</ul><p>Please put them out <b>tonight</b>!<br>React with ✅ once it's done.</p>"@
}

/// The line for one pickup in a plain message.
fn plain_line(pickup: &Pickup) -> (text: String)
    ensures
        text@ == plain_bin(pickup@),
{
    let mut text = "🗑️ ".to_owned();
    text.append(pickup.label.as_str());
    text.append("\n");
    text
}

/// The item for one pickup in a formatted message.
fn html_item(pickup: &Pickup, colors: &TextMap) -> (text: String)
    ensures
        text@ == html_bin(pickup@, colors@),
{
    match colors.get(pickup.label.as_str()) {
        Some(color) => {
            let mut text = "<li>🗑️ <font data-mx-color=\"".to_owned();
            text.append(color.as_str());
            text.append("\"><strong>");
            text.append(pickup.label.as_str());
            text.append("</strong></font></li>");
            text
        },
        None => {
            let mut text = "<li>🗑️ <strong>".to_owned();
            text.append(pickup.label.as_str());
            text.append("</strong></li>");
            text
        },
    }
}

/// Writes the reminder for the pickups of a day: the plain message, and the formatted one.
pub fn build_reminder(pickups: &[Pickup], pickup_date: &Date, colors: &TextMap) -> (r: (String, String))
    ensures
        r.0@ == plain_reminder(views(pickups@), pickup_date@),
        r.1@ == html_reminder(views(pickups@), pickup_date@, colors@),
{
    let day = format_date(pickup_date, "%A, %d.%m.%Y");
    let ghost all = views(pickups@);
    let ghost lines = all.map_values(|p: PickupView| plain_bin(p));
    let ghost items = all.map_values(|p: PickupView| html_bin(p, colors@));
    let mut plain_text = String::new();
    let mut html_text = String::new();
    let mut i: usize = 0;
    assert(plain_text@ =~= lines.take(0).flatten());
    assert(html_text@ =~= items.take(0).flatten());
    while i < pickups.len()
        invariant
            i <= pickups@.len(),
            all == views(pickups@),
            lines == all.map_values(|p: PickupView| plain_bin(p)),
            items == all.map_values(|p: PickupView| html_bin(p, colors@)),
            plain_text@ == lines.take(i as int).flatten(),
            html_text@ == items.take(i as int).flatten(),
        decreases pickups@.len() - i,
    {
        proof {
            assert(lines.take(i + 1) =~= lines.take(i as int).push(lines[i as int]));
            assert(items.take(i + 1) =~= items.take(i as int).push(items[i as int]));
            lines.take(i as int).lemma_flatten_push(lines[i as int]);
            items.take(i as int).lemma_flatten_push(items[i as int]);
        }
        plain_text.append(plain_line(&pickups[i]).as_str());
        html_text.append(html_item(&pickups[i], colors).as_str());
        i += 1;
    }
    assert(lines.take(i as int) =~= lines);
    assert(items.take(i as int) =~= items);
    let mut plain = "📢 Garbage Collection Reminder\nTomorrow (".to_owned();
    plain.append(day.as_str());
    plain.append("):\n");
    plain.append(plain_text.as_str());
    plain.append("Please put them out tonight!\nReact with ✅ once it's done.");
    let mut html = "<strong>📢 Garbage Collection Reminder</strong><p>Tomorrow <b>".to_owned();
    html.append(day.as_str());
    html.append("</b>:</p><ul>");
    html.append(html_text.as_str());
    html.append("</ul><p>Please put them out <b>tonight</b>!<br>React with ✅ once it's done.</p>");
    (plain, html)
}

/// Why no reminder goes out.
#[derive(Debug)]
pub enum StopReason {
    /// The pickups of the city's service could not be fetched.
    NoData,
    /// There is no pickup from today on.
    NothingUpcoming,
    /// There is no pickup on this day.
    NothingOn(Date),
}

/// Why no reminder goes out, by its day.
pub enum StopReasonView {
    NoData,
    NothingUpcoming,
    NothingOn(DateView),
}

impl View for StopReason {
    type V = StopReasonView;

    open spec fn view(&self) -> StopReasonView {
        match self {
            StopReason::NoData => StopReasonView::NoData,
            StopReason::NothingUpcoming => StopReasonView::NothingUpcoming,
            StopReason::NothingOn(date) => StopReasonView::NothingOn(date@),
        }
    }
}

/// A reminder that goes out to every room.
#[derive(Debug)]
pub struct Announcement {
    /// The day that it is for.
    pub date: Date,
    /// The plain message.
    pub plain: String,
    /// The formatted message.
    pub html: String,
}

/// What to do next on the way to a reminder.
#[derive(Debug)]
pub enum ReminderStep {
    /// No reminder goes out.
    Stop(StopReason),
    /// Fetch the pickups of Berlin Recycling too; these are the ones that are there.
    FetchRecycling(Vec<Pickup>),
    /// Send this to every room.
    Announce(Announcement),
}

/// What to do next on the way to a reminder, by its texts.
pub enum ReminderStepView {
    Stop(StopReasonView),
    FetchRecycling(Seq<PickupView>),
    Announce(DateView, Seq<char>, Seq<char>),
}

impl View for ReminderStep {
    type V = ReminderStepView;

    open spec fn view(&self) -> ReminderStepView {
        match self {
            ReminderStep::Stop(reason) => ReminderStepView::Stop(reason@),
            ReminderStep::FetchRecycling(pickups) => ReminderStepView::FetchRecycling(views(pickups@)),
            ReminderStep::Announce(a) => ReminderStepView::Announce(a.date@, a.plain@, a.html@),
        }
    }
}

/// The day that a reminder is for: tomorrow; in test mode the day of the next pickup, if there is
/// one.
pub open spec fn reminder_day(pickups: Seq<PickupView>, today: DateView, test_mode: bool) -> Option<DateView> {
    if test_mode {
        next_pickup_day(pickups, today)
    } else {
        Some(day_after(today))
    }
}

/// The reminder for the day that it is for, where that day has pickups.
pub open spec fn planned_reminder(
    pickups: Seq<PickupView>,
    today: DateView,
    test_mode: bool,
    colors: Map<Seq<char>, Seq<char>>,
) -> ReminderStepView {
    match reminder_day(pickups, today, test_mode) {
        None => ReminderStepView::Stop(StopReasonView::NothingUpcoming),
        Some(date) => {
            let due = on_day(pickups, date);
            if due.len() == 0 {
                ReminderStepView::Stop(StopReasonView::NothingOn(date))
            } else {
                ReminderStepView::Announce(date, plain_reminder(due, date), html_reminder(due, date, colors))
            }
        },
    }
}

/// Decides which reminder goes out today, if any.
pub fn plan_reminder(pickups: &Vec<Pickup>, today: &Date, test_mode: bool, colors: &TextMap) -> (r: ReminderStep)
    requires
        !today@.is_last(),
    ensures
        r@ == planned_reminder(views(pickups@), today@, test_mode, colors@),
{
    let tomorrow = tomorrow_of(today);
    let date = if test_mode {
        match next_day_with_pickup(pickups, today) {
            Some(date) => date,
            None => {
                return ReminderStep::Stop(StopReason::NothingUpcoming);
            },
        }
    } else {
        tomorrow
    };
    let due = pickups_on(pickups, &date);
    assert(views(due@).len() == due@.len());
    if due.len() == 0 {
        return ReminderStep::Stop(StopReason::NothingOn(date));
    }
    let (plain, html) = build_reminder(due.as_slice(), &date, colors);
    ReminderStep::Announce(Announcement { date, plain, html })
}

/// Outside test mode a reminder goes out exactly when something is picked up on the day after today,
/// and it is for that day.
pub proof fn law_the_reminder_is_for_tomorrow(
    pickups: Seq<PickupView>,
    today: DateView,
    colors: Map<Seq<char>, Seq<char>>,
)
    ensures
        ({
            let step = planned_reminder(pickups, today, false, colors);
            &&& step is Announce <==> exists|i: int|
                0 <= i < pickups.len() && (#[trigger] pickups[i]).date == day_after(today)
            &&& step matches ReminderStepView::Announce(date, _, _) ==> date == day_after(today)
            &&& step !is Announce ==> step == ReminderStepView::Stop(StopReasonView::NothingOn(day_after(today)))
        }),
{
    let date = day_after(today);
    let of_day = |p: PickupView| p.date == date;
    if exists|i: int| 0 <= i < pickups.len() && (#[trigger] pickups[i]).date == date {
        let at = choose|i: int| 0 <= i < pickups.len() && (#[trigger] pickups[i]).date == date;
        pickups.lemma_filter_contains(of_day, at);
    } else {
        pickups.lemma_all_neg_filter_empty(of_day);
    }
}

/// In test mode a reminder goes out exactly when anything is picked up from today on, and with the
/// pickups in the order of their days it is for the first such day.
pub proof fn law_the_test_reminder_is_for_the_next_pickup(
    pickups: Seq<PickupView>,
    today: DateView,
    colors: Map<Seq<char>, Seq<char>>,
)
    requires
        in_date_order(pickups),
    ensures
        ({
            let step = planned_reminder(pickups, today, true, colors);
            &&& step is Announce <==> exists|i: int|
                0 <= i < pickups.len() && !(#[trigger] pickups[i]).date.before(today)
            &&& step matches ReminderStepView::Announce(date, _, _) ==> !date.before(today) && forall|i: int|
                0 <= i < pickups.len() && !(#[trigger] pickups[i]).date.before(today) ==> !pickups[i].date.before(date)
            &&& step !is Announce ==> step == ReminderStepView::Stop(StopReasonView::NothingUpcoming)
        }),
{
    let keep = |p: PickupView| !p.date.before(today);
    if exists|i: int| 0 <= i < pickups.len() && !(#[trigger] pickups[i]).date.before(today) {
        let at = choose|i: int| 0 <= i < pickups.len() && !(#[trigger] pickups[i]).date.before(today);
        pickups.lemma_filter_contains(keep, at);
        law_next_day_is_the_earliest(pickups, today, next_pickup_day(pickups, today)->0);
    } else {
        pickups.lemma_all_neg_filter_empty(keep);
    }
}

/// Each part stands in the parts put together.
proof fn lemma_flatten_holds_each(parts: Seq<Seq<char>>, at: int)
    requires
        0 <= at < parts.len(),
    ensures
        occurs_in(parts.flatten(), parts[at]),
    decreases parts.len(),
{
    let shorter = parts.drop_last();
    assert(parts =~= shorter.push(parts.last()));
    shorter.lemma_flatten_push(parts.last());
    let whole = parts.flatten();
    if at == parts.len() - 1 {
        let start = shorter.flatten().len() as int;
        assert(whole.subrange(start, start + parts[at].len()) =~= parts[at]);
        assert(occurs_at(whole, parts[at], start));
    } else {
        lemma_flatten_holds_each(shorter, at);
        let start = choose|start: int| occurs_at(shorter.flatten(), parts[at], start);
        assert(whole.subrange(start, start + parts[at].len()) =~= shorter.flatten().subrange(
            start,
            start + parts[at].len(),
        ));
        assert(occurs_at(whole, parts[at], start));
    }
}

/// What stands in a text stands in every text around it.
proof fn lemma_occurs_within(before: Seq<char>, text: Seq<char>, after: Seq<char>, part: Seq<char>)
    requires
        occurs_in(text, part),
    ensures
        occurs_in(before + text + after, part),
{
    let at = choose|at: int| occurs_at(text, part, at);
    let start = before.len() + at;
    assert((before + text + after).subrange(start, start + part.len()) =~= text.subrange(at, at + part.len()));
    assert(occurs_at(before + text + after, part, start));
}

/// Both messages of a reminder name every pickup of the day, each in its line or item.
pub proof fn law_the_reminder_names_every_pickup(
    pickups: Seq<PickupView>,
    date: DateView,
    colors: Map<Seq<char>, Seq<char>>,
    at: int,
)
    requires
        0 <= at < pickups.len(),
    ensures
        occurs_in(plain_reminder(pickups, date), plain_bin(pickups[at])),
        occurs_in(html_reminder(pickups, date, colors), html_bin(pickups[at], colors)),
{
    let lines = pickups.map_values(|p: PickupView| plain_bin(p));
    let items = pickups.map_values(|p: PickupView| html_bin(p, colors));
    lemma_flatten_holds_each(lines, at);
    lemma_flatten_holds_each(items, at);
    lemma_occurs_within(
        "📢 Garbage Collection Reminder\nTomorrow ("@ + date.long_form() + "):\n"@,
        plain_bins(pickups),
        "Please put them out tonight!\nReact with ✅ once it's done."@,
        lines[at],
    );
    lemma_occurs_within(
        "<strong>📢 Garbage Collection Reminder</strong><p>Tomorrow <b>"@ + date.long_form() + "</b>:</p><ul>"@,
        html_bins(pickups, colors),
        "</ul><p>Please put them out <b>tonight</b>!<br>React with ✅ once it's done.</p>"@,
        items[at],
    );
}

/// What to do once the city's pickups were fetched, or could not be.
pub open spec fn step_after_bsr(
    fetched: Option<Seq<PickupView>>,
    has_account: bool,
    today: DateView,
    test_mode: bool,
    colors: Map<Seq<char>, Seq<char>>,
) -> ReminderStepView {
    match fetched {
        None => ReminderStepView::Stop(StopReasonView::NoData),
        Some(pickups) => if has_account {
            ReminderStepView::FetchRecycling(pickups)
        } else {
            planned_reminder(pickups, today, test_mode, colors)
        },
    }
}

/// The pickups to go on with, once those of Berlin Recycling were fetched, or could not be.
pub open spec fn merged_pickups(pickups: Seq<PickupView>, fetched: Option<Seq<PickupView>>) -> Seq<PickupView> {
    match fetched {
        None => pickups,
        Some(more) => date_sorted(pickups + more),
    }
}

/// Pickups of Berlin Recycling that could be fetched go among the city's: every pickup of either is
/// kept, on each day the city's come first, and the days are in order. Without them the city's stay
/// as they are.
pub proof fn law_merging_keeps_both(pickups: Seq<PickupView>, more: Seq<PickupView>)
    ensures
        merged_pickups(pickups, None) == pickups,
        in_date_order(merged_pickups(pickups, Some(more))),
        merged_pickups(pickups, Some(more)).to_multiset() == pickups.to_multiset().add(more.to_multiset()),
        forall|date: DateView| #[trigger] on_day(merged_pickups(pickups, Some(more)), date) == on_day(pickups, date)
            + on_day(more, date),
{
    law_sorting_orders_by_day(pickups + more);
    law_sorting_keeps_every_pickup(pickups + more);
    vstd::seq_lib::lemma_multiset_commutative(pickups, more);
    assert forall|date: DateView| #[trigger] on_day(merged_pickups(pickups, Some(more)), date) == on_day(pickups, date)
        + on_day(more, date) by {
        lemma_on_day_add(pickups, more, date);
    }
}

/// The pickups that were fetched, if any were.
pub open spec fn fetched_views(fetched: Option<Vec<Pickup>>) -> Option<Seq<PickupView>> {
    match fetched {
        None => None,
        Some(pickups) => Some(views(pickups@)),
    }
}

/// Decides how to go on once the city's pickups were fetched, or could not be.
pub fn after_bsr(
    fetched: Option<Vec<Pickup>>,
    has_account: bool,
    today: &Date,
    test_mode: bool,
    colors: &TextMap,
) -> (r: ReminderStep)
    requires
        fetched is Some && !has_account ==> !today@.is_last(),
    ensures
        r@ == step_after_bsr(fetched_views(fetched), has_account, today@, test_mode, colors@),
{
    match fetched {
        None => ReminderStep::Stop(StopReason::NoData),
        Some(pickups) => if has_account {
            ReminderStep::FetchRecycling(pickups)
        } else {
            plan_reminder(&pickups, today, test_mode, colors)
        },
    }
}

/// Decides how to go on once the pickups of Berlin Recycling were fetched, or could not be. Without
/// them the reminder is about the city's pickups alone.
pub fn after_recycling(
    pickups: Vec<Pickup>,
    fetched: Option<Vec<Pickup>>,
    today: &Date,
    test_mode: bool,
    colors: &TextMap,
) -> (r: ReminderStep)
    requires
        !today@.is_last(),
    ensures
        r@ == planned_reminder(
            merged_pickups(views(pickups@), fetched_views(fetched)),
            today@,
            test_mode,
            colors@,
        ),
{
    let merged = match fetched {
        None => pickups,
        Some(more) => {
            let mut all = pickups;
            let mut more = more;
            let ghost first = views(all@);
            let ghost second = views(more@);
            all.append(&mut more);
            assert(views(all@) =~= first + second);
            sort_by_date(all)
        },
    };
    plan_reminder(&merged, today, test_mode, colors)
}

/// Both messages of a reminder that goes out are about the pickups of its day, all of them and no
/// others, in the order of the list: each has one line, or one item, for each of these.
pub proof fn law_the_messages_are_about_the_day(
    pickups: Seq<PickupView>,
    today: DateView,
    test_mode: bool,
    colors: Map<Seq<char>, Seq<char>>,
)
    ensures
        planned_reminder(pickups, today, test_mode, colors) matches ReminderStepView::Announce(date, plain, html) ==> {
            let due = pickups.filter(|p: PickupView| p.date == date);
            &&& due.len() > 0
            &&& plain == "📢 Garbage Collection Reminder\nTomorrow ("@ + date.long_form() + "):\n"@ + due.map_values(
                |p: PickupView| "🗑️ "@ + p.label + "\n"@,
            ).flatten() + "Please put them out tonight!\nReact with ✅ once it's done."@
            &&& html == "<strong>📢 Garbage Collection Reminder</strong><p>Tomorrow <b>"@ + date.long_form()
                + "</b>:</p><ul>"@ + due.map_values(
                |p: PickupView|
                    if colors.contains_key(p.label) {
                        "<li>🗑️ <font data-mx-color=\""@ + colors[p.label] + "\"><strong>"@ + p.label
                            + "</strong></font></li>"@
                    } else {
                        "<li>🗑️ <strong>"@ + p.label + "</strong></li>"@
                    },
            ).flatten() + "</ul><p>Please put them out <b>tonight</b>!<br>React with ✅ once it's done.</p>"@
        },
{
    if let ReminderStepView::Announce(date, plain, html) = planned_reminder(pickups, today, test_mode, colors) {
        let due = pickups.filter(|p: PickupView| p.date == date);
        assert(due == on_day(pickups, date));
        assert(due.map_values(|p: PickupView| plain_bin(p)) =~= due.map_values(
            |p: PickupView| "🗑️ "@ + p.label + "\n"@,
        ));
        assert(due.map_values(|p: PickupView| html_bin(p, colors)) =~= due.map_values(
            |p: PickupView|
                if colors.contains_key(p.label) {
                    "<li>🗑️ <font data-mx-color=\""@ + colors[p.label] + "\"><strong>"@ + p.label
                        + "</strong></font></li>"@
                } else {
                    "<li>🗑️ <strong>"@ + p.label + "</strong></li>"@
                },
        ));
    }
}

/// Pickups of other days make no difference to a reminder: one that goes out says the same as the
/// one that goes out where there are no others.
pub proof fn law_other_days_make_no_difference(
    pickups: Seq<PickupView>,
    today: DateView,
    colors: Map<Seq<char>, Seq<char>>,
)
    ensures
        planned_reminder(pickups, today, false, colors) == planned_reminder(
            on_day(pickups, day_after(today)),
            today,
            false,
            colors,
        ),
{
    lemma_filtered_twice(pickups, day_after(today));
}

/// The pickups of a day among those of the day are all of them.
proof fn lemma_filtered_twice(pickups: Seq<PickupView>, date: DateView)
    ensures
        on_day(on_day(pickups, date), date) == on_day(pickups, date),
    decreases pickups.len(),
{
    if pickups.len() == 0 {
        law_a_pickup_counts_for_its_own_day(pickups, PickupView { date, label: Seq::empty() }, date);
        assert(pickups =~= Seq::<PickupView>::empty());
    } else {
        let shorter = pickups.drop_last();
        let last = pickups.last();
        lemma_filtered_twice(shorter, date);
        assert(pickups =~= shorter.push(last));
        law_a_pickup_counts_for_its_own_day(shorter, last, date);
        law_a_pickup_counts_for_its_own_day(on_day(shorter, date), last, date);
    }
}

/// One more pickup adds its line behind those of the others in the plain message, and its item in the
/// formatted one, in its color where it has one; without pickups there are none.
pub proof fn law_one_more_pickup_adds_its_line(
    pickups: Seq<PickupView>,
    more: PickupView,
    colors: Map<Seq<char>, Seq<char>>,
)
    ensures
        plain_bins(Seq::empty()) == Seq::<char>::empty(),
        html_bins(Seq::empty(), colors) == Seq::<char>::empty(),
        plain_bins(pickups.push(more)) == plain_bins(pickups) + ("🗑️ "@ + more.label + "\n"@),
        colors.contains_key(more.label) ==> html_bins(pickups.push(more), colors) == html_bins(pickups, colors) + (
        "<li>🗑️ <font data-mx-color=\""@ + colors[more.label] + "\"><strong>"@ + more.label
            + "</strong></font></li>"@),
        !colors.contains_key(more.label) ==> html_bins(pickups.push(more), colors) == html_bins(pickups, colors) + (
        "<li>🗑️ <strong>"@ + more.label + "</strong></li>"@),
{
    let lines = pickups.map_values(|p: PickupView| plain_bin(p));
    let items = pickups.map_values(|p: PickupView| html_bin(p, colors));
    let none = Seq::<PickupView>::empty();
    assert(none.map_values(|p: PickupView| plain_bin(p)).flatten() =~= Seq::<char>::empty());
    assert(none.map_values(|p: PickupView| html_bin(p, colors)).flatten() =~= Seq::<char>::empty());
    assert(pickups.push(more).map_values(|p: PickupView| plain_bin(p)) =~= lines.push(plain_bin(more)));
    assert(pickups.push(more).map_values(|p: PickupView| html_bin(p, colors)) =~= items.push(html_bin(more, colors)));
    lines.lemma_flatten_push(plain_bin(more));
    items.lemma_flatten_push(html_bin(more, colors));
}

/// The messages put the day before, and the call to act behind, what they list.
pub proof fn law_the_messages_frame_their_lists(
    pickups: Seq<PickupView>,
    date: DateView,
    colors: Map<Seq<char>, Seq<char>>,
)
    ensures
        plain_reminder(pickups, date) == "📢 Garbage Collection Reminder\nTomorrow ("@ + date.long_form() + "):\n"@
            + plain_bins(pickups) + "Please put them out tonight!\nReact with ✅ once it's done."@,
        html_reminder(pickups, date, colors) == "<strong>📢 Garbage Collection Reminder</strong><p>Tomorrow <b>"@
            + date.long_form() + "</b>:</p><ul>"@ + html_bins(pickups, colors)
            + "</ul><p>Please put them out <b>tonight</b>!<br>React with ✅ once it's done.</p>"@,
{
}

/// Without the city's pickups nothing goes out; with an account the others are fetched first, and the
/// city's are kept for them; without one the reminder is about the city's.
pub proof fn law_the_city_is_asked_first(
    pickups: Seq<PickupView>,
    today: DateView,
    test_mode: bool,
    colors: Map<Seq<char>, Seq<char>>,
)
    ensures
        forall|has_account: bool|
            #[trigger] step_after_bsr(None, has_account, today, test_mode, colors) == ReminderStepView::Stop(
                StopReasonView::NoData,
            ),
        step_after_bsr(Some(pickups), true, today, test_mode, colors) == ReminderStepView::FetchRecycling(pickups),
        step_after_bsr(Some(pickups), false, today, test_mode, colors) == planned_reminder(
            pickups,
            today,
            test_mode,
            colors,
        ),
{
}

/// What was fetched is seen as it is.
pub proof fn law_fetched_pickups_are_seen_as_they_are(fetched: Option<Vec<Pickup>>)
    ensures
        fetched_views(fetched) is Some <==> fetched is Some,
        fetched matches Some(pickups) ==> fetched_views(fetched) == Some(views(pickups@)),
{
}

/// A step on the way to a reminder is seen as it is, with its day, its pickups and its messages.
pub proof fn law_a_step_is_seen_as_it_is(step: ReminderStep)
    ensures
        step matches ReminderStep::Stop(StopReason::NoData) ==> step@ == ReminderStepView::Stop(StopReasonView::NoData),
        step matches ReminderStep::Stop(StopReason::NothingUpcoming) ==> step@ == ReminderStepView::Stop(
            StopReasonView::NothingUpcoming,
        ),
        step matches ReminderStep::Stop(StopReason::NothingOn(date)) ==> step@ == ReminderStepView::Stop(
            StopReasonView::NothingOn(date@),
        ),
        step matches ReminderStep::FetchRecycling(pickups) ==> step@ == ReminderStepView::FetchRecycling(
            views(pickups@),
        ),
        step matches ReminderStep::Announce(announcement) ==> step@ == ReminderStepView::Announce(
            announcement.date@,
            announcement.plain@,
            announcement.html@,
        ),
{
}

/// In test mode, whatever order the pickups are in, a reminder goes out for the day of the first of them
/// that is not before today; none goes out where every one is before today.
pub proof fn law_the_test_reminder_is_for_the_first_pickup_to_come(
    pickups: Seq<PickupView>,
    today: DateView,
    colors: Map<Seq<char>, Seq<char>>,
    at: int,
)
    ensures
        0 <= at < pickups.len() && !pickups[at].date.before(today) && (forall|i: int|
            0 <= i < at ==> (#[trigger] pickups[i]).date.before(today)) ==> (planned_reminder(
            pickups,
            today,
            true,
            colors,
        ) matches ReminderStepView::Announce(date, _, _) && date == pickups[at].date),
        (forall|i: int| 0 <= i < pickups.len() ==> (#[trigger] pickups[i]).date.before(today)) ==> planned_reminder(
            pickups,
            today,
            true,
            colors,
        ) == ReminderStepView::Stop(StopReasonView::NothingUpcoming),
{
    law_the_next_day_is_that_of_the_first_pickup_to_come(pickups, today);
    if 0 <= at < pickups.len() {
        let date = pickups[at].date;
        pickups.lemma_filter_contains(|p: PickupView| p.date == date, at);
        assert(on_day(pickups, date).len() > 0);
    }
}

} // verus!
