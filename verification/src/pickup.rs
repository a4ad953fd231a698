//! Pickups: what is collected on which day, in the order of the days.
use vstd::prelude::*;

use crate::date::{law_days_are_ordered_by_year_month_and_day, Date, DateView};

verus! {

/// One kind of waste that is collected on one day.
#[derive(Debug)]
pub struct Pickup {
    pub date: Date,
    pub label: String,
}

/// A pickup, by its day and the text of its label.
#[verifier::ext_equal]
pub struct PickupView {
    pub date: DateView,
    pub label: Seq<char>,
}

impl View for Pickup {
    type V = PickupView;

    open spec fn view(&self) -> PickupView {
        PickupView { date: self.date@, label: self.label@ }
    }
}

impl Clone for Pickup {
    fn clone(&self) -> (r: Self)
        ensures
            r@ == self@,
    {
        Pickup { date: self.date, label: self.label.clone() }
    }
}

/// The pickups of a list.
pub open spec fn views(pickups: Seq<Pickup>) -> Seq<PickupView> {
    pickups.map_values(|p: Pickup| p@)
}

/// The pickups of one day, in the order of the list.
pub open spec fn on_day(pickups: Seq<PickupView>, date: DateView) -> Seq<PickupView> {
    pickups.filter(|p: PickupView| p.date == date)
}

/// The pickups that are not over yet, in the order of the list.
pub open spec fn not_before(pickups: Seq<PickupView>, today: DateView) -> Seq<PickupView> {
    pickups.filter(|p: PickupView| !p.date.before(today))
}

/// The day of the first pickup in the list that is not over yet.
pub open spec fn next_pickup_day(pickups: Seq<PickupView>, today: DateView) -> Option<DateView> {
    if not_before(pickups, today).len() == 0 {
        None
    } else {
        Some(not_before(pickups, today)[0].date)
    }
}

/// Whether no pickup stands behind one of a later day.
pub open spec fn in_date_order(pickups: Seq<PickupView>) -> bool {
    forall|i: int, j: int|
        0 <= i <= j < pickups.len() ==> !(#[trigger] pickups[j]).date.before((#[trigger] pickups[i]).date)
}

/// Whether `sorted` holds the pickups of `pickups` in the order of their days, where those of one
/// day keep the order that they had.
pub open spec fn is_date_sort(pickups: Seq<PickupView>, sorted: Seq<PickupView>) -> bool {
    &&& in_date_order(sorted)
    &&& forall|date: DateView| #[trigger] on_day(sorted, date) == on_day(pickups, date)
}

/// The pickups in the order of their days; those of one day keep the order that they had.
pub open spec fn date_sorted(pickups: Seq<PickupView>) -> Seq<PickupView> {
    choose|sorted: Seq<PickupView>| is_date_sort(pickups, sorted)
}

/// The pickups of one day in a list that is put together from two.
pub(crate) proof fn lemma_on_day_add(a: Seq<PickupView>, b: Seq<PickupView>, date: DateView)
    ensures
        on_day(a + b, date) == on_day(a, date) + on_day(b, date),
{
    Seq::filter_distributes_over_add(a, b, |p: PickupView| p.date == date);
}

/// The pickups of one day in a list of one pickup.
proof fn lemma_on_day_one(p: PickupView, date: DateView)
    ensures
        on_day(seq![p], date) == if p.date == date { seq![p] } else { Seq::<PickupView>::empty() },
{
    let keep = |q: PickupView| q.date == date;
    assert(seq![p] =~= Seq::<PickupView>::empty().push(p));
    Seq::<PickupView>::empty().lemma_filter_push(p, keep);
    assert(Seq::<PickupView>::empty().filter(keep) =~= Seq::<PickupView>::empty());
}

/// A list without a pickup of a day has no pickups of that day.
proof fn lemma_on_day_none(pickups: Seq<PickupView>, date: DateView)
    requires
        forall|i: int| 0 <= i < pickups.len() ==> (#[trigger] pickups[i]).date != date,
    ensures
        on_day(pickups, date) == Seq::<PickupView>::empty(),
{
    let keep = |p: PickupView| p.date == date;
    pickups.lemma_all_neg_filter_empty(keep);
    assert(on_day(pickups, date) =~= Seq::<PickupView>::empty());
}

/// What stands among the pickups of a day stands in the list, and is of that day.
proof fn lemma_on_day_from(pickups: Seq<PickupView>, date: DateView, i: int)
    requires
        0 <= i < on_day(pickups, date).len(),
    ensures
        on_day(pickups, date)[i].date == date,
        pickups.contains(on_day(pickups, date)[i]),
{
    let keep = |p: PickupView| p.date == date;
    pickups.lemma_filter_pred(keep, i);
    pickups.lemma_filter_contains_rev(keep, on_day(pickups, date)[i]);
}

/// The last pickup of a list is the last among those of its day.
proof fn lemma_on_day_last(pickups: Seq<PickupView>, date: DateView)
    requires
        pickups.len() > 0,
    ensures
        on_day(pickups, date) == if pickups.last().date == date {
            on_day(pickups.drop_last(), date).push(pickups.last())
        } else {
            on_day(pickups.drop_last(), date)
        },
{
    let keep = |p: PickupView| p.date == date;
    assert(pickups =~= pickups.drop_last().push(pickups.last()));
    pickups.drop_last().lemma_filter_push(pickups.last(), keep);
}

/// A list has one order by days only.
proof fn lemma_one_sort(pickups: Seq<PickupView>, a: Seq<PickupView>, b: Seq<PickupView>)
    requires
        is_date_sort(pickups, a),
        is_date_sort(pickups, b),
    ensures
        a == b,
    decreases a.len(),
{
    if a.len() == 0 {
        if b.len() > 0 {
            lemma_on_day_last(b, b.last().date);
            assert(on_day(a, b.last().date) == on_day(b, b.last().date));
            lemma_on_day_none(a, b.last().date);
            assert(false);
        }
        assert(a =~= b);
    } else {
        let date = a.last().date;
        lemma_on_day_last(a, date);
        assert(on_day(a, date) == on_day(b, date));
        lemma_on_day_from(b, date, on_day(b, date).len() - 1);
        assert(b.len() > 0);
        let at = choose|i: int| 0 <= i < b.len() && b[i] == on_day(b, date).last();
        let other = b.last().date;
        assert(!b[b.len() - 1].date.before(b[at].date));
        lemma_on_day_last(b, other);
        assert(on_day(a, other) == on_day(b, other));
        lemma_on_day_from(a, other, on_day(a, other).len() - 1);
        let back = choose|i: int| 0 <= i < a.len() && a[i] == on_day(a, other).last();
        assert(!a[a.len() - 1].date.before(a[back].date));
        assert(date == other);
        assert(a.last() == b.last());
        let shorter = a.drop_last();
        assert forall|d: DateView| #[trigger] on_day(b.drop_last(), d) == on_day(shorter, d) by {
            lemma_on_day_last(a, d);
            lemma_on_day_last(b, d);
            assert(on_day(a, d) == on_day(b, d));
            if d == date {
                assert(on_day(shorter, d) =~= on_day(a, d).drop_last());
                assert(on_day(b.drop_last(), d) =~= on_day(b, d).drop_last());
            }
        }
        lemma_one_sort(shorter, shorter, b.drop_last());
        assert(a =~= shorter.push(a.last()));
        assert(b =~= b.drop_last().push(b.last()));
    }
}

/// A list that is in the order of its days, and has on each day the pickups of another list, is
/// that list sorted: there is no second order that would do.
pub proof fn law_date_sort_is_unique(pickups: Seq<PickupView>, sorted: Seq<PickupView>)
    requires
        is_date_sort(pickups, sorted),
    ensures
        date_sorted(pickups) == sorted,
{
    lemma_one_sort(pickups, date_sorted(pickups), sorted);
}

/// A pickup stands in a list as often as among the pickups of its day.
proof fn lemma_count_on_day(pickups: Seq<PickupView>, p: PickupView)
    ensures
        pickups.to_multiset().count(p) == on_day(pickups, p.date).to_multiset().count(p),
    decreases pickups.len(),
{
    broadcast use vstd::seq_lib::group_to_multiset_ensures;

    if pickups.len() == 0 {
        assert(on_day(pickups, p.date) =~= pickups);
    } else {
        let shorter = pickups.drop_last();
        lemma_count_on_day(shorter, p);
        lemma_on_day_last(pickups, p.date);
        assert(pickups =~= shorter.push(pickups.last()));
    }
}

/// A pickup that goes into a sorted list before all that are not of an earlier day leaves the list
/// sorted, as if the pickup had stood at the start of what was sorted.
proof fn lemma_insert_keeps_sort(rest: Seq<PickupView>, sorted: Seq<PickupView>, p: PickupView, at: int)
    requires
        is_date_sort(rest, sorted),
        0 <= at <= sorted.len(),
        forall|i: int| 0 <= i < at ==> (#[trigger] sorted[i]).date.before(p.date),
        forall|i: int| at <= i < sorted.len() ==> !(#[trigger] sorted[i]).date.before(p.date),
    ensures
        is_date_sort(seq![p] + rest, sorted.insert(at, p)),
{
    let now = sorted.insert(at, p);
    let more = seq![p] + rest;
    let front = sorted.take(at);
    let back = sorted.skip(at);
    assert(sorted =~= front + back);
    assert(now =~= front + seq![p] + back);
    assert forall|date: DateView| #[trigger] on_day(now, date) == on_day(more, date) by {
        lemma_on_day_add(front, back, date);
        lemma_on_day_add(front + seq![p], back, date);
        lemma_on_day_add(front, seq![p], date);
        lemma_on_day_add(seq![p], rest, date);
        lemma_on_day_one(p, date);
        assert(on_day(sorted, date) == on_day(rest, date));
        if p.date == date {
            assert forall|i: int| 0 <= i < front.len() implies (#[trigger] front[i]).date != date by {
                assert(sorted[i].date.before(p.date));
            }
            lemma_on_day_none(front, date);
        }
        assert(on_day(now, date) =~= on_day(more, date));
    }
    assert forall|i: int, j: int| 0 <= i <= j < now.len() implies !(#[trigger] now[j]).date.before(
        (#[trigger] now[i]).date,
    ) by {
        let old_i = if i <= at { i } else { i - 1 };
        let old_j = if j <= at { j } else { j - 1 };
        if i < at {
            assert(sorted[i].date.before(p.date));
        }
        if j > at {
            assert(!sorted[j - 1].date.before(p.date));
        }
        if i != at && j != at {
            assert(!sorted[old_j].date.before(sorted[old_i].date));
        }
    }
}

/// In a list that is in the order of its days there is a place between the pickups before a day and
/// the others.
proof fn lemma_place_exists(sorted: Seq<PickupView>, date: DateView) -> (at: int)
    requires
        in_date_order(sorted),
    ensures
        0 <= at <= sorted.len(),
        forall|i: int| 0 <= i < at ==> (#[trigger] sorted[i]).date.before(date),
        forall|i: int| at <= i < sorted.len() ==> !(#[trigger] sorted[i]).date.before(date),
    decreases sorted.len(),
{
    if sorted.len() == 0 {
        0
    } else if sorted.last().date.before(date) {
        assert forall|i: int| 0 <= i < sorted.len() implies (#[trigger] sorted[i]).date.before(date) by {
            assert(!sorted[sorted.len() - 1].date.before(sorted[i].date));
        }
        sorted.len() as int
    } else {
        let shorter = sorted.drop_last();
        assert forall|i: int, j: int| 0 <= i <= j < shorter.len() implies !(#[trigger] shorter[j]).date.before(
            (#[trigger] shorter[i]).date,
        ) by {
            assert(!sorted[j].date.before(sorted[i].date));
        }
        let at = lemma_place_exists(shorter, date);
        assert forall|i: int| 0 <= i < at implies (#[trigger] sorted[i]).date.before(date) by {
            assert(shorter[i].date.before(date));
        }
        assert forall|i: int| at <= i < sorted.len() implies !(#[trigger] sorted[i]).date.before(date) by {
            if i < shorter.len() {
                assert(!shorter[i].date.before(date));
            }
        }
        at
    }
}

/// Every list can be sorted: sorting gives the order of the days, and leaves the pickups of each day
/// in the order that they had.
pub proof fn law_sorting_orders_by_day(pickups: Seq<PickupView>)
    ensures
        is_date_sort(pickups, date_sorted(pickups)),
    decreases pickups.len(),
{
    if pickups.len() == 0 {
        assert(is_date_sort(pickups, pickups));
    } else {
        let rest = pickups.skip(1);
        law_sorting_orders_by_day(rest);
        let at = lemma_place_exists(date_sorted(rest), pickups[0].date);
        lemma_insert_keeps_sort(rest, date_sorted(rest), pickups[0], at);
        assert(seq![pickups[0]] + rest =~= pickups);
    }
}

/// Sorting loses no pickup and adds none.
pub proof fn law_sorting_keeps_every_pickup(pickups: Seq<PickupView>)
    ensures
        date_sorted(pickups).to_multiset() == pickups.to_multiset(),
        date_sorted(pickups).len() == pickups.len(),
{
    broadcast use vstd::seq_lib::group_to_multiset_ensures;

    let sorted = date_sorted(pickups);
    law_sorting_orders_by_day(pickups);
    assert forall|p: PickupView| sorted.to_multiset().count(p) == pickups.to_multiset().count(p) by {
        lemma_count_on_day(pickups, p);
        lemma_count_on_day(sorted, p);
        assert(on_day(sorted, p.date) == on_day(pickups, p.date));
    }
    assert(sorted.to_multiset() =~= pickups.to_multiset());
    assert(sorted.to_multiset().len() == sorted.len());
    assert(pickups.to_multiset().len() == pickups.len());
}

/// Where `p` goes into a list that is in the order of its days: before the pickups of its day.
fn place_of(p: &Pickup, sorted: &Vec<Pickup>) -> (at: usize)
    requires
        in_date_order(views(sorted@)),
    ensures
        at <= sorted@.len(),
        forall|i: int| 0 <= i < at ==> (#[trigger] views(sorted@)[i]).date.before(p@.date),
        forall|i: int| at <= i < sorted@.len() ==> !(#[trigger] views(sorted@)[i]).date.before(p@.date),
{
    let mut at: usize = 0;
    while at < sorted.len()
        invariant
            in_date_order(views(sorted@)),
            at <= sorted@.len(),
            forall|i: int| 0 <= i < at ==> (#[trigger] views(sorted@)[i]).date.before(p@.date),
        decreases sorted@.len() - at,
    {
        if !sorted[at].date.is_before(&p.date) {
            assert forall|i: int| at <= i < sorted@.len() implies !(#[trigger] views(
                sorted@,
            )[i]).date.before(p@.date) by {
                assert(!views(sorted@)[i].date.before(views(sorted@)[at as int].date));
            }
            return at;
        }
        at += 1;
    }
    at
}

/// Puts the pickups in the order of their days; those of one day keep their order.
pub fn sort_by_date(pickups: Vec<Pickup>) -> (sorted: Vec<Pickup>)
    ensures
        is_date_sort(views(pickups@), views(sorted@)),
        views(sorted@) == date_sorted(views(pickups@)),
{
    let ghost all = views(pickups@);
    let mut left = pickups;
    let mut sorted: Vec<Pickup> = Vec::new();
    assert(all.skip(left@.len() as int) =~= views(sorted@));
    while left.len() > 0
        invariant
            left@.len() <= all.len(),
            views(left@) == all.take(left@.len() as int),
            is_date_sort(all.skip(left@.len() as int), views(sorted@)),
        decreases left@.len(),
    {
        let ghost done = all.skip(left@.len() as int);
        let ghost before = views(sorted@);
        let ghost whole = left@;
        match left.pop() {
            None => {},
            Some(p) => {
                let at = place_of(&p, &sorted);
                sorted.insert(at, p);
                proof {
                    assert(p@ == views(whole)[whole.len() - 1]);
                    assert(views(left@) =~= all.take(left@.len() as int));
                    lemma_insert_keeps_sort(done, before, p@, at as int);
                    assert(views(sorted@) =~= before.insert(at as int, p@));
                    assert(all.skip(left@.len() as int) =~= seq![p@] + done);
                }
            },
        }
    }
    proof {
        assert(all.skip(0) =~= all);
        law_date_sort_is_unique(all, views(sorted@));
    }
    sorted
}

/// The pickups of one day, in the order of the list.
pub fn pickups_on(pickups: &Vec<Pickup>, date: &Date) -> (r: Vec<Pickup>)
    ensures
        views(r@) == on_day(views(pickups@), date@),
{
    let ghost all = views(pickups@);
    let mut r: Vec<Pickup> = Vec::new();
    let mut i: usize = 0;
    assert(views(r@) =~= on_day(all.take(0), date@));
    while i < pickups.len()
        invariant
            all == views(pickups@),
            i <= pickups@.len(),
            views(r@) == on_day(all.take(i as int), date@),
        decreases pickups@.len() - i,
    {
        let ghost before = views(r@);
        proof {
            lemma_on_day_last(all.take(i + 1), date@);
            assert(all.take(i + 1).drop_last() =~= all.take(i as int));
        }
        if pickups[i].date.is_same(date) {
            r.push(pickups[i].clone());
            assert(views(r@) =~= before.push(all[i as int]));
        }
        i += 1;
    }
    assert(all.take(i as int) =~= all);
    r
}

/// The day of the first pickup in the list that is not over yet.
pub fn next_day_with_pickup(pickups: &Vec<Pickup>, today: &Date) -> (r: Option<Date>)
    ensures
        r is Some <==> next_pickup_day(views(pickups@), today@) is Some,
        r matches Some(date) ==> next_pickup_day(views(pickups@), today@) == Some(date@),
{
    let ghost all = views(pickups@);
    let ghost keep = |p: PickupView| !p.date.before(today@);
    let mut i: usize = 0;
    while i < pickups.len()
        invariant
            all == views(pickups@),
            keep == (|p: PickupView| !p.date.before(today@)),
            i <= pickups@.len(),
            forall|j: int| 0 <= j < i ==> (#[trigger] all[j]).date.before(today@),
        decreases pickups@.len() - i,
    {
        if !pickups[i].date.is_before(today) {
            proof {
                let front = all.take(i as int);
                let back = all.skip(i as int);
                assert(all =~= front + back);
                Seq::filter_distributes_over_add(front, back, keep);
                assert forall|j: int| 0 <= j < front.len() implies !keep(#[trigger] front[j]) by {
                    assert(all[j].date.before(today@));
                }
                front.lemma_all_neg_filter_empty(keep);
                assert(back =~= seq![all[i as int]] + back.skip(1));
                Seq::filter_distributes_over_add(seq![all[i as int]], back.skip(1), keep);
                assert(seq![all[i as int]] =~= Seq::<PickupView>::empty().push(all[i as int]));
                Seq::<PickupView>::empty().lemma_filter_push(all[i as int], keep);
                assert(not_before(all, today@)[0] == all[i as int]);
            }
            return Some(pickups[i].date);
        }
        i += 1;
    }
    proof {
        all.lemma_all_neg_filter_empty(keep);
    }
    None
}

/// In a list that is in the order of its days, the day of the next pickup is not over, has a
/// pickup, and comes before every other such day.
pub proof fn law_next_day_is_the_earliest(pickups: Seq<PickupView>, today: DateView, date: DateView)
    requires
        in_date_order(pickups),
        next_pickup_day(pickups, today) == Some(date),
    ensures
        !date.before(today),
        on_day(pickups, date).len() > 0,
        forall|i: int|
            0 <= i < pickups.len() && !(#[trigger] pickups[i]).date.before(today) ==> !pickups[i].date.before(date),
{
    let keep = |p: PickupView| !p.date.before(today);
    let upcoming = not_before(pickups, today);
    pickups.lemma_filter_pred(keep, 0);
    lemma_first_kept(pickups, today);
    let at = choose|i: int|
        0 <= i < pickups.len() && pickups[i] == upcoming[0] && forall|j: int|
            0 <= j < i ==> (#[trigger] pickups[j]).date.before(today);
    let of_day = |p: PickupView| p.date == date;
    pickups.lemma_filter_contains(of_day, at);
    assert forall|i: int| 0 <= i < pickups.len() && !(#[trigger] pickups[i]).date.before(
        today,
    ) implies !pickups[i].date.before(date) by {
        assert(at <= i);
        assert(!pickups[i].date.before(pickups[at].date));
    }
}

/// The first pickup that is not over stands behind none but such as are over.
proof fn lemma_first_kept(pickups: Seq<PickupView>, today: DateView)
    requires
        not_before(pickups, today).len() > 0,
    ensures
        exists|i: int|
            0 <= i < pickups.len() && pickups[i] == not_before(pickups, today)[0] && forall|j: int|
                0 <= j < i ==> (#[trigger] pickups[j]).date.before(today),
    decreases pickups.len(),
{
    let keep = |p: PickupView| !p.date.before(today);
    let shorter = pickups.drop_last();
    assert(pickups.len() > 0);
    assert(pickups =~= shorter.push(pickups.last()));
    shorter.lemma_filter_push(pickups.last(), keep);
    if not_before(shorter, today).len() > 0 {
        lemma_first_kept(shorter, today);
        let at = choose|i: int|
            0 <= i < shorter.len() && shorter[i] == not_before(shorter, today)[0] && forall|j: int|
                0 <= j < i ==> (#[trigger] shorter[j]).date.before(today);
        assert(pickups[at] == not_before(pickups, today)[0]);
        assert forall|j: int| 0 <= j < at implies (#[trigger] pickups[j]).date.before(today) by {
            assert(shorter[j].date.before(today));
        }
    } else {
        let at = pickups.len() - 1;
        assert(pickups[at] == not_before(pickups, today)[0]);
        assert forall|j: int| 0 <= j < at implies (#[trigger] pickups[j]).date.before(today) by {
            if keep(shorter[j]) {
                shorter.lemma_filter_contains(keep, j);
            }
        }
    }
}

/// The pickups of a list are those of the list, one for one, each with its day and its label.
pub proof fn law_pickups_are_seen_as_they_are(pickups: Seq<Pickup>)
    ensures
        views(pickups).len() == pickups.len(),
        forall|i: int|
            0 <= i < pickups.len() ==> (#[trigger] views(pickups)[i]).date == pickups[i].date@ && views(
                pickups,
            )[i].label == pickups[i].label@,
{
}

/// No pickups have none of a day. One more pickup at the end of a list is one more, at the end, of its
/// own day, and makes no difference to other days.
pub proof fn law_a_pickup_counts_for_its_own_day(pickups: Seq<PickupView>, more: PickupView, date: DateView)
    ensures
        on_day(Seq::<PickupView>::empty(), date) == Seq::<PickupView>::empty(),
        more.date == date ==> on_day(pickups.push(more), date) == on_day(pickups, date).push(more),
        more.date != date ==> on_day(pickups.push(more), date) == on_day(pickups, date),
{
    lemma_on_day_none(Seq::<PickupView>::empty(), date);
    lemma_on_day_last(pickups.push(more), date);
    assert(pickups.push(more).drop_last() =~= pickups);
}

/// A sorted list has its days in the order of year, month and day, and as many pickups as the list
/// that was sorted.
pub proof fn law_a_sorted_list_goes_from_day_to_day(pickups: Seq<PickupView>)
    requires
        forall|i: int| 0 <= i < pickups.len() ==> (#[trigger] pickups[i]).date.valid(),
    ensures
        date_sorted(pickups).len() == pickups.len(),
        forall|i: int, j: int|
            0 <= i <= j < pickups.len() ==> {
                let a = (#[trigger] date_sorted(pickups)[i]).date;
                let b = (#[trigger] date_sorted(pickups)[j]).date;
                a.year * 512 + a.month * 32 + a.day <= b.year * 512 + b.month * 32 + b.day
            },
{
    broadcast use vstd::seq_lib::group_to_multiset_ensures;

    let sorted = date_sorted(pickups);
    law_sorting_orders_by_day(pickups);
    law_sorting_keeps_every_pickup(pickups);
    assert forall|i: int| 0 <= i < sorted.len() implies (#[trigger] sorted[i]).date.valid() by {
        assert(sorted.contains(sorted[i]));
        assert(sorted.to_multiset().count(sorted[i]) > 0);
        assert(pickups.contains(sorted[i]));
    }
    assert forall|i: int, j: int| 0 <= i <= j < pickups.len() implies {
        let a = (#[trigger] sorted[i]).date;
        let b = (#[trigger] sorted[j]).date;
        a.year * 512 + a.month * 32 + a.day <= b.year * 512 + b.month * 32 + b.day
    } by {
        assert(!sorted[j].date.before(sorted[i].date));
        law_days_are_ordered_by_year_month_and_day(sorted[j].date, sorted[i].date);
    }
}

/// Sorting leaves the pickups of a day as they were: the same ones, in the same order.
pub proof fn law_sorting_leaves_each_day_alone(pickups: Seq<PickupView>, date: DateView)
    ensures
        date_sorted(pickups).filter(|p: PickupView| p.date == date) == pickups.filter(
            |p: PickupView| p.date == date,
        ),
{
    law_sorting_orders_by_day(pickups);
    assert(on_day(date_sorted(pickups), date) == on_day(pickups, date));
}

/// The next day with a pickup is that of the first pickup in the list that is not before today; there
/// is none exactly when every pickup is before today.
pub proof fn law_the_next_day_is_that_of_the_first_pickup_to_come(pickups: Seq<PickupView>, today: DateView)
    ensures
        next_pickup_day(pickups, today) is None <==> forall|i: int|
            0 <= i < pickups.len() ==> (#[trigger] pickups[i]).date.before(today),
        forall|at: int|
            0 <= at < pickups.len() && !(#[trigger] pickups[at]).date.before(today) && (forall|i: int|
                0 <= i < at ==> (#[trigger] pickups[i]).date.before(today)) ==> next_pickup_day(pickups, today) == Some(
                pickups[at].date,
            ),
{
    let keep = |p: PickupView| !p.date.before(today);
    if not_before(pickups, today).len() > 0 {
        lemma_first_kept(pickups, today);
        let first = choose|i: int|
            0 <= i < pickups.len() && pickups[i] == not_before(pickups, today)[0] && forall|j: int|
                0 <= j < i ==> (#[trigger] pickups[j]).date.before(today);
        pickups.lemma_filter_pred(keep, 0);
        assert(!pickups[first].date.before(today));
        assert forall|at: int|
            0 <= at < pickups.len() && !(#[trigger] pickups[at]).date.before(today) && (forall|i: int|
                0 <= i < at ==> (#[trigger] pickups[i]).date.before(today)) implies next_pickup_day(pickups, today)
            == Some(pickups[at].date) by {
            if first < at {
                assert(pickups[first].date.before(today));
            }
        }
    } else {
        assert forall|i: int| 0 <= i < pickups.len() implies (#[trigger] pickups[i]).date.before(today) by {
            if keep(pickups[i]) {
                pickups.lemma_filter_contains(keep, i);
            }
        }
    }
}

} // verus!
