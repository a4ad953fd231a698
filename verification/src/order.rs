//! Texts in the order of their characters, and lists of texts put together.
use vstd::prelude::*;

use crate::text::chars_of;

verus! {

/// Whether `a` comes before `b`: at the first place where they differ `a` has the lower character,
/// or it ends there.
pub open spec fn text_before(a: Seq<char>, b: Seq<char>) -> bool
    decreases a.len(),
{
    if b.len() == 0 {
        false
    } else if a.len() == 0 {
        true
    } else {
        a[0] < b[0] || (a[0] == b[0] && text_before(a.skip(1), b.skip(1)))
    }
}

/// Whether each text comes before all that follow it.
pub open spec fn increasing(texts: Seq<Seq<char>>) -> bool {
    forall|i: int, j: int| 0 <= i < j < texts.len() ==> text_before(#[trigger] texts[i], #[trigger] texts[j])
}

/// The members of a set of texts, in their order.
pub open spec fn in_order(members: Set<Seq<char>>) -> Seq<Seq<char>> {
    choose|texts: Seq<Seq<char>>| increasing(texts) && texts.to_set() == members
}

/// The texts of a list with `separator` between any two that follow each other.
pub open spec fn joined(texts: Seq<Seq<char>>, separator: Seq<char>) -> Seq<char>
    decreases texts.len(),
{
    if texts.len() == 0 {
        Seq::empty()
    } else if texts.len() == 1 {
        texts[0]
    } else {
        joined(texts.drop_last(), separator) + separator + texts.last()
    }
}

/// The texts of a list.
pub open spec fn text_views(texts: Seq<String>) -> Seq<Seq<char>> {
    texts.map_values(|text: String| text@)
}

/// Of two different texts exactly one comes before the other, and no text comes before itself.
proof fn lemma_text_order_is_total(a: Seq<char>, b: Seq<char>)
    ensures
        a == b ==> !text_before(a, b),
        a != b ==> text_before(a, b) != text_before(b, a),
    decreases a.len(),
{
    if a.len() == 0 || b.len() == 0 {
        assert(a.len() == b.len() ==> a =~= b);
    } else if a[0] == b[0] {
        lemma_text_order_is_total(a.skip(1), b.skip(1));
        if a != b && a.skip(1) == b.skip(1) {
            assert(a =~= seq![a[0]] + a.skip(1));
            assert(b =~= seq![b[0]] + b.skip(1));
        }
    }
}

/// A text that comes before a second one comes before all that the second one comes before.
proof fn lemma_text_order_is_transitive(a: Seq<char>, b: Seq<char>, c: Seq<char>)
    requires
        text_before(a, b),
        text_before(b, c),
    ensures
        text_before(a, c),
    decreases a.len(),
{
    if a.len() > 0 && a[0] == b[0] && b[0] == c[0] {
        lemma_text_order_is_transitive(a.skip(1), b.skip(1), c.skip(1));
    }
}

/// An increasing list holds no text twice.
pub(crate) proof fn lemma_increasing_has_no_duplicates(texts: Seq<Seq<char>>)
    requires
        increasing(texts),
    ensures
        texts.no_duplicates(),
        texts.to_set().len() == texts.len(),
{
    assert forall|i: int, j: int| 0 <= i < texts.len() && 0 <= j < texts.len() && i != j implies texts[i]
        != texts[j] by {
        lemma_text_order_is_total(texts[i], texts[j]);
        if i < j {
            assert(text_before(texts[i], texts[j]));
        } else {
            assert(text_before(texts[j], texts[i]));
        }
    }
    texts.unique_seq_to_set();
}

/// The last text of an increasing list is the last of the texts in it.
proof fn lemma_last_is_highest(texts: Seq<Seq<char>>, text: Seq<char>)
    requires
        increasing(texts),
        texts.to_set().contains(text),
    ensures
        texts.len() > 0,
        text == texts.last() || text_before(text, texts.last()),
{
    let at = choose|i: int| 0 <= i < texts.len() && texts[i] == text;
    if at < texts.len() - 1 {
        assert(text_before(texts[at], texts[texts.len() - 1]));
    }
}

/// Texts have one order only.
proof fn lemma_one_order(a: Seq<Seq<char>>, b: Seq<Seq<char>>)
    requires
        increasing(a),
        increasing(b),
        a.to_set() == b.to_set(),
    ensures
        a == b,
    decreases a.len(),
{
    if a.len() == 0 {
        if b.len() > 0 {
            assert(b.to_set().contains(b[0]));
            assert(a.to_set().contains(b[0]));
        }
        assert(a =~= b);
    } else {
        assert(a.to_set().contains(a[a.len() - 1]));
        lemma_last_is_highest(b, a.last());
        assert(b.to_set().contains(b[b.len() - 1]));
        lemma_last_is_highest(a, b.last());
        lemma_text_order_is_total(a.last(), b.last());
        assert(a.last() == b.last());
        let shorter_a = a.drop_last();
        let shorter_b = b.drop_last();
        lemma_without_last(a);
        lemma_without_last(b);
        assert forall|i: int, j: int| 0 <= i < j < shorter_a.len() implies text_before(
            #[trigger] shorter_a[i],
            #[trigger] shorter_a[j],
        ) by {
            assert(text_before(a[i], a[j]));
        }
        assert forall|i: int, j: int| 0 <= i < j < shorter_b.len() implies text_before(
            #[trigger] shorter_b[i],
            #[trigger] shorter_b[j],
        ) by {
            assert(text_before(b[i], b[j]));
        }
        lemma_one_order(shorter_a, shorter_b);
        assert(a =~= shorter_a.push(a.last()));
        assert(b =~= shorter_b.push(b.last()));
    }
}

/// What is left of an increasing list without its last text.
proof fn lemma_without_last(texts: Seq<Seq<char>>)
    requires
        increasing(texts),
        texts.len() > 0,
    ensures
        texts.drop_last().to_set() == texts.to_set().remove(texts.last()),
{
    lemma_increasing_has_no_duplicates(texts);
    let shorter = texts.drop_last();
    assert forall|t: Seq<char>| shorter.to_set().contains(t) <==> #[trigger] texts.to_set().remove(
        texts.last(),
    ).contains(t) by {
        if shorter.to_set().contains(t) {
            let at = choose|i: int| 0 <= i < shorter.len() && shorter[i] == t;
            assert(texts[at] == t);
        }
        if texts.to_set().remove(texts.last()).contains(t) {
            let at = choose|i: int| 0 <= i < texts.len() && texts[i] == t;
            assert(shorter[at] == t);
        }
    }
    assert(shorter.to_set() =~= texts.to_set().remove(texts.last()));
}

/// An increasing list of the members of a set is the set in its order.
pub(crate) proof fn lemma_in_order_is_unique(texts: Seq<Seq<char>>)
    requires
        increasing(texts),
    ensures
        in_order(texts.to_set()) == texts,
{
    lemma_one_order(in_order(texts.to_set()), texts);
}

/// Whether `a` comes before `b`.
pub fn comes_before(a: &str, b: &str) -> (r: bool)
    ensures
        r == text_before(a@, b@),
{
    let left = chars_of(a);
    let right = chars_of(b);
    let mut i: usize = 0;
    assert(left@.skip(0) =~= a@);
    assert(right@.skip(0) =~= b@);
    while i < left.len() && i < right.len()
        invariant
            i <= left@.len(),
            i <= right@.len(),
            text_before(a@, b@) == text_before(left@.skip(i as int), right@.skip(i as int)),
        decreases left@.len() - i,
    {
        if left[i] < right[i] {
            return true;
        }
        if right[i] < left[i] {
            return false;
        }
        assert(left@.skip(i as int).skip(1) =~= left@.skip(i + 1));
        assert(right@.skip(i as int).skip(1) =~= right@.skip(i + 1));
        i += 1;
    }
    i < right.len()
}

/// Puts a text into an increasing list, where the list does not hold it yet, and tells whether it
/// did so.
pub fn insert_in_order(texts: &mut Vec<String>, text: String) -> (inserted: bool)
    requires
        increasing(text_views(old(texts)@)),
    ensures
        increasing(text_views(final(texts)@)),
        text_views(final(texts)@).to_set() == text_views(old(texts)@).to_set().insert(text@),
        inserted == !text_views(old(texts)@).to_set().contains(text@),
{
    let ghost before = text_views(texts@);
    let ghost texts_before = texts@;
    let mut at: usize = 0;
    while at < texts.len() && comes_before(texts[at].as_str(), text.as_str())
        invariant
            texts@ == texts_before,
            before == text_views(texts@),
            at <= texts@.len(),
            forall|i: int| 0 <= i < at ==> text_before(#[trigger] before[i], text@),
        decreases texts@.len() - at,
    {
        assert(before[at as int] == texts@[at as int]@);
        at += 1;
    }
    proof {
        if at < before.len() {
            assert(before[at as int] == texts@[at as int]@);
            lemma_text_order_is_total(before[at as int], text@);
        }
    }
    if at < texts.len() && !comes_before(text.as_str(), texts[at].as_str()) {
        proof {
            assert(before[at as int] == text@);
            assert(before.to_set().contains(text@));
            assert(before.to_set() =~= before.to_set().insert(text@));
        }
        return false;
    }
    texts.insert(at, text);
    proof {
        let now = text_views(texts@);
        let front = before.take(at as int);
        let back = before.skip(at as int);
        assert(now =~= front + seq![text@] + back);
        assert forall|j: int| at <= j < before.len() implies text_before(text@, #[trigger] before[j]) by {
            if at < j {
                assert(text_before(before[at as int], before[j]));
                lemma_text_order_is_transitive(text@, before[at as int], before[j]);
            }
        }
        assert forall|i: int, j: int| 0 <= i < j < now.len() implies text_before(
            #[trigger] now[i],
            #[trigger] now[j],
        ) by {
            let old_i = if i < at { i } else { i - 1 };
            let old_j = if j < at { j } else { j - 1 };
            if i < at && j > at {
                assert(now[i] == before[i] && now[j] == before[j - 1]);
                assert(text_before(before[i], before[j - 1]));
            } else if i < at && j < at {
                assert(text_before(before[i], before[j]));
            } else if i > at {
                assert(text_before(before[i - 1], before[j - 1]));
            } else if i == at {
                assert(text_before(text@, before[j - 1]));
            } else {
                assert(text_before(before[i], text@));
            }
        }
        assert(!before.to_set().contains(text@)) by {
            if before.to_set().contains(text@) {
                let k = choose|i: int| 0 <= i < before.len() && before[i] == text@;
                lemma_text_order_is_total(text@, text@);
                if k < at {
                    assert(text_before(before[k], text@));
                } else {
                    assert(text_before(text@, before[k]));
                }
            }
        }
        assert forall|t: Seq<char>| now.to_set().contains(t) <==> #[trigger] before.to_set().insert(
            text@,
        ).contains(t) by {
            if now.to_set().contains(t) {
                let k = choose|i: int| 0 <= i < now.len() && now[i] == t;
                if k < at {
                    assert(before[k] == t);
                } else if k > at {
                    assert(before[k - 1] == t);
                }
            }
            if before.to_set().insert(text@).contains(t) {
                if t == text@ {
                    assert(now[at as int] == t);
                } else {
                    let k = choose|i: int| 0 <= i < before.len() && before[i] == t;
                    if k < at {
                        assert(now[k] == t);
                    } else {
                        assert(now[k + 1] == t);
                    }
                }
            }
        }
        assert(now.to_set() =~= before.to_set().insert(text@));
    }
    true
}

/// Puts the texts of a list together, with `separator` between any two that follow each other.
pub fn join(texts: &Vec<String>, separator: &str) -> (r: String)
    ensures
        r@ == joined(text_views(texts@), separator@),
{
    let ghost all = text_views(texts@);
    let mut r = String::new();
    let mut i: usize = 0;
    assert(r@ =~= joined(all.take(0), separator@));
    while i < texts.len()
        invariant
            all == text_views(texts@),
            i <= texts@.len(),
            r@ == joined(all.take(i as int), separator@),
        decreases texts@.len() - i,
    {
        proof {
            assert(all.take(i + 1).drop_last() =~= all.take(i as int));
            assert(all.take(i + 1).last() == texts@[i as int]@);
        }
        if i > 0 {
            r.append(separator);
        }
        r.append(texts[i].as_str());
        assert(i == 0 ==> r@ =~= joined(all.take(1), separator@));
        i += 1;
    }
    assert(all.take(i as int) =~= all);
    r
}

/// A text comes before another exactly when they are the same up to some place, and there the first
/// ends and the other does not, or has the lower character.
pub proof fn law_texts_are_ordered_where_they_first_differ(a: Seq<char>, b: Seq<char>)
    ensures
        text_before(a, b) <==> exists|n: int|
            0 <= n <= a.len() && n < b.len() && #[trigger] a.take(n) == b.take(n) && (n == a.len() || a[n] < b[n]),
    decreases a.len(),
{
    if b.len() > 0 && a.len() > 0 && a[0] == b[0] {
        let c = a.skip(1);
        let d = b.skip(1);
        law_texts_are_ordered_where_they_first_differ(c, d);
        if text_before(a, b) {
            let n = choose|n: int|
                0 <= n <= c.len() && n < d.len() && #[trigger] c.take(n) == d.take(n) && (n == c.len() || c[n] < d[n]);
            assert(a.take(n + 1) =~= seq![a[0]] + c.take(n));
            assert(b.take(n + 1) =~= seq![b[0]] + d.take(n));
            assert(a.take(n + 1) == b.take(n + 1));
        }
        if exists|n: int|
            0 <= n <= a.len() && n < b.len() && #[trigger] a.take(n) == b.take(n) && (n == a.len() || a[n] < b[n]) {
            let n = choose|n: int|
                0 <= n <= a.len() && n < b.len() && #[trigger] a.take(n) == b.take(n) && (n == a.len() || a[n] < b[n]);
            assert(n > 0);
            assert(c.take(n - 1) =~= a.take(n).skip(1));
            assert(d.take(n - 1) =~= b.take(n).skip(1));
            assert(c.take(n - 1) == d.take(n - 1));
        }
    } else if b.len() > 0 {
        assert(a.take(0) =~= b.take(0));
        assert forall|n: int| 0 < n <= a.len() && n < b.len() implies #[trigger] a.take(n) != b.take(n) by {
            assert(a.take(n)[0] == a[0]);
            assert(b.take(n)[0] == b[0]);
        }
    }
}

/// A list is in order exactly when each text comes before every one behind it.
pub proof fn law_a_list_in_order_holds_each_text_before_the_next(texts: Seq<Seq<char>>)
    ensures
        increasing(texts) <==> forall|i: int, j: int|
            0 <= i < j < texts.len() ==> text_before(#[trigger] texts[i], #[trigger] texts[j]),
{
}

/// No texts are joined to nothing, one text to itself, and one more is put behind the others with the
/// separator between.
pub proof fn law_texts_are_joined_by_the_separator(texts: Seq<Seq<char>>, more: Seq<char>, separator: Seq<char>)
    ensures
        joined(Seq::empty(), separator) == Seq::<char>::empty(),
        texts.len() == 0 ==> joined(texts.push(more), separator) == more,
        texts.len() > 0 ==> joined(texts.push(more), separator) == joined(texts, separator) + separator + more,
{
    assert(texts.push(more).drop_last() =~= texts);
}

/// The texts of a list are seen as they are, one for one.
pub proof fn law_texts_are_seen_as_they_are(texts: Seq<String>)
    ensures
        text_views(texts).len() == texts.len(),
        forall|i: int| 0 <= i < texts.len() ==> #[trigger] text_views(texts)[i] == texts[i]@,
{
}

} // verus!
