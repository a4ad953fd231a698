//! Reactions to reminders: who says that the bins are out.
use vstd::hash_map::StringHashMap;
use vstd::prelude::*;

use crate::numbers::{decimal, decimal_text};
use crate::order::{
    in_order, increasing, insert_in_order, join, joined, lemma_in_order_is_unique, lemma_increasing_has_no_duplicates,
    text_views,
};
use crate::text::{chars_of, same_text};

verus! {

/// Whether `c` selects how the character before it is drawn.
pub open spec fn is_variation_selector(c: char) -> bool {
    '\u{fe00}' <= c <= '\u{fe0f}'
}

/// The text without variation selectors.
pub open spec fn without_selectors(text: Seq<char>) -> Seq<char> {
    text.filter(|c: char| !is_variation_selector(c))
}

/// Takes the variation selectors out of a text.
pub fn strip_variation_selectors(s: &str) -> (r: String)
    ensures
        r@ == without_selectors(s@),
{
    let chars = chars_of(s);
    let ghost keep = |c: char| !is_variation_selector(c);
    let mut r = String::new();
    let mut i: usize = 0;
    assert(r@ =~= chars@.take(0).filter(keep));
    while i < chars.len()
        invariant
            i <= chars@.len(),
            keep == (|c: char| !is_variation_selector(c)),
            r@ == chars@.take(i as int).filter(keep),
        decreases chars@.len() - i,
    {
        proof {
            assert(chars@.take(i + 1) =~= chars@.take(i as int).push(chars@[i as int]));
            chars@.take(i as int).lemma_filter_push(chars@[i as int], keep);
        }
        if !('\u{fe00}' <= chars[i] && chars[i] <= '\u{fe0f}') {
            r.push(chars[i]);
        }
        i += 1;
    }
    assert(chars@.take(i as int) =~= chars@);
    r
}

/// A stripped text holds no variation selector, and stripping it again changes nothing.
pub proof fn law_stripping_is_complete(text: Seq<char>)
    ensures
        forall|i: int|
            0 <= i < without_selectors(text).len() ==> !is_variation_selector(
                #[trigger] without_selectors(text)[i],
            ),
        without_selectors(without_selectors(text)) == without_selectors(text),
{
    let keep = |c: char| !is_variation_selector(c);
    let stripped = without_selectors(text);
    assert forall|i: int| 0 <= i < stripped.len() implies !is_variation_selector(#[trigger] stripped[i]) by {
        text.lemma_filter_pred(keep, i);
    }
    lemma_nothing_to_strip(stripped);
}

/// A text without variation selectors is its own stripped text.
proof fn lemma_nothing_to_strip(text: Seq<char>)
    requires
        forall|i: int| 0 <= i < text.len() ==> !is_variation_selector(#[trigger] text[i]),
    ensures
        without_selectors(text) == text,
    decreases text.len(),
{
    let keep = |c: char| !is_variation_selector(c);
    if text.len() == 0 {
        assert(without_selectors(text) =~= text);
    } else {
        let shorter = text.drop_last();
        assert forall|i: int| 0 <= i < shorter.len() implies !is_variation_selector(#[trigger] shorter[i]) by {
            assert(!is_variation_selector(text[i]));
        }
        lemma_nothing_to_strip(shorter);
        assert(!is_variation_selector(text[text.len() - 1]));
        assert(text =~= shorter.push(text.last()));
        shorter.lemma_filter_push(text.last(), keep);
    }
}

/// A variation selector anywhere in a reaction makes no difference to it.
pub proof fn law_selectors_make_no_difference(before: Seq<char>, selector: char, after: Seq<char>)
    requires
        is_variation_selector(selector),
    ensures
        without_selectors(before.push(selector) + after) == without_selectors(before + after),
{
    let keep = |c: char| !is_variation_selector(c);
    Seq::filter_distributes_over_add(before.push(selector), after, keep);
    Seq::filter_distributes_over_add(before, after, keep);
    before.lemma_filter_push(selector, keep);
}

/// Whether a stripped reaction says that the bins are out.
pub open spec fn is_done_reaction(key: Seq<char>) -> bool {
    key == "✅"@ || key == "✔"@ || key == "☑"@
}

/// Whether a stripped reaction says that the bins are out.
fn done_reaction(key: &str) -> (r: bool)
    ensures
        r == is_done_reaction(key@),
{
    same_text(key, "✅") || same_text(key, "✔") || same_text(key, "☑")
}

/// What the bot answers when `name` is the latest of `names` to say that the bins are out.
pub open spec fn confirmation_message(name: Seq<char>, names: Set<Seq<char>>) -> Seq<char> {
    "✅ "@ + name + " put the bins out! ("@ + decimal(names.len()) + " confirmed: "@ + joined(
        in_order(names),
        ", "@,
    ) + ")"@
}

/// Who has confirmed which reminder, once `name` has confirmed the one with this id. A reminder
/// that is not known stays unknown.
pub open spec fn after_confirmation(
    confirmed: Map<Seq<char>, Set<Seq<char>>>,
    event_id: Seq<char>,
    name: Seq<char>,
) -> Map<Seq<char>, Set<Seq<char>>> {
    if confirmed.contains_key(event_id) {
        confirmed.insert(event_id, confirmed[event_id].insert(name))
    } else {
        confirmed
    }
}

/// Who has confirmed which reminder, once a reminder with this id has gone out.
pub open spec fn with_reminder(
    confirmed: Map<Seq<char>, Set<Seq<char>>>,
    event_id: Seq<char>,
) -> Map<Seq<char>, Set<Seq<char>>> {
    confirmed.insert(event_id, Set::empty())
}

/// Whether a confirmation is of a known reminder and the first one by this name.
pub open spec fn is_news(
    confirmed: Map<Seq<char>, Set<Seq<char>>>,
    event_id: Seq<char>,
    name: Seq<char>,
) -> bool {
    confirmed.contains_key(event_id) && !confirmed[event_id].contains(name)
}

/// A second confirmation by the same name is no news and changes nothing; other reminders keep
/// their names, and no reminder becomes known by being confirmed.
pub proof fn law_each_name_confirms_once(
    confirmed: Map<Seq<char>, Set<Seq<char>>>,
    event_id: Seq<char>,
    name: Seq<char>,
)
    ensures
        ({
            let after = after_confirmation(confirmed, event_id, name);
            &&& !is_news(after, event_id, name)
            &&& after_confirmation(after, event_id, name) == after
            &&& after.dom() == confirmed.dom()
            &&& forall|other: Seq<char>|
                other != event_id && #[trigger] confirmed.contains_key(other) ==> after[other] == confirmed[other]
        }),
{
    let after = after_confirmation(confirmed, event_id, name);
    if confirmed.contains_key(event_id) {
        assert(after[event_id].insert(name) =~= after[event_id]);
        assert(after_confirmation(after, event_id, name) =~= after);
    }
    assert(after.dom() =~= confirmed.dom());
}

/// It makes no difference which of two names confirms a reminder first.
pub proof fn law_confirmations_commute(
    confirmed: Map<Seq<char>, Set<Seq<char>>>,
    event_id: Seq<char>,
    first: Seq<char>,
    second: Seq<char>,
)
    ensures
        after_confirmation(after_confirmation(confirmed, event_id, first), event_id, second) == after_confirmation(
            after_confirmation(confirmed, event_id, second),
            event_id,
            first,
        ),
{
    if confirmed.contains_key(event_id) {
        let names = confirmed[event_id];
        assert(names.insert(first).insert(second) =~= names.insert(second).insert(first));
        assert(confirmed.insert(event_id, names.insert(first)).insert(event_id, names.insert(first).insert(second))
            =~= confirmed.insert(event_id, names.insert(second)).insert(
            event_id,
            names.insert(second).insert(first),
        ));
    }
}

/// A reminder that has just gone out has no confirmations, so that anybody's is news; the reminders
/// before it keep theirs.
pub proof fn law_a_new_reminder_is_open_to_all(
    confirmed: Map<Seq<char>, Set<Seq<char>>>,
    event_id: Seq<char>,
    name: Seq<char>,
)
    ensures
        ({
            let after = with_reminder(confirmed, event_id);
            &&& is_news(after, event_id, name)
            &&& after_confirmation(after, event_id, name)[event_id] == set![name]
            &&& forall|other: Seq<char>|
                other != event_id ==> (after.contains_key(other) <==> #[trigger] confirmed.contains_key(other)) && (
                confirmed.contains_key(other) ==> after[other] == confirmed[other])
        }),
{
    assert(Set::<Seq<char>>::empty().insert(name) =~= set![name]);
}

/// The answer to a confirmation that is news.
#[derive(Debug)]
pub struct Confirmation {
    /// What the bot answers.
    pub message: String,
    /// How many have confirmed the reminder by now.
    pub total: u64,
}

/// The reminders that went out, and who said of each that the bins are out.
pub struct Confirmations {
    reminders: StringHashMap<Vec<String>>,
}

impl View for Confirmations {
    type V = Map<Seq<char>, Set<Seq<char>>>;

    closed spec fn view(&self) -> Map<Seq<char>, Set<Seq<char>>> {
        self.reminders@.map_values(|names: Vec<String>| text_views(names@).to_set())
    }
}

impl Confirmations {
    /// The names of each reminder are kept in their order, each of them once.
    #[verifier::type_invariant]
    closed spec fn names_in_order(self) -> bool {
        forall|id: Seq<char>|
            #[trigger] self.reminders@.contains_key(id) ==> increasing(text_views(self.reminders@[id]@))
    }

    /// No reminder went out yet.
    pub fn new() -> (r: Self)
        ensures
            r@ == Map::<Seq<char>, Set<Seq<char>>>::empty(),
    {
        let r = Confirmations { reminders: StringHashMap::new() };
        assert(r@ =~= Map::<Seq<char>, Set<Seq<char>>>::empty());
        r
    }

    /// A reminder went out: nobody has confirmed it yet.
    pub fn track(&mut self, event_id: String)
        ensures
            final(self)@ == with_reminder(old(self)@, event_id@),
    {
        proof {
            use_type_invariant(&*self);
        }
        let ghost before = self@;
        let mut reminders: StringHashMap<Vec<String>> = StringHashMap::new();
        std::mem::swap(&mut reminders, &mut self.reminders);
        let names: Vec<String> = Vec::new();
        assert(text_views(names@).to_set() =~= Set::<Seq<char>>::empty());
        reminders.insert(event_id, names);
        self.reminders = reminders;
        assert(self@ =~= with_reminder(before, event_id@));
    }

    /// Whether a reaction, in a room that the bot is in or not, is to a reminder and says that the
    /// bins are out.
    pub fn is_confirmation(&self, joined: bool, event_id: &str, key: &str) -> (r: bool)
        ensures
            r == (joined && self@.contains_key(event_id@) && is_done_reaction(without_selectors(key@))),
    {
        if !joined {
            return false;
        }
        let stripped = strip_variation_selectors(key);
        self.reminders.contains_key(event_id) && done_reaction(stripped.as_str())
    }

    /// Notes that `name` said of a reminder that the bins are out. The answer to give comes back,
    /// but for a reminder that is not known, and for a name that has said so before.
    pub fn confirm(&mut self, event_id: &str, name: String) -> (r: Option<Confirmation>)
        ensures
            final(self)@ == after_confirmation(old(self)@, event_id@, name@),
            r is Some <==> is_news(old(self)@, event_id@, name@),
            r matches Some(confirmation) ==> {
                let names = final(self)@[event_id@];
                &&& confirmation.message@ == confirmation_message(name@, names)
                &&& confirmation.total == names.len()
                &&& increasing(in_order(names))
                &&& in_order(names).to_set() == names
                &&& in_order(names).len() == names.len()
            },
    {
        proof {
            use_type_invariant(&*self);
        }
        let ghost before = self@;
        let mut names = match self.reminders.get(event_id) {
            Some(names) => copy_names(names),
            None => {
                return None;
            },
        };
        assert(text_views(names@).to_set() == before[event_id@]);
        if !insert_in_order(&mut names, name.clone()) {
            assert(before[event_id@] =~= before[event_id@].insert(name@));
            assert(before =~= after_confirmation(before, event_id@, name@));
            return None;
        }
        proof {
            lemma_in_order_is_unique(text_views(names@));
            lemma_increasing_has_no_duplicates(text_views(names@));
        }
        let total: u64 = names.len() as u64;
        let mut message = "✅ ".to_owned();
        message.append(name.as_str());
        message.append(" put the bins out! (");
        message.append(decimal_text(total).as_str());
        message.append(" confirmed: ");
        message.append(join(&names, ", ").as_str());
        message.append(")");
        let mut reminders: StringHashMap<Vec<String>> = StringHashMap::new();
        std::mem::swap(&mut reminders, &mut self.reminders);
        reminders.insert(event_id.to_owned(), names);
        self.reminders = reminders;
        assert(self@ =~= after_confirmation(before, event_id@, name@));
        Some(Confirmation { message, total })
    }
}

/// A copy of a list of names.
fn copy_names(names: &Vec<String>) -> (r: Vec<String>)
    ensures
        text_views(r@) == text_views(names@),
{
    let mut r: Vec<String> = Vec::new();
    let mut i: usize = 0;
    while i < names.len()
        invariant
            i <= names@.len(),
            text_views(r@) == text_views(names@).take(i as int),
        decreases names@.len() - i,
    {
        let ghost before = text_views(r@);
        r.push(names[i].clone());
        assert(text_views(r@) =~= before.push(names@[i as int]@));
        assert(text_views(names@).take(i + 1) =~= text_views(names@).take(i as int).push(names@[i as int]@));
        i += 1;
    }
    assert(text_views(names@).take(i as int) =~= text_views(names@));
    r
}

/// The name that a person goes by: the one that the room shows, or the id where it shows none.
pub fn shown_name(display_name: Option<String>, sender: &str) -> (r: String)
    ensures
        r@ == match display_name {
            Some(name) => name@,
            None => sender@,
        },
{
    match display_name {
        Some(name) => name,
        None => sender.to_owned(),
    }
}

/// Stripping takes out the characters from U+FE00 to U+FE0F, wherever they stand, and keeps all others
/// in their order.
pub proof fn law_stripping_takes_out_selectors_only(text: Seq<char>, c: char)
    ensures
        without_selectors(Seq::empty()) == Seq::<char>::empty(),
        65024 <= c as int <= 65039 ==> without_selectors(text.push(c)) == without_selectors(text),
        !(65024 <= c as int <= 65039) ==> without_selectors(text.push(c)) == without_selectors(text).push(c),
{
    let keep = |c: char| !is_variation_selector(c);
    text.lemma_filter_push(c, keep);
    assert(Seq::<char>::empty().filter(keep) =~= Seq::<char>::empty());
}

/// A check mark in a box, one alone, or one in a box that is not filled says that the bins are out, and
/// nothing else does.
pub proof fn law_three_signs_say_done(key: Seq<char>)
    ensures
        is_done_reaction(key) <==> key == seq!['\u{2705}'] || key == seq!['\u{2714}'] || key == seq!['\u{2611}'],
{
    reveal_strlit("✅");
    reveal_strlit("✔");
    reveal_strlit("☑");
    assert("✅"@ =~= seq!['\u{2705}']);
    assert("✔"@ =~= seq!['\u{2714}']);
    assert("☑"@ =~= seq!['\u{2611}']);
}

/// A confirmation adds the name to those of its reminder, where that is known, and changes nothing
/// else. It is news exactly where the reminder is known and the name is not among them yet.
pub proof fn law_a_confirmation_adds_one_name(
    confirmed: Map<Seq<char>, Set<Seq<char>>>,
    event_id: Seq<char>,
    name: Seq<char>,
    other_id: Seq<char>,
    other_name: Seq<char>,
)
    ensures
        ({
            let after = after_confirmation(confirmed, event_id, name);
            &&& after.contains_key(other_id) <==> confirmed.contains_key(other_id)
            &&& confirmed.contains_key(other_id) ==> (after[other_id].contains(other_name)
                <==> confirmed[other_id].contains(other_name) || (other_id == event_id && other_name == name))
            &&& is_news(confirmed, event_id, name) <==> confirmed.contains_key(event_id)
                && !confirmed[event_id].contains(name)
        }),
{
}

/// The answer to a confirmation names who has just confirmed, how many have, and all of them in their
/// order.
pub proof fn law_the_answer_names_all_who_confirmed(name: Seq<char>, names: Set<Seq<char>>)
    ensures
        confirmation_message(name, names) == "✅ "@ + name + " put the bins out! ("@ + decimal(names.len())
            + " confirmed: "@ + joined(in_order(names), ", "@) + ")"@,
{
}

/// A list of exactly the members of a set in which each comes before all behind it is the set in its
/// order.
pub proof fn law_names_are_listed_in_order(texts: Seq<Seq<char>>, names: Set<Seq<char>>)
    requires
        forall|i: int, j: int|
            0 <= i < j < texts.len() ==> crate::order::text_before(#[trigger] texts[i], #[trigger] texts[j]),
        forall|name: Seq<char>| names.contains(name) <==> #[trigger] texts.contains(name),
    ensures
        in_order(names) == texts,
{
    assert(texts.to_set() =~= names);
    lemma_in_order_is_unique(texts);
}

} // verus!
