//! JSON values as trees.
use serde_json::Value;
use vstd::prelude::*;

use crate::text::{optional_text, same_text};

verus! {

/// A JSON value.
#[derive(Debug)]
pub enum Json {
    Null,
    Bool(bool),
    Number(String),
    Text(String),
    List(Vec<Json>),
    Object(Vec<(String, Json)>),
}

/// A JSON value, by its texts.
pub enum JsonView {
    Null,
    Bool(bool),
    Number(Seq<char>),
    Text(Seq<char>),
    List(Seq<JsonView>),
    Object(Seq<(Seq<char>, JsonView)>),
}

/// A JSON value, by its texts.
pub open spec fn json_view(json: Json) -> JsonView
    decreases json,
{
    match json {
        Json::Null => JsonView::Null,
        Json::Bool(flag) => JsonView::Bool(flag),
        Json::Number(number) => JsonView::Number(number@),
        Json::Text(text) => JsonView::Text(text@),
        Json::List(items) => JsonView::List(
            Seq::new(
                items@.len(),
                |i: int|
                    if 0 <= i < items@.len() {
                        json_view(items@[i])
                    } else {
                        JsonView::Null
                    },
            ),
        ),
        Json::Object(members) => JsonView::Object(
            Seq::new(
                members@.len(),
                |i: int|
                    (
                        members@[i].0@,
                        if 0 <= i < members@.len() {
                            json_view(members@[i].1)
                        } else {
                            JsonView::Null
                        },
                    ),
            ),
        ),
    }
}

impl View for Json {
    type V = JsonView;

    open spec fn view(&self) -> JsonView {
        json_view(*self)
    }
}

/// The value of serde_json.
#[verifier::external_type_specification]
#[verifier::external_body]
pub struct ExValue(serde_json::Value);

/// The value that serde_json reads out of a text, or the text of the error that it reports.
pub uninterp spec fn parsed_json(text: Seq<char>) -> Result<JsonView, Seq<char>>;

/// Copies a `serde_json::Value` one for one: what stands inside a list or an object is copied in its
/// place, and a number is written out by its `Display`. Nothing is claimed of the copy by itself;
/// `parse_json` says what it holds.
#[verifier::external_body]
fn json_of(value: Value) -> (json: Json) {
    match value {
        Value::Null => Json::Null,
        Value::Bool(flag) => Json::Bool(flag),
        Value::Number(number) => Json::Number(number.to_string()),
        Value::String(text) => Json::Text(text),
        Value::Array(items) => Json::List(items.into_iter().map(json_of).collect()),
        Value::Object(members) => Json::Object(members.into_iter().map(|(key, item)| (key, json_of(item))).collect()),
    }
}

/// `serde_json::from_str` into a `serde_json::Value`, which is then copied. The result is the one
/// that `parsed_json` stands for.
#[verifier::external_body]
pub(crate) fn parse_json(text: &str) -> (r: Result<Json, String>)
    ensures
        match r {
            Ok(json) => parsed_json(text@) == Ok::<JsonView, Seq<char>>(json@),
            Err(message) => parsed_json(text@) == Err::<JsonView, Seq<char>>(message@),
        },
{
    match serde_json::from_str(text) {
        Ok(value) => Ok(json_of(value)),
        Err(error) => Err(error.to_string()),
    }
}

/// Whether the object member at `at` is the first one named `key`.
pub open spec fn is_first_member(members: Seq<(Seq<char>, JsonView)>, key: Seq<char>, at: int) -> bool {
    &&& 0 <= at < members.len()
    &&& members[at].0 == key
    &&& forall|i: int| 0 <= i < at ==> (#[trigger] members[i]).0 != key
}

impl JsonView {
    /// The member of an object that is named `key`; null where there is none.
    pub open spec fn member(self, key: Seq<char>) -> JsonView {
        match self {
            JsonView::Object(members) => if exists|at: int| is_first_member(members, key, at) {
                members[choose|at: int| is_first_member(members, key, at)].1
            } else {
                JsonView::Null
            },
            _ => JsonView::Null,
        }
    }

    /// The text, where the value is one.
    pub open spec fn as_text(self) -> Option<Seq<char>> {
        match self {
            JsonView::Text(text) => Some(text),
            _ => None,
        }
    }

    /// The items, where the value is a list.
    pub open spec fn as_list(self) -> Option<Seq<JsonView>> {
        match self {
            JsonView::List(items) => Some(items),
            _ => None,
        }
    }
}

impl Json {
    /// The member of an object that is named `key`. Where there is none, the member counts as null.
    pub fn member(&self, key: &str) -> (r: Option<&Json>)
        ensures
            match r {
                Some(json) => json@ == self@.member(key@),
                None => self@.member(key@) == JsonView::Null,
            },
    {
        match self {
            Json::Object(members) => {
                let ghost all = self@->Object_0;
                let mut i: usize = 0;
                while i < members.len()
                    invariant
                        *self == Json::Object(*members),
                        all == self@->Object_0,
                        i <= members@.len(),
                        forall|j: int| 0 <= j < i ==> (#[trigger] all[j]).0 != key@,
                    decreases members@.len() - i,
                {
                    assert(all[i as int].0 == members@[i as int].0@);
                    if same_text(members[i].0.as_str(), key) {
                        proof {
                            assert(is_first_member(all, key@, i as int));
                            let at = choose|at: int| is_first_member(all, key@, at);
                            assert(all[i as int].0 == key@);
                            assert(at == i);
                        }
                        return Some(&members[i].1);
                    }
                    i += 1;
                }
                None
            },
            _ => None,
        }
    }

    /// The text, where the value is one.
    pub fn as_text(&self) -> (r: Option<String>)
        ensures
            optional_text(r) == self@.as_text(),
    {
        match self {
            Json::Text(text) => Some(text.clone()),
            _ => None,
        }
    }

    /// The text that the member named `key` is, where it is one.
    pub fn text_member(&self, key: &str) -> (r: Option<String>)
        ensures
            optional_text(r) == self@.member(key@).as_text(),
    {
        match self.member(key) {
            Some(json) => json.as_text(),
            None => None,
        }
    }
}

/// A value is seen as it is: a text with its characters, a list with its items and an object with its
/// members, one for one and in their order.
pub proof fn law_a_value_is_seen_as_it_is(json: Json)
    ensures
        json == Json::Null <==> json@ == JsonView::Null,
        json matches Json::Bool(flag) ==> json@ == JsonView::Bool(flag),
        json matches Json::Number(number) ==> json@ == JsonView::Number(number@),
        json matches Json::Text(text) ==> json@ == JsonView::Text(text@),
        json matches Json::List(items) ==> (json@ matches JsonView::List(seen) && seen.len() == items@.len()
            && forall|i: int| 0 <= i < items@.len() ==> #[trigger] seen[i] == items@[i]@),
        json matches Json::Object(members) ==> (json@ matches JsonView::Object(seen) && seen.len() == members@.len()
            && forall|i: int|
            0 <= i < members@.len() ==> (#[trigger] seen[i]).0 == members@[i].0@ && seen[i].1 == members@[i].1@),
{
    reveal_with_fuel(json_view, 2);
}

/// The member of an object is the value of the first member with the name. Where no member has the
/// name, and where the value is no object, it is null.
pub proof fn law_a_member_is_the_first_of_its_name(json: JsonView, key: Seq<char>)
    ensures
        json !is Object ==> json.member(key) == JsonView::Null,
        json matches JsonView::Object(members) ==> {
            &&& (forall|i: int| 0 <= i < members.len() ==> (#[trigger] members[i]).0 != key) ==> json.member(key)
                == JsonView::Null
            &&& forall|at: int|
                0 <= at < members.len() && (#[trigger] members[at]).0 == key && (forall|i: int|
                    0 <= i < at ==> (#[trigger] members[i]).0 != key) ==> json.member(key) == members[at].1
        },
{
    if let JsonView::Object(members) = json {
        assert forall|at: int|
            0 <= at < members.len() && (#[trigger] members[at]).0 == key && (forall|i: int|
                0 <= i < at ==> (#[trigger] members[i]).0 != key) implies json.member(key) == members[at].1 by {
            assert(is_first_member(members, key, at));
            let first = choose|first: int| is_first_member(members, key, first);
            if first < at {
                assert(members[first].0 != key);
            }
            assert(first == at);
        }
    }
}

/// A value is a text, or a list, exactly when it was made of that text, or of these items.
pub proof fn law_texts_and_lists_are_told_apart(json: JsonView, text: Seq<char>, items: Seq<JsonView>)
    ensures
        json.as_text() == Some(text) <==> json == JsonView::Text(text),
        json.as_list() == Some(items) <==> json == JsonView::List(items),
{
}

} // verus!
