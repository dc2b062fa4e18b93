//! JSON values as the stream events carry them, and the reading of one
//! event.
//!
//! Text is turned into a tree by `serde_json`; what an event means is decided
//! here, on a tree of the library's own.

use vstd::prelude::*;
use vstd::string::*;
use crate::text::views;

verus! {

/// A JSON value.
#[derive(Debug, PartialEq, Eq)]
pub enum Json {
    Null,
    Bool(bool),
    /// A number, in the digits `serde_json` prints it with.
    Number(String),
    Str(String),
    Array(Vec<Json>),
    /// The members of an object. A tree that was read from text holds each
    /// key once.
    Object(Vec<(String, Json)>),
}

/// `serde_json::Value`, the tree that `serde_json` reads. Nothing is known
/// of what a value holds until it is copied into a [`Json`].
#[verifier::external_type_specification]
#[verifier::external_body]
pub struct ExValue(serde_json::Value);

/// The tree that `serde_json` reads from a text, or `None` where it reads
/// none: the text is not one JSON value, or nests too deeply.
pub uninterp spec fn json_of_text(text: Seq<char>) -> Option<Json>;

/// Copies a `serde_json::Value` into a [`Json`], variant by variant. The
/// members of an object come in the order in which `serde_json`'s map hands
/// them out.
#[verifier::external_body]
fn json_from_value(value: serde_json::Value) -> Json {
    match value {
        serde_json::Value::Null => Json::Null,
        serde_json::Value::Bool(b) => Json::Bool(b),
        serde_json::Value::Number(n) => Json::Number(n.to_string()),
        serde_json::Value::String(s) => Json::Str(s),
        serde_json::Value::Array(items) => Json::Array(
            items.into_iter().map(json_from_value).collect(),
        ),
        serde_json::Value::Object(members) => Json::Object(
            members.into_iter().map(|(key, member)| (key, json_from_value(member))).collect(),
        ),
    }
}

/// Calls `serde_json::from_str` for a `serde_json::Value`. The result
/// depends on the text alone; an error of any kind is reported as `None`.
#[verifier::external_body]
fn read_json(text: &str) -> (r: Option<Json>)
    ensures
        r == json_of_text(text@),
{
    match serde_json::from_str::<serde_json::Value>(text) {
        Ok(value) => Some(json_from_value(value)),
        Err(_) => None,
    }
}

/// Reads a text as one JSON value.
pub fn parse_json(text: &str) -> (r: Option<Json>)
    ensures
        r == json_of_text(text@),
{
    read_json(text)
}

/// The value of the first member with the given key.
pub open spec fn spec_member(members: Seq<(String, Json)>, key: Seq<char>) -> Option<Json>
    decreases members.len(),
{
    if members.len() == 0 {
        None
    } else if members[0].0@ == key {
        Some(members[0].1)
    } else {
        spec_member(members.drop_first(), key)
    }
}

/// What one element of `choices` contributes. The element must be an
/// object with an object `delta`; the `content` of that, where it is a
/// string, is the contribution, and where it is absent or `null` there is
/// none. Anything else makes the element, and with it the event, malformed:
/// that is the outer `None`.
pub open spec fn spec_choice_content(choice: Json) -> Option<Option<Seq<char>>> {
    match choice {
        Json::Object(members) => match spec_member(members@, "delta"@) {
            Some(Json::Object(delta)) => match spec_member(delta@, "content"@) {
                None => Some(None),
                Some(Json::Null) => Some(None),
                Some(Json::Str(content)) => Some(Some(content@)),
                Some(_) => None,
            },
            _ => None,
        },
        _ => None,
    }
}

/// The contributions of a list of choices in order, or `None` where one
/// of them is malformed.
pub open spec fn spec_choices_deltas(choices: Seq<Json>) -> Option<Seq<Seq<char>>>
    decreases choices.len(),
{
    if choices.len() == 0 {
        Some(Seq::empty())
    } else {
        match (spec_choices_deltas(choices.drop_last()), spec_choice_content(choices.last())) {
            (Some(front), Some(Some(content))) => Some(front.push(content)),
            (Some(front), Some(None)) => Some(front),
            _ => None,
        }
    }
}

/// The text fragments that one event carries: the event must be an object
/// whose member `choices` is an array; each element contributes as
/// [`spec_choice_content`] says. `None` where the event is malformed.
pub open spec fn spec_event_deltas(event: Json) -> Option<Seq<Seq<char>>> {
    match event {
        Json::Object(members) => match spec_member(members@, "choices"@) {
            Some(Json::Array(choices)) => spec_choices_deltas(choices@),
            _ => None,
        },
        _ => None,
    }
}

/// Looks a member of an object up by its key.
pub fn member<'a>(members: &'a Vec<(String, Json)>, key: &str) -> (r: Option<&'a Json>)
    ensures
        match r {
            Some(value) => spec_member(members@, key@) == Some(*value),
            None => spec_member(members@, key@).is_none(),
        },
{
    let wanted = String::from_str(key);
    let mut i: usize = 0;
    assert(members@.skip(0) =~= members@);
    while i < members.len()
        invariant
            i <= members.len(),
            wanted@ == key@,
            spec_member(members@, key@) == spec_member(members@.skip(i as int), key@),
        decreases members.len() - i,
    {
        assert(members@.skip(i as int).drop_first() =~= members@.skip(i + 1));
        assert(members@.skip(i as int)[0] == members@[i as int]);
        if members[i].0 == wanted {
            return Some(&members[i].1);
        }
        i = i + 1;
    }
    None
}

/// What one element of `choices` contributes.
pub fn choice_content(choice: &Json) -> (r: Option<Option<String>>)
    ensures
        match r {
            Some(Some(content)) => spec_choice_content(*choice) == Some(Some(content@)),
            Some(None) => spec_choice_content(*choice) == Some(None::<Seq<char>>),
            None => spec_choice_content(*choice).is_none(),
        },
{
    let members = match choice {
        Json::Object(members) => members,
        _ => {
            return None;
        },
    };
    let delta = match member(members, "delta") {
        Some(Json::Object(delta)) => delta,
        _ => {
            return None;
        },
    };
    match member(delta, "content") {
        None => Some(None),
        Some(Json::Null) => Some(None),
        Some(Json::Str(content)) => Some(Some(content.clone())),
        Some(_) => None,
    }
}

/// The text fragments of one event, in order; `None` where the event does
/// not have the expected shape.
pub fn event_deltas(event: &Json) -> (r: Option<Vec<String>>)
    ensures
        match r {
            Some(deltas) => spec_event_deltas(*event) == Some(views(deltas@)),
            None => spec_event_deltas(*event).is_none(),
        },
{
    let members = match event {
        Json::Object(members) => members,
        _ => {
            return None;
        },
    };
    let choices = match member(members, "choices") {
        Some(Json::Array(choices)) => choices,
        _ => {
            return None;
        },
    };
    let mut deltas: Vec<String> = Vec::new();
    let mut i: usize = 0;
    assert(views(deltas@) =~= Seq::<Seq<char>>::empty());
    while i < choices.len()
        invariant
            i <= choices.len(),
            spec_event_deltas(*event) == spec_choices_deltas(choices@),
            spec_choices_deltas(choices@.take(i as int)) == Some(views(deltas@)),
        decreases choices.len() - i,
    {
        assert(choices@.take(i + 1).drop_last() =~= choices@.take(i as int));
        let ghost before = views(deltas@);
        match choice_content(&choices[i]) {
            Some(Some(content)) => {
                deltas.push(content);
                assert(views(deltas@) =~= before.push(content@));
            },
            Some(None) => {},
            None => {
                proof {
                    lemma_malformed_choice(choices@, i as int);
                }
                return None;
            },
        }
        i = i + 1;
    }
    assert(choices@.take(i as int) =~= choices@);
    Some(deltas)
}

/// One malformed element makes the whole list malformed.
pub proof fn lemma_malformed_choice(choices: Seq<Json>, i: int)
    requires
        0 <= i < choices.len(),
        spec_choice_content(choices[i]).is_none(),
    ensures
        spec_choices_deltas(choices).is_none(),
    decreases choices.len(),
{
    if i < choices.len() - 1 {
        lemma_malformed_choice(choices.drop_last(), i);
    }
}

} // verus!
