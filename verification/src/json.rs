//! What the endpoint's answers hold, read from their JSON values.
//!
//! A JSON value arrives as a `serde_json::Value`. Its mathematical model is
//! [`Json`]; the contracts of this module say what is read from a value in
//! terms of that model.

use vstd::prelude::*;

verus! {

/// A JSON value. Of a number only that it is one is kept: nothing here
/// reads numbers.
pub enum Json {
    Null,
    Bool(bool),
    Number,
    Text(Seq<char>),
    Array(Seq<Json>),
    Object(Map<Seq<char>, Json>),
}

/// `serde_json::Value`, a JSON value. Nothing is known of what is inside one
/// but through the functions below.
#[verifier::external_type_specification]
#[verifier::external_body]
pub struct ExValue(serde_json::Value);

/// `serde_json::Error`, which says why a text is no JSON value. It is only
/// ever passed on or dropped.
#[verifier::external_type_specification]
#[verifier::external_body]
pub struct ExJsonError(serde_json::Error);

/// What a `serde_json::Value` holds.
pub uninterp spec fn json_view(v: serde_json::Value) -> Json;

/// The JSON value that `text` denotes as `serde_json::from_str` reads it;
/// `None` where it reads none.
pub uninterp spec fn json_of(text: Seq<char>) -> Option<Json>;

/// What each of the values in `items` holds.
pub open spec fn json_views(items: Seq<serde_json::Value>) -> Seq<Json> {
    Seq::new(items.len(), |i: int| json_view(items[i]))
}

/// `serde_json::Value::as_str`. Trusted: the result is the text of a value
/// that is a string, and `None` for any other value.
pub assume_specification<'a>[ serde_json::Value::as_str ](v: &'a serde_json::Value) -> (r: Option<
    &'a str,
>)
    ensures
        match r {
            Some(s) => json_view(*v) == Json::Text(s@),
            None => !(json_view(*v) is Text),
        },
;

/// `serde_json::Value::as_array`. Trusted: the result is the vector of the
/// elements of a value that is an array, and `None` for any other value.
pub assume_specification<'a>[ serde_json::Value::as_array ](v: &'a serde_json::Value) -> (r: Option<
    &'a Vec<serde_json::Value>,
>)
    ensures
        match r {
            Some(items) => json_view(*v) == Json::Array(json_views(items@)),
            None => !(json_view(*v) is Array),
        },
;

/// `serde_json::Value::get` with a string as the index. Trusted: the result
/// is the member under `key` of a value that is an object and has such a
/// member, and `None` for any other value.
#[verifier::external_body]
pub(crate) fn member<'a>(v: &'a serde_json::Value, key: &str) -> (r: Option<&'a serde_json::Value>)
    ensures
        match r {
            Some(m) => member_of(json_view(*v), key@) == Some(json_view(*m)),
            None => member_of(json_view(*v), key@) is None,
        },
{
    v.get(key)
}

/// `serde_json::from_str` at the type `serde_json::Value`. Trusted: the
/// result is a value that holds what [`json_of`] names, or an error where
/// that is `None`.
#[verifier::external_body]
pub(crate) fn parse_value(text: &str) -> (r: Result<serde_json::Value, serde_json::Error>)
    ensures
        match r {
            Ok(v) => json_of(text@) == Some(json_view(v)),
            Err(_) => json_of(text@) is None,
        },
{
    serde_json::from_str::<serde_json::Value>(text)
}

/// The member of `j` under `key`: `None` where `j` is no object or has no
/// such member.
pub open spec fn member_of(j: Json, key: Seq<char>) -> Option<Json> {
    match j {
        Json::Object(members) => if members.contains_key(key) {
            Some(members[key])
        } else {
            None
        },
        _ => None,
    }
}

/// The text of `j`: `None` where `j` is no string.
pub open spec fn text_of(j: Json) -> Option<Seq<char>> {
    match j {
        Json::Text(s) => Some(s),
        _ => None,
    }
}

/// The first element of `j`: `None` where `j` is no array or is empty.
pub open spec fn first_of(j: Json) -> Option<Json> {
    match j {
        Json::Array(items) => if items.len() > 0 {
            Some(items[0])
        } else {
            None
        },
        _ => None,
    }
}

/// The text at `choices[0].<part>.content` in `j`, where `j` has it and it
/// is a string.
pub open spec fn choice_content(j: Json, part: Seq<char>) -> Option<Seq<char>> {
    match member_of(j, "choices"@) {
        Some(choices) => match first_of(choices) {
            Some(choice) => match member_of(choice, part) {
                Some(inner) => match member_of(inner, "content"@) {
                    Some(content) => text_of(content),
                    None => None,
                },
                None => None,
            },
            None => None,
        },
        None => None,
    }
}

/// The piece of text that a frame of a streamed answer adds:
/// `choices[0].delta.content`.
pub open spec fn delta_content(j: Json) -> Option<Seq<char>> {
    choice_content(j, "delta"@)
}

/// The text of an answer that came in one piece:
/// `choices[0].message.content`, and the empty text where that is missing.
pub open spec fn message_content(j: Json) -> Seq<char> {
    match choice_content(j, "message"@) {
        Some(text) => text,
        None => Seq::empty(),
    }
}

/// Reads `choices[0].<part>.content` from `v`.
pub fn read_choice_content<'a>(v: &'a serde_json::Value, part: &str) -> (r: Option<&'a str>)
    ensures
        match r {
            Some(s) => choice_content(json_view(*v), part@) == Some(s@),
            None => choice_content(json_view(*v), part@) is None,
        },
{
    let choices = match member(v, "choices") {
        Some(m) => m,
        None => { return None; },
    };
    let items = match choices.as_array() {
        Some(items) => items,
        None => { return None; },
    };
    if items.len() == 0 {
        return None;
    }
    let inner = match member(&items[0], part) {
        Some(m) => m,
        None => { return None; },
    };
    match member(inner, "content") {
        Some(content) => content.as_str(),
        None => None,
    }
}

/// The text of an answer that came in one piece.
pub fn read_message_content(v: &serde_json::Value) -> (text: String)
    ensures
        text@ == message_content(json_view(*v)),
{
    match read_choice_content(v, "message") {
        Some(s) => s.to_owned(),
        None => String::new(),
    }
}

} // verus!
