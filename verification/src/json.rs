//! JSON documents, read by `serde_json`.
//!
//! The parser and the document tree are `serde_json`'s. What the library
//! knows of a document is its model, `Json`, and what `serde_json`'s
//! accessors return of it.

use vstd::prelude::*;

verus! {

/// `serde_json::Value`, a parsed JSON document, kept as `serde_json` made it.
#[verifier::external_type_specification]
#[verifier::external_body]
pub struct ExValue(serde_json::Value);

/// The model of a JSON document.
pub enum Json {
    Null,
    Bool(bool),
    /// A number; it carries its value where that is a whole number from 0 to
    /// 2^64 - 1.
    Number(Option<u64>),
    Text(Seq<char>),
    Array(Seq<Json>),
    /// An object: its members, each with its key.
    Object(Seq<(Seq<char>, Json)>),
}

/// The document that a `serde_json::Value` holds.
pub uninterp spec fn json_of(value: serde_json::Value) -> Json;

/// The document that `serde_json` reads from a text, if it reads one.
pub uninterp spec fn parsed_json(text: Seq<char>) -> Option<Json>;

/// The first member of `members` with the key `key`.
pub open spec fn member(members: Seq<(Seq<char>, Json)>, key: Seq<char>) -> Option<Json>
    decreases members.len(),
{
    if members.len() == 0 {
        None
    } else if members[0].0 == key {
        Some(members[0].1)
    } else {
        member(members.drop_first(), key)
    }
}

/// The member `key` of a document that is an object.
pub open spec fn field(json: Json, key: Seq<char>) -> Option<Json> {
    match json {
        Json::Object(members) => member(members, key),
        _ => None,
    }
}

/// A member of an object is a part of the object.
pub proof fn lemma_member_is_part(members: Seq<(Seq<char>, Json)>, key: Seq<char>)
    ensures
        member(members, key) matches Some(found) ==> decreases_to!(members => found),
    decreases members.len(),
{
    if members.len() > 0 {
        if members[0].0 == key {
            assert(decreases_to!(members => members[0]));
            assert(decreases_to!(members[0] => members[0].1));
        } else {
            lemma_member_is_part(members.drop_first(), key);
            if member(members.drop_first(), key) is Some {
                assert(members.drop_first() == members.subrange(1, members.len() as int));
                assert(decreases_to!(members => members.subrange(1, members.len() as int)));
            }
        }
    }
}

/// The documents that a sequence of values holds.
pub open spec fn jsons_of(values: Seq<serde_json::Value>) -> Seq<Json> {
    values.map_values(|v: serde_json::Value| json_of(v))
}

/// `serde_json::from_str` at `serde_json::Value`: the document that the text
/// holds, or nothing where the text is no JSON document. The result depends
/// on the text alone.
#[verifier::external_body]
pub(crate) fn parse(text: &str) -> (r: Option<serde_json::Value>)
    ensures
        parsed_json(text@) == match r {
            Some(value) => Some(json_of(value)),
            None => None,
        },
{
    serde_json::from_str::<serde_json::Value>(text).ok()
}

/// `serde_json::Value::get` with a string: the member of that key where the
/// value is an object that has one.
#[verifier::external_body]
pub(crate) fn get<'a>(value: &'a serde_json::Value, key: &str) -> (r: Option<&'a serde_json::Value>)
    ensures
        field(json_of(*value), key@) == match r {
            Some(found) => Some(json_of(*found)),
            None => None,
        },
{
    value.get(key)
}

/// `serde_json::Value::as_str`: the text where the value is a string.
#[verifier::external_body]
pub(crate) fn as_str<'a>(value: &'a serde_json::Value) -> (r: Option<&'a str>)
    ensures
        match json_of(*value) {
            Json::Text(text) => r matches Some(s) && s@ == text,
            _ => r is None,
        },
{
    value.as_str()
}

/// `serde_json::Value::as_u64`: the number where the value is a whole number
/// that fits in 64 bits without a sign.
#[verifier::external_body]
pub(crate) fn as_u64(value: &serde_json::Value) -> (r: Option<u64>)
    ensures
        r == match json_of(*value) {
            Json::Number(n) => n,
            _ => None,
        },
{
    value.as_u64()
}

/// `serde_json::Value::as_array`: the elements where the value is an array.
#[verifier::external_body]
pub(crate) fn as_array<'a>(value: &'a serde_json::Value) -> (r: Option<&'a Vec<serde_json::Value>>)
    ensures
        match json_of(*value) {
            Json::Array(items) => r matches Some(values) && jsons_of(values@) == items,
            _ => r is None,
        },
{
    value.as_array()
}

/// `serde_json::Value::is_null`.
#[verifier::external_body]
pub(crate) fn is_null(value: &serde_json::Value) -> (r: bool)
    ensures
        r == (json_of(*value) is Null),
{
    value.is_null()
}

} // verus!
