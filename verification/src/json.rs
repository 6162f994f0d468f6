//! JSON documents as the library reads them.
//!
//! A reply of the API is parsed by `serde_json` and held as a `JsonValue`:
//! each node keeps its kind, its children in the order `serde_json` keeps
//! them (object members sorted by key), and the compact text that
//! `serde_json` writes for it. The lookups below behave as `serde_json`'s
//! indexing does: a missing member, or a member looked up in something that
//! is not an object, reads as JSON `null`.
use vstd::prelude::*;

use crate::text::{chars_of, same_chars};

verus! {

/// The kind of a JSON node and its children.
#[derive(Debug)]
pub enum JsonNode {
    Null,
    Bool(bool),
    Number,
    Str(String),
    Array(Vec<JsonValue>),
    Object(Vec<(String, JsonValue)>),
}

/// A JSON node with the compact text that `serde_json` writes for it.
#[derive(Debug)]
pub struct JsonValue {
    pub node: JsonNode,
    pub text: String,
}

#[verifier::external_type_specification]
#[verifier::external_body]
pub struct ExJsonError(serde_json::Error);

#[verifier::external_type_specification]
#[verifier::external_body]
pub struct ExSerdeJsonValue(serde_json::Value);

/// The document that `serde_json` reads from a text, or `None` when
/// `serde_json` refuses the text (it is not one JSON value, or it nests
/// deeper than `serde_json` allows).
pub uninterp spec fn json_document(text: Seq<char>) -> Option<JsonValue>;

/// Turns a value parsed by `serde_json` into the library's tree: the
/// variant of each node (a number keeps no value of its own, only its
/// text), its children in the order `serde_json` holds them, and the text
/// that `serde_json`'s `Display` (`to_string`) writes for the node.
/// Nothing is stated of the result here; `parse_json` names it.
#[verifier::external_body]
fn json_tree(v: &serde_json::Value) -> JsonValue {
    let node = match v {
        serde_json::Value::Null => JsonNode::Null,
        serde_json::Value::Bool(b) => JsonNode::Bool(*b),
        serde_json::Value::Number(_) => JsonNode::Number,
        serde_json::Value::String(s) => JsonNode::Str(s.clone()),
        serde_json::Value::Array(a) => JsonNode::Array(a.iter().map(json_tree).collect()),
        serde_json::Value::Object(m) => JsonNode::Object(
            m.iter().map(|(k, x)| (k.clone(), json_tree(x))).collect(),
        ),
    };
    JsonValue { node, text: v.to_string() }
}

/// `serde_json::from_str::<serde_json::Value>`: reads one JSON value from a
/// text. It succeeds exactly when `json_document` has a document for the
/// text, and then gives that document; the error's contents are not
/// stated.
#[verifier::external_body]
pub(crate) fn parse_json(text: &str) -> (res: Result<JsonValue, serde_json::Error>)
    ensures
        res is Ok <==> json_document(text@) is Some,
        res matches Ok(v) ==> json_document(text@) == Some(v),
{
    serde_json::from_str::<serde_json::Value>(text).map(|v| json_tree(&v))
}

/// The value of the first member named `key` among `entries`.
pub open spec fn entry_named(entries: Seq<(String, JsonValue)>, key: Seq<char>) -> Option<
    JsonValue,
>
    decreases entries.len(),
{
    if entries.len() == 0 {
        None
    } else if entries[0].0@ == key {
        Some(entries[0].1)
    } else {
        entry_named(entries.drop_first(), key)
    }
}

/// The member `key` of `v`, if `v` is an object that has it.
pub open spec fn member(v: JsonValue, key: Seq<char>) -> Option<JsonValue> {
    match v.node {
        JsonNode::Object(entries) => entry_named(entries@, key),
        _ => None,
    }
}

/// The member `key` of a value that may be missing (`None` reads as
/// `null`, which has no members).
pub open spec fn member_of(v: Option<JsonValue>, key: Seq<char>) -> Option<JsonValue> {
    match v {
        Some(x) => member(x, key),
        None => None,
    }
}

/// The text of a string value.
pub open spec fn string_value(v: Option<JsonValue>) -> Option<Seq<char>> {
    match v {
        Some(x) => match x.node {
            JsonNode::Str(s) => Some(s@),
            _ => None,
        },
        None => None,
    }
}

/// The elements of an array value.
pub open spec fn array_items(v: Option<JsonValue>) -> Option<Seq<JsonValue>> {
    match v {
        Some(x) => match x.node {
            JsonNode::Array(items) => Some(items@),
            _ => None,
        },
        None => None,
    }
}

/// The compact text of a value; a missing value is `null`.
pub open spec fn compact_text(v: Option<JsonValue>) -> Seq<char> {
    match v {
        Some(x) => x.text@,
        None => seq!['n', 'u', 'l', 'l'],
    }
}

/// A borrowed value that may be missing, as a value.
pub open spec fn present(v: Option<&JsonValue>) -> Option<JsonValue> {
    match v {
        Some(x) => Some(*x),
        None => None,
    }
}

/// The member `key` of `v`, if `v` is an object that has it
/// (`Value::get` with a string key).
pub fn get_member<'a>(v: &'a JsonValue, key: &str) -> (res: Option<&'a JsonValue>)
    ensures
        res is None <==> member(*v, key@) is None,
        res matches Some(x) ==> member(*v, key@) == Some(*x),
{
    match &v.node {
        JsonNode::Object(entries) => {
            let key_chars = chars_of(key);
            let mut i: usize = 0;
            assert(entries@.skip(0) =~= entries@);
            while i < entries.len()
                invariant
                    i <= entries.len(),
                    key_chars@ == key@,
                    member(*v, key@) == entry_named(entries@.skip(i as int), key@),
                decreases entries.len() - i,
            {
                let name_chars = chars_of(entries[i].0.as_str());
                assert(entries@.skip(i as int)[0] == entries@[i as int]);
                if same_chars(&name_chars, &key_chars) {
                    return Some(&entries[i].1);
                }
                assert(entries@.skip(i as int).drop_first() =~= entries@.skip(i + 1));
                i = i + 1;
            }
            None
        },
        _ => None,
    }
}

/// The member `key` of a value that may be missing (`value[key]`).
pub fn get_member_of<'a>(v: Option<&'a JsonValue>, key: &str) -> (res: Option<&'a JsonValue>)
    ensures
        res is None <==> member_of(present(v), key@) is None,
        res matches Some(x) ==> member_of(present(v), key@) == Some(*x),
{
    match v {
        Some(x) => get_member(x, key),
        None => None,
    }
}

/// The text of a string value (`Value::as_str`).
pub fn as_string<'a>(v: Option<&'a JsonValue>) -> (res: Option<&'a str>)
    ensures
        res is None <==> string_value(present(v)) is None,
        res matches Some(s) ==> string_value(present(v)) == Some(s@),
{
    match v {
        Some(x) => match &x.node {
            JsonNode::Str(s) => Some(s.as_str()),
            _ => None,
        },
        None => None,
    }
}

/// The elements of an array value (`Value::as_array`).
pub fn as_items<'a>(v: Option<&'a JsonValue>) -> (res: Option<&'a Vec<JsonValue>>)
    ensures
        res is None <==> array_items(present(v)) is None,
        res matches Some(items) ==> array_items(present(v)) == Some(items@),
{
    match v {
        Some(x) => match &x.node {
            JsonNode::Array(items) => Some(items),
            _ => None,
        },
        None => None,
    }
}

/// The compact text of a value, `null` when it is missing
/// (`Value::to_string`).
pub fn text_of(v: Option<&JsonValue>) -> (res: String)
    ensures
        res@ == compact_text(present(v)),
{
    match v {
        Some(x) => x.text.clone(),
        None => {
            let s = String::from_str("null");
            proof {
                reveal_strlit("null");
            }
            s
        },
    }
}

} // verus!
