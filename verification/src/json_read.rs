//! Reading members of a JSON text. Parsing and serializing are done by
//! `serde_json`; each reader parses the text and looks one member up.

use vstd::prelude::*;

verus! {


/// What the JSON text `text` holds under the top-level key `key` as a signed
/// integer, if it parses, is an object, has the key and the member is one.
pub uninterp spec fn json_i64_field(text: Seq<char>, key: Seq<char>) -> Option<i64>;

/// As `json_i64_field`, for an unsigned integer.
pub uninterp spec fn json_u64_field(text: Seq<char>, key: Seq<char>) -> Option<u64>;

/// As `json_i64_field`, for a string.
pub uninterp spec fn json_str_field(text: Seq<char>, key: Seq<char>) -> Option<Seq<char>>;

/// The JSON text of the member under the top-level key `key`.
pub uninterp spec fn json_member_text(text: Seq<char>, key: Seq<char>) -> Option<Seq<char>>;

/// The items of the array under the top-level key `key`, each as a string
/// where it is one.
pub uninterp spec fn json_str_items(text: Seq<char>, key: Seq<char>) -> Option<
    Seq<Option<Seq<char>>>,
>;

pub open spec fn opt_text_view(o: Option<String>) -> Option<Seq<char>> {
    match o {
        Some(s) => Some(s@),
        None => None,
    }
}

/// Parses `text` with `serde_json::from_str::<Value>`, then `Value::get(key)`
/// and `Value::as_i64`; the result is the named `json_i64_field`.
#[verifier::external_body]
pub(crate) fn read_i64_field(text: &str, key: &str) -> (r: Option<i64>)
    ensures
        r == json_i64_field(text@, key@),
{
    serde_json::from_str::<serde_json::Value>(text).ok()?.get(key)?.as_i64()
}

/// Parses `text` with `serde_json::from_str::<Value>`, then `Value::get(key)`
/// and `Value::as_u64`; the result is the named `json_u64_field`.
#[verifier::external_body]
pub(crate) fn read_u64_field(text: &str, key: &str) -> (r: Option<u64>)
    ensures
        r == json_u64_field(text@, key@),
{
    serde_json::from_str::<serde_json::Value>(text).ok()?.get(key)?.as_u64()
}

/// Parses `text` with `serde_json::from_str::<Value>`, then `Value::get(key)`
/// and `Value::as_str`; the result is the named `json_str_field`.
#[verifier::external_body]
pub(crate) fn read_str_field(text: &str, key: &str) -> (r: Option<String>)
    ensures
        opt_text_view(r) == json_str_field(text@, key@),
{
    serde_json::from_str::<serde_json::Value>(text).ok()?.get(key)?.as_str().map(|s| s.to_string())
}

/// Parses `text` with `serde_json::from_str::<Value>`, then `Value::get(key)`,
/// and writes the member back with `Value::to_string`; the result is the
/// named `json_member_text`.
#[verifier::external_body]
pub(crate) fn read_member_text(text: &str, key: &str) -> (r: Option<String>)
    ensures
        opt_text_view(r) == json_member_text(text@, key@),
{
    serde_json::from_str::<serde_json::Value>(text).ok()?.get(key).map(|m| m.to_string())
}

/// Parses `text` with `serde_json::from_str::<Value>`, then `Value::get(key)`,
/// `Value::as_array` and `Value::as_str` on each item; the result is the named
/// `json_str_items`.
#[verifier::external_body]
pub(crate) fn read_str_items(text: &str, key: &str) -> (r: Option<Vec<Option<String>>>)
    ensures
        match r {
            Some(v) => json_str_items(text@, key@) == Some(
                v@.map_values(|o: Option<String>| opt_text_view(o)),
            ),
            None => json_str_items(text@, key@) is None,
        },
{
    let v = serde_json::from_str::<serde_json::Value>(text).ok()?;
    let items = v.get(key)?.as_array()?;
    Some(items.iter().map(|x| x.as_str().map(|s| s.to_string())).collect())
}

/// The JSON text of the first item of the array under the top-level key `key`.
pub uninterp spec fn json_first_item_text(text: Seq<char>, key: Seq<char>) -> Option<Seq<char>>;

/// The JSON text of the member under the top-level key `key`, when that
/// member is an object.
pub uninterp spec fn json_object_member_text(text: Seq<char>, key: Seq<char>) -> Option<Seq<char>>;

/// `text` parses as JSON and is an object.
pub uninterp spec fn json_is_object(text: Seq<char>) -> bool;

/// `text` parsed and written back compactly.
pub uninterp spec fn json_compact_text(text: Seq<char>) -> Option<Seq<char>>;

/// Parses `text` with `serde_json::from_str::<Value>`, then `Value::get(key)`,
/// `Value::as_array` and the first item, written back with `Value::to_string`;
/// the result is the named `json_first_item_text`.
#[verifier::external_body]
pub(crate) fn read_first_item_text(text: &str, key: &str) -> (r: Option<String>)
    ensures
        opt_text_view(r) == json_first_item_text(text@, key@),
{
    let v = serde_json::from_str::<serde_json::Value>(text).ok()?;
    v.get(key)?.as_array()?.first().map(|x| x.to_string())
}

/// Parses `text` with `serde_json::from_str::<Value>`, then `Value::get(key)`
/// and, when it is an object (`Value::is_object`), writes it back with
/// `Value::to_string`; the result is the named `json_object_member_text`.
#[verifier::external_body]
pub(crate) fn read_object_member_text(text: &str, key: &str) -> (r: Option<String>)
    ensures
        opt_text_view(r) == json_object_member_text(text@, key@),
{
    let v = serde_json::from_str::<serde_json::Value>(text).ok()?;
    v.get(key).filter(|m| m.is_object()).map(|m| m.to_string())
}

/// Parses `text` with `serde_json::from_str::<Value>` and writes it back with
/// `Value::to_string`; the result is the named `json_compact_text`.
#[verifier::external_body]
pub(crate) fn compact_json(text: &str) -> (r: Option<String>)
    ensures
        opt_text_view(r) == json_compact_text(text@),
{
    serde_json::from_str::<serde_json::Value>(text).ok().map(|v| v.to_string())
}

/// Parses `text` with `serde_json::from_str::<Value>` and asks
/// `Value::is_object`; false when it does not parse. The result is the named
/// `json_is_object`.
#[verifier::external_body]
pub(crate) fn read_is_object(text: &str) -> (r: bool)
    ensures
        r == json_is_object(text@),
{
    serde_json::from_str::<serde_json::Value>(text).map(|v| v.is_object()).unwrap_or(false)
}

} // verus!
