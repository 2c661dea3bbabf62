//! The JSON values the format carries without interpreting them.
//!
//! A document keeps every field it does not model, and several
//! fields it does model are free-form objects. Those stay `serde_json`
//! objects here; the library reads nothing from them but the string held
//! under a given key.

use vstd::prelude::*;

verus! {

#[verifier::external_type_specification]
#[verifier::external_body]
#[verifier::reject_recursive_types(K)]
#[verifier::reject_recursive_types(V)]
pub struct ExJsonMap<K, V>(serde_json::Map<K, V>);

#[verifier::external_type_specification]
#[verifier::external_body]
pub struct ExJsonValue(serde_json::Value);

/// A JSON object, in the key order it was read in.
pub type JsonObject = serde_json::Map<String, serde_json::Value>;

/// What an object holds, as far as this library reads it: for each key, the
/// string stored there, or `None` where the value is not a JSON string.
pub uninterp spec fn json_object_strings(
    object: serde_json::Map<String, serde_json::Value>,
) -> Map<Seq<char>, Option<Seq<char>>>;

/// The string stored under `key`, if the key is present and holds a string.
pub open spec fn string_entry(object: JsonObject, key: Seq<char>) -> Option<Seq<char>> {
    if json_object_strings(object).dom().contains(key) {
        json_object_strings(object)[key]
    } else {
        None
    }
}

/// `serde_json::Map::get` followed by `serde_json::Value::as_str`: the string
/// under `key`, or `None` when the key is absent or its value is not a
/// string. Both are plain lookups in the source, with no other effect.
#[verifier::external_body]
pub fn object_get_str<'a>(object: &'a JsonObject, key: &str) -> (r: Option<&'a str>)
    ensures
        match r {
            Some(s) => json_object_strings(*object).dom().contains(key@)
                && json_object_strings(*object)[key@] == Some(s@),
            None => !json_object_strings(*object).dom().contains(key@)
                || json_object_strings(*object)[key@] is None,
        },
{
    match object.get(key) {
        Some(value) => value.as_str(),
        None => None,
    }
}

/// `Clone::clone` on `serde_json::Map<String, Value>`, which clones the
/// underlying map entry by entry: the copy is the same object.
pub assume_specification[ <serde_json::Map<String, serde_json::Value> as Clone>::clone ](
    object: &serde_json::Map<String, serde_json::Value>,
) -> (r: serde_json::Map<String, serde_json::Value>)
    ensures
        r == *object,
;

/// `PartialEq::eq` on `str`: equal exactly when the characters are equal.
#[verifier::external_body]
pub fn str_eq(a: &str, b: &str) -> (r: bool)
    ensures
        r == (a@ == b@),
{
    a == b
}

} // verus!
