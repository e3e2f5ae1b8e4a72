//! Reading filter settings out of a JSON parameter string.
use vstd::prelude::*;

verus! {

/// The unsigned integer that serde_json reads at `key` of the JSON object
/// `text`, or `None` where `text` is no JSON, holds no object, lacks `key`, or
/// holds there no integer in `u64`.
pub uninterp spec fn json_u64_at(text: Seq<char>, key: Seq<char>) -> Option<u64>;

/// The boolean that serde_json reads at `key` of the JSON object `text`, or
/// `None` where `text` is no JSON, holds no object, lacks `key`, or holds there
/// no boolean.
pub uninterp spec fn json_bool_at(text: Seq<char>, key: Seq<char>) -> Option<bool>;

/// Relies on `serde_json::from_str` into a `serde_json::Value`, then
/// `Value::get` and `Value::as_u64`: the integer field `key` of the JSON object
/// in `text`, which depends on the two strings alone.
#[verifier::external_body]
pub(crate) fn read_u64_field(text: &str, key: &str) -> (r: Option<u64>)
    ensures
        r == json_u64_at(text@, key@),
{
    match serde_json::from_str::<serde_json::Value>(text) {
        Ok(v) => v.get(key).and_then(serde_json::Value::as_u64),
        Err(_) => None,
    }
}

/// Relies on `serde_json::from_str` into a `serde_json::Value`, then
/// `Value::get` and `Value::as_bool`: the boolean field `key` of the JSON object
/// in `text`, which depends on the two strings alone.
#[verifier::external_body]
pub(crate) fn read_bool_field(text: &str, key: &str) -> (r: Option<bool>)
    ensures
        r == json_bool_at(text@, key@),
{
    match serde_json::from_str::<serde_json::Value>(text) {
        Ok(v) => v.get(key).and_then(serde_json::Value::as_bool),
        Err(_) => None,
    }
}

} // verus!
