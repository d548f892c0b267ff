//! Reading the cache directory out of the bytes that `pixi info --json`
//! printed.
//!
//! The bytes must form a JSON object carrying the string field `cache_dir`;
//! anything else is a decode failure. The parsing itself is serde_json's;
//! what it yields for given bytes and a given key is a fixed value, named
//! here by an uninterpreted function.

use vstd::prelude::*;

verus! {

/// What reading one string field of a JSON document yields: the field's
/// text when the bytes parse as JSON and carry the field as a string;
/// nothing otherwise.
pub uninterp spec fn json_str_field(json: Seq<u8>, key: Seq<char>) -> Option<Seq<char>>;

/// Relies on serde_json's `from_slice::<Value>`, `Value::get` and
/// `Value::as_str`: parsing bytes and reading one string field of the
/// resulting document, a function of the bytes and the key alone. `None`
/// covers bytes that are not JSON, a missing field, and a field that is
/// not a string.
#[verifier::external_body]
fn json_string_field(json: &[u8], key: &str) -> (r: Option<String>)
    ensures
        match r {
            Some(s) => json_str_field(json@, key@) == Some(s@),
            None => json_str_field(json@, key@) is None,
        },
{
    match serde_json::from_slice::<serde_json::Value>(json) {
        Ok(doc) => match doc.get(key) {
            Some(field) => field.as_str().map(|s| s.to_string()),
            None => None,
        },
        Err(_) => None,
    }
}

/// The cache directory announced by a `pixi info --json` document: its
/// string field `cache_dir`, when the bytes parse and carry one.
pub fn decode_cache_dir(json: &[u8]) -> (r: Option<String>)
    ensures
        match r {
            Some(s) => json_str_field(json@, "cache_dir"@) == Some(s@),
            None => json_str_field(json@, "cache_dir"@) is None,
        },
{
    json_string_field(json, "cache_dir")
}

} // verus!
