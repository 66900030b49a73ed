//! The JSON bodies exchanged between devices.

use crate::state::option_view;
use vstd::prelude::*;

verus! {

#[verifier::external_type_specification]
#[verifier::external_body]
pub struct ExJsonError(serde_json::Error);

/// The bytes `serde_json::to_vec` writes for the JSON object that maps
/// `key` to the string `value`.
pub uninterp spec fn json_object(key: Seq<char>, value: Seq<char>) -> Seq<u8>;

/// What `serde_json::from_slice::<serde_json::Value>` makes of `body`, read
/// as its `status` member: `None` when the body is not JSON, `Some(None)`
/// when it has no string member `status`, `Some(Some(s))` otherwise.
pub uninterp spec fn json_status(body: Seq<u8>) -> Option<Option<Seq<char>>>;

/// Builds a `serde_json::Value::Object` with the single string member
/// `key: value` and calls `serde_json::to_vec` on it. Trusted: the bytes are
/// the named encoding of that object (serializing such a value cannot fail,
/// so the empty default is never taken), and reading them back with
/// `serde_json::from_slice` gives the same object, so a `status` member is
/// read back as written. The bytes themselves are serde_json's writer and
/// are not stated.
#[verifier::external_body]
pub(crate) fn json_field(key: &str, value: &str) -> (b: Vec<u8>)
    ensures
        b@ == json_object(key@, value@),
        key@ == "status"@ ==> json_status(b@) == Some(Some(value@)),
{
    let mut map = serde_json::Map::new();
    map.insert(key.to_string(), serde_json::Value::String(value.to_string()));
    serde_json::to_vec(&serde_json::Value::Object(map)).unwrap_or_default()
}

/// Calls `serde_json::from_slice::<serde_json::Value>` and picks the
/// `status` member with `Value::index` and `Value::as_str`. Trusted: the
/// result is the named reading of the body, and an error comes exactly when
/// the body is not JSON.
#[verifier::external_body]
pub(crate) fn status_member(body: &[u8]) -> (r: Result<Option<String>, serde_json::Error>)
    ensures
        match r {
            Ok(s) => json_status(body@) == Some(option_view(s)),
            Err(_) => json_status(body@) is None,
        },
{
    match serde_json::from_slice::<serde_json::Value>(body) {
        Ok(value) => Ok(value["status"].as_str().map(str::to_string)),
        Err(error) => Err(error),
    }
}

} // verus!
