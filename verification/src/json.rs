//! JSON payloads carried by actors and change events.
//!
//! The store never looks inside a JSON value: it only moves and copies it.
//! The value type of `serde_json` is therefore declared opaque here.
use vstd::prelude::*;

verus! {

/// `serde_json::Value`, declared so that it can stand in fields and
/// signatures; nothing inside a value is visible to the verifier.
#[verifier::external_type_specification]
#[verifier::external_body]
pub struct ExJsonValue(serde_json::Value);

/// Copies a JSON value with `<serde_json::Value as Clone>::clone`.
///
/// Trusted: the derived `Clone` of `serde_json::Value` builds a tree equal
/// to the one it copies, so the copy is taken to be the same value.
#[verifier::external_body]
pub fn clone_json(v: &serde_json::Value) -> (r: serde_json::Value)
    ensures
        r == *v,
{
    v.clone()
}

} // verus!
