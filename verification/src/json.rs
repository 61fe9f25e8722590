//! The JSON payloads that ride along with events.
//!
//! A served flag value is an arbitrary JSON document. The recorder never
//! looks inside one: it stores the document of the first event of a
//! variation as the counter's representative value and passes raw payloads
//! through to the packed batch. `serde_json::Value` is therefore declared
//! as an opaque type and only duplicated, never inspected.

use vstd::prelude::*;

verus! {

#[verifier::external_type_specification]
#[verifier::external_body]
pub struct ExValue(serde_json::Value);

/// Relies on `serde_json::Value`'s derived `Clone`: a deep copy that is
/// indistinguishable from the original document.
#[verifier::external_body]
pub fn clone_value(v: &serde_json::Value) -> (r: serde_json::Value)
    ensures
        r == *v,
{
    v.clone()
}

} // verus!
