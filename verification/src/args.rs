//! Job arguments.
//!
//! A job carries an opaque structured value (JSON-shaped) that only its
//! processor can interpret. The core never looks inside it; it is stored,
//! cloned and handed back exactly as it came in.

use vstd::prelude::*;

verus! {

/// `serde_json::Value`, the opaque argument payload of a job.
#[verifier::external_type_specification]
#[verifier::external_body]
pub struct ExValue(serde_json::Value);

/// Relies on serde_json's derived `Clone` for `Value`: the clone equals the
/// original value.
pub assume_specification[ <serde_json::Value as Clone>::clone ](v: &serde_json::Value) -> (r:
    serde_json::Value)
    ensures
        r == *v,
;

} // verus!
