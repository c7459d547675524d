//! Outside types that the library carries through without looking inside.

use vstd::prelude::*;

verus! {

/// `anyhow::Error`, declared so that a signature can name it. Verus sees
/// nothing inside it, and nothing is claimed of it.
#[verifier::external_type_specification]
#[verifier::external_body]
pub struct ExAnyhowError(anyhow::Error);

/// `serde_json::Value`, declared so that telemetry payloads can carry it.
/// Verus sees nothing inside it, and nothing is claimed of it.
#[verifier::external_type_specification]
#[verifier::external_body]
pub struct ExJsonValue(serde_json::Value);

} // verus!
