use vstd::prelude::*;

verus! {

/// Relies on `serde_json::Value` as the type of metadata values: any JSON
/// value, which this library stores and compares but never looks into.
#[verifier::external_type_specification]
#[verifier::external_body]
pub struct ExValue(serde_json::Value);

} // verus!
