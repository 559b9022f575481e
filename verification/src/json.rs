//! JSON values carried through the library without being read.
use vstd::prelude::*;

verus! {

/// `serde_json::Value`, held opaquely in fields of the library's types.
#[verifier::external_type_specification]
#[verifier::external_body]
pub struct ExJsonValue(serde_json::Value);

} // verus!
