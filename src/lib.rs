// Checks JSON documents against a small schema language (integer and string fields,
// references into the schema, required fields) before they are stored as plans.
use vstd::prelude::*;

pub mod json;
pub mod plan;
pub mod pointer;
pub mod validator;

verus! {

} // verus!
