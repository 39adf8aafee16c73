use vstd::prelude::*;

pub mod error;
pub mod number;
pub mod token;
pub mod variable;
pub mod engine;
pub mod validation;

verus! {

} // verus!
