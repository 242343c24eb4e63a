use vstd::prelude::*;

pub mod field;
pub mod variable;
pub mod lin_comb;
pub mod quad_comb;
pub mod laws;
pub mod text;

verus! {

} // verus!
