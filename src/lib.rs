use vstd::prelude::*;

pub mod laws;
pub mod names;
mod random;
pub mod resistance;

verus! {

} // verus!
