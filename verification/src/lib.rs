use vstd::prelude::*;

mod rng;
pub mod domain;
pub mod fitness;
pub mod engine;

verus! {

pub fn my_function() {
}

} // verus!
