use vstd::prelude::*;

pub mod api;
pub mod bayes;
pub mod profile;
pub mod rank;
pub mod reaction;
pub mod vocab;

verus! {

} // verus!
