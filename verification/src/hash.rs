//! Hashing of positions and the transposition table of the search.
use vstd::prelude::*;

pub mod position;
pub mod search;

verus! {

} // verus!
