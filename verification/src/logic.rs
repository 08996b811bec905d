//! The game logic: cell indices, actions, rules, move generation, perft and notation.
use vstd::prelude::*;

use crate::piece::Piece;

pub mod actions;
pub mod index;
pub mod lookup;
pub mod movegen;
pub mod perft;
pub mod rules;
pub mod translate;

verus! {

/// The number of cells in a board
pub const N_CELLS: usize = 45;

/// A player is represented as a `u8`: `0u8` for White, and `1u8` for Black
pub type Player = u8;

/// A board represented as an array of 45 cells, each holding a `Piece`
pub type Cells = [Piece; N_CELLS];

/// Max number of half moves without capture before draw
pub const MAX_HALF_MOVES: u64 = 20;

} // verus!
