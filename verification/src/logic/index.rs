//! Cell indices and their helper methods.
use vstd::prelude::*;

use crate::bitboard::Bitboard;
use crate::logic::lookup::{NEIGHBOURS1, NEIGHBOURS2};

verus! {

/// A cell index is represented as a usize.
pub type CellIndex = usize;

/// Bit width of a move index
pub const INDEX_WIDTH: usize = 8;
/// Value of a null index contained in a move
pub const INDEX_NULL: usize = 0xFFusize;
/// Mask to get the first index of a move (rightmost)
pub const INDEX_MASK: u32 = 0xFFu32;

/// Cell index trait for usize
pub trait CellIndexTrait: Copy {
    /// Returns true if the index if a null index (0xFF)
    fn is_null(self) -> bool;
    /// Returns true if the index is in the first row on white's side
    fn is_white_home(self) -> bool;
    /// Returns true if the index is in the first row on black's side
    fn is_black_home(self) -> bool;
}

impl CellIndexTrait for usize {
    #[inline(always)]
    fn is_null(self) -> (r: bool)
        ensures
            r == (self == INDEX_NULL),
    {
        self == INDEX_NULL
    }

    #[inline(always)]
    fn is_white_home(self) -> (r: bool)
        ensures
            r == (self >= 39),
    {
        self >= 39
    }

    #[inline(always)]
    fn is_black_home(self) -> (r: bool)
        ensures
            r == (self <= 5),
    {
        self <= 5
    }
}

/// Returns the bitboard of the 1-range neighbours of this index
#[inline(always)]
pub fn neighbours1(index: CellIndex) -> (r: Bitboard)
    requires
        index < 64,
    ensures
        r.0 == NEIGHBOURS1[index as int],
{
    Bitboard(NEIGHBOURS1[index])
}

/// Returns the bitboard of the 2-range neighbours of this index
#[inline(always)]
pub fn neighbours2(index: CellIndex) -> (r: Bitboard)
    requires
        index < 64,
    ensures
        r.0 == NEIGHBOURS2[index as int],
{
    Bitboard(NEIGHBOURS2[index])
}

} // verus!
