//! Pieces and their `u8` encoding.
//!
//! A cell holds one byte made of two nibbles: the top piece in the 4 least
//! significant bits and the bottom piece (possibly absent) in the 4 most
//! significant bits. Each nibble reads `PCTT`:
//!
//! * `P` is set as long as there is a piece,
//! * `C` is the colour (0 for white, 1 for black),
//! * `TT` is the type (scissors, paper, rock, wise).
//!
//! With `P` set, the 3 low bits `CTT` of a nibble are the index of the
//! bitboard that holds this kind of piece (see [`crate::bitboard::Board`]).
use vstd::prelude::*;

verus! {

/// A piece (or a stack of two pieces) is stored as a `u8`.
pub type Piece = u8;

/// Bit width of a half piece
pub const HALF_PIECE_WIDTH: usize = 4;

/// Mandatory bit on pieces
pub const PIECE_BIT: u8 = 0b1000u8;
/// Mask to get the piece colour
pub const COLOUR_MASK: u8 = 0b0100u8;
/// Mask to get the piece type
pub const TYPE_MASK: u8 = 0b0011u8;
/// Mask to get the top piece
pub const TOP_MASK: u8 = 0b1111u8;

/// Empty cell value
pub const CELL_EMPTY: u8 = 0x00u8;
/// Cell value above which the cell contained inside is a stack
pub const STACK_THRESHOLD: u8 = 16u8;

/// White piece after applying the colour mask
pub const COLOUR_WHITE: u8 = 0b0000u8;
/// Black piece after applying the colour mask
pub const COLOUR_BLACK: u8 = 0b0100u8;

/// Scissors piece after applying the type mask
pub const TYPE_SCISSORS: u8 = 0b0000u8;
/// Paper piece after applying the type mask
pub const TYPE_PAPER: u8 = 0b0001u8;
/// Rock piece after applying the type mask
pub const TYPE_ROCK: u8 = 0b0010u8;
/// Wise piece after applying the type mask
pub const TYPE_WISE: u8 = 0b0011u8;

/// White Scissors
pub const WHITE_SCISSORS: u8 = 0b1000u8;
/// White Paper
pub const WHITE_PAPER: u8 = 0b1001u8;
/// White Rock
pub const WHITE_ROCK: u8 = 0b1010u8;
/// White Wise
pub const WHITE_WISE: u8 = 0b1011u8;
/// Black Scissors
pub const BLACK_SCISSORS: u8 = 0b1100u8;
/// Black Paper
pub const BLACK_PAPER: u8 = 0b1101u8;
/// Black Rock
pub const BLACK_ROCK: u8 = 0b1110u8;
/// Black Wise
pub const BLACK_WISE: u8 = 0b1111u8;

/// Represents the colour of a piece
#[derive(Clone, Copy, Debug, PartialEq, Eq, Structural)]
pub enum PieceColour {
    /// White
    White,
    /// Black
    Black,
}

/// Represents the type of a piece
#[derive(Clone, Copy, Debug, PartialEq, Eq, Structural)]
pub enum PieceType {
    /// Scissors
    Scissors,
    /// Paper
    Paper,
    /// Rock
    Rock,
    /// Wise
    Wise,
}

/// The colour bits of a piece of the given colour.
pub open spec fn colour_bits(c: PieceColour) -> u8 {
    match c {
        PieceColour::White => COLOUR_WHITE,
        PieceColour::Black => COLOUR_BLACK,
    }
}

/// The type bits of a piece of the given type.
pub open spec fn type_bits(t: PieceType) -> u8 {
    match t {
        PieceType::Scissors => TYPE_SCISSORS,
        PieceType::Paper => TYPE_PAPER,
        PieceType::Rock => TYPE_ROCK,
        PieceType::Wise => TYPE_WISE,
    }
}

/// Creates a uint representation piece from a `PieceColour` and `PieceType`.
pub fn piece_to_uint(piece_colour: &PieceColour, piece_type: &PieceType) -> (r: u8)
    ensures
        r == 8 + colour_bits(*piece_colour) + type_bits(*piece_type),
        r == PIECE_BIT | colour_bits(*piece_colour) | type_bits(*piece_type),
{
    let colour_part: u8 = match piece_colour {
        PieceColour::White => COLOUR_WHITE,
        PieceColour::Black => COLOUR_BLACK,
    };
    let type_part: u8 = match piece_type {
        PieceType::Scissors => TYPE_SCISSORS,
        PieceType::Paper => TYPE_PAPER,
        PieceType::Rock => TYPE_ROCK,
        PieceType::Wise => TYPE_WISE,
    };
    let r = PIECE_BIT | colour_part | type_part;
    assert(r == 8 + colour_part + type_part) by (bit_vector)
        requires
            r == 8u8 | colour_part | type_part,
            colour_part == 0 || colour_part == 4,
            type_part < 4,
    ;
    r
}

/// The top piece of a cell (its 4 least significant bits).
pub open spec fn top_of(p: u8) -> u8 {
    p % 16
}

/// The bottom piece of a cell (its 4 most significant bits), 0 if there is none.
pub open spec fn bottom_of(p: u8) -> u8 {
    p / 16
}

/// A single piece: the piece bit is set and there is nothing below it.
pub open spec fn is_single_piece(p: u8) -> bool {
    8 <= p < 16
}

/// A cell content that the board can hold: empty, one piece, or one piece on another.
pub open spec fn is_valid_cell(p: u8) -> bool {
    p == 0 || is_single_piece(p) || (is_single_piece(top_of(p)) && is_single_piece(bottom_of(p)))
}

/// Piece trait for u8
pub trait PieceTrait: Copy + Sized {
    /// Stack the piece on the provided bottom piece
    fn stack_on(self, bottom: Self) -> Self;
    /// Get the top piece of a stack
    fn top(self) -> Self;
    /// Get the bottom piece of a stack
    fn bottom(self) -> Self;
    /// Applies the colour mask to the piece to find its colour
    fn colour(self) -> Self;
    /// Applies the type mask to the piece to find its type
    fn piece_type(self) -> Self;
    /// Returns true if the piece is empty
    fn is_empty(self) -> bool;
    /// Returns true if the piece is a stack
    fn is_stack(self) -> bool;
    /// Returns true if the piece is white
    fn is_white(self) -> bool;
    /// Returns true if the piece is black
    fn is_black(self) -> bool;
    /// Returns true if the piece is a wise
    fn is_wise(self) -> bool;
    /// Sets the piece to an empty value
    fn set_empty(&mut self);
}

impl PieceTrait for u8 {
    #[inline(always)]
    fn stack_on(self, bottom: u8) -> (r: u8)
        ensures
            r == (self & TOP_MASK) | (bottom << 4u8),
            bottom < 16 ==> r == top_of(self) + 16 * bottom,
    {
        let r = (self & TOP_MASK) | (bottom << HALF_PIECE_WIDTH);
        assert(bottom < 16 ==> r == (self % 16) + 16 * bottom) by (bit_vector)
            requires
                r == (self & 15u8) | (bottom << 4u8),
        ;
        r
    }

    #[inline(always)]
    fn bottom(self) -> (r: u8)
        ensures
            r == bottom_of(self),
    {
        let r = self >> HALF_PIECE_WIDTH;
        assert(r == self / 16) by (bit_vector)
            requires
                r == self >> 4u8,
        ;
        r
    }

    #[inline(always)]
    fn top(self) -> (r: u8)
        ensures
            r == top_of(self),
    {
        let r = self & TOP_MASK;
        assert(r == self % 16) by (bit_vector)
            requires
                r == self & 15u8,
        ;
        r
    }

    #[inline(always)]
    fn colour(self) -> (r: u8)
        ensures
            r == self & COLOUR_MASK,
    {
        self & COLOUR_MASK
    }

    #[inline(always)]
    fn piece_type(self) -> (r: u8)
        ensures
            r == self & TYPE_MASK,
    {
        self & TYPE_MASK
    }

    #[inline(always)]
    fn is_empty(self) -> (r: bool)
        ensures
            r == (self == CELL_EMPTY),
    {
        self == CELL_EMPTY
    }

    #[inline(always)]
    fn is_stack(self) -> (r: bool)
        ensures
            r == (self >= STACK_THRESHOLD),
    {
        self >= STACK_THRESHOLD
    }

    #[inline(always)]
    fn is_white(self) -> (r: bool)
        ensures
            r == (self & COLOUR_MASK == COLOUR_WHITE),
    {
        self.colour() == COLOUR_WHITE
    }

    #[inline(always)]
    fn is_black(self) -> (r: bool)
        ensures
            r == (self & COLOUR_MASK == COLOUR_BLACK),
    {
        self.colour() == COLOUR_BLACK
    }

    #[inline(always)]
    fn is_wise(self) -> (r: bool)
        ensures
            r == (self & TYPE_MASK == TYPE_WISE),
    {
        self.piece_type() == TYPE_WISE
    }

    #[inline(always)]
    fn set_empty(&mut self)
        ensures
            *final(self) == CELL_EMPTY,
    {
        *self = CELL_EMPTY;
    }
}

} // verus!
