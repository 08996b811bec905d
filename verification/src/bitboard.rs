//! Bitboards (sets of cells stored in a `u64`) and the board made of sixteen of them.
use vstd::prelude::*;
use vstd::std_specs::bits::{u64_trailing_zeros, axiom_u64_trailing_zeros};

use crate::logic::index::CellIndex;
use crate::logic::{Cells, Player, N_CELLS};
use crate::piece::{is_valid_cell, Piece, PieceTrait, HALF_PIECE_WIDTH};

use crate::logic::actions::{
    board_wf, cell_wf, lemma_clear_wf, lemma_consistent_wf, lemma_same_cell, lemma_set_fresh,
    lemma_set_unset_frame, lemma_start_consistent,
};

verus! {

/// Number of bitboards in a board.
pub const N_BITBOARDS: usize = 16;

/// Bit `i` of `x` is set.
pub open spec fn bit(x: u64, i: int) -> bool {
    0 <= i < 64 && (x >> (i as u64)) & 1u64 == 1u64
}

/// `x` with its lowest set bit cleared.
pub open spec fn clear_lowest(x: u64) -> u64 {
    if x == 0 {
        0
    } else {
        x & ((x - 1) as u64)
    }
}

/// The indices of the set bits of `x`, in increasing order.
pub open spec fn bit_list(x: u64) -> Seq<int>
    decreases x,
{
    if x == 0 {
        seq![]
    } else {
        proof {
            lemma_clear_lowest_decreases(x);
        }
        seq![u64_trailing_zeros(x) as int] + bit_list(clear_lowest(x))
    }
}

/// The number of set bits of `x`.
pub open spec fn popcount(x: u64) -> nat
    decreases x,
{
    if x == 0 {
        0
    } else {
        proof {
            lemma_clear_lowest_decreases(x);
        }
        1 + popcount(clear_lowest(x))
    }
}

/// Clearing the lowest set bit makes a non-zero number smaller.
pub proof fn lemma_clear_lowest_decreases(x: u64)
    requires
        x != 0,
    ensures
        clear_lowest(x) < x,
{
    let y = (x - 1) as u64;
    assert(x & y < x) by (bit_vector)
        requires
            x != 0,
            y == x - 1,
    ;
}

/// Clearing the lowest set bit of `x` keeps every other bit and removes bit `trailing_zeros(x)`.
pub proof fn lemma_clear_lowest(x: u64)
    requires
        x != 0,
    ensures
        u64_trailing_zeros(x) < 64,
        bit(x, u64_trailing_zeros(x) as int),
        forall|j: int| 0 <= j < u64_trailing_zeros(x) ==> !bit(x, j),
        forall|j: int|
            #![trigger bit(clear_lowest(x), j)]
            bit(clear_lowest(x), j) == (bit(x, j) && j != u64_trailing_zeros(x)),
{
    axiom_u64_trailing_zeros(x);
    let t = u64_trailing_zeros(x) as u64;
    assert forall|j: int| 0 <= j < u64_trailing_zeros(x) implies !bit(x, j) by {
        let jj = j as u64;
        assert((x >> jj) & 1u64 == 0u64);
    }
    assert forall|j: int|
        #![trigger bit(clear_lowest(x), j)]
        bit(clear_lowest(x), j) == (bit(x, j) && j != u64_trailing_zeros(x)) by {
        if 0 <= j < 64 {
            let jj = j as u64;
            assert(forall|k: u64| k < t ==> #[trigger] ((x >> k) & 1u64) == 0u64);
            let y = (x - 1) as u64;
            let z = clear_lowest(x);
            let sh = (64 - t) as u64;
            assert(x << sh == 0);
            assert(((z >> jj) & 1u64 == 1u64) == ((x >> jj) & 1u64 == 1u64 && jj != t))
                by (bit_vector)
                requires
                    x != 0,
                    y == x - 1,
                    z == x & y,
                    t < 64,
                    (x >> t) & 1u64 == 1u64,
                    jj < 64,
                    sh == 64 - t,
                    x << sh == 0,
            ;
        }
    }
}

/// The listed indices are exactly the set bits, each listed once, in increasing order.
pub proof fn lemma_bit_list(x: u64)
    ensures
        forall|i: int| #[trigger] bit_list(x).contains(i) <==> bit(x, i),
        forall|a: int, b: int|
            0 <= a < b < bit_list(x).len() ==> bit_list(x)[a] < bit_list(x)[b],
        bit_list(x).len() == popcount(x),
    decreases x,
{
    if x != 0 {
        lemma_clear_lowest(x);
        lemma_clear_lowest_decreases(x);
        let y = clear_lowest(x);
        lemma_bit_list(y);
        let t = u64_trailing_zeros(x) as int;
        assert(bit_list(x) == seq![t] + bit_list(y));
        assert forall|i: int| #[trigger] bit_list(x).contains(i) <==> bit(x, i) by {
            if i == t {
                assert(bit_list(x)[0] == t);
            }
            if bit(x, i) && i != t {
                assert(bit(y, i));
                assert(bit_list(y).contains(i));
                let k = bit_list(y).index_of(i);
                assert(bit_list(x)[k + 1] == i);
            }
            if bit_list(x).contains(i) && i != t {
                let k = choose|k: int| 0 <= k < bit_list(x).len() && bit_list(x)[k] == i;
                assert(bit_list(y)[k - 1] == i);
                assert(bit_list(y).contains(i));
                assert(bit(y, i));
            }
        }
        assert forall|a: int, b: int|
            0 <= a < b < bit_list(x).len() implies bit_list(x)[a] < bit_list(x)[b] by {
            if a == 0 {
                let e = bit_list(y)[b - 1];
                assert(bit_list(y).contains(e));
                assert(bit(y, e));
            }
        }
    } else {
        assert forall|i: int| #[trigger] bit_list(x).contains(i) <==> bit(x, i) by {
            if 0 <= i < 64 {
                let ii = i as u64;
                assert((0u64 >> ii) & 1u64 == 0u64) by (bit_vector);
            }
        }
    }
}

/// Counts the set bits of a `u64`, clearing the lowest one at each step.
pub(crate) fn count_ones(x: u64) -> (r: u32)
    ensures
        r == popcount(x),
{
    proof {
        crate::logic::rules::lemma_bit_list_bound(x);
    }
    let mut rest = x;
    let mut n: u32 = 0;
    while rest != 0
        invariant
            n + popcount(rest) == popcount(x),
            popcount(x) <= 64,
        decreases rest,
    {
        proof {
            lemma_clear_lowest_decreases(rest);
        }
        rest = rest & (rest - 1);
        n += 1;
    }
    n
}

/// This struct represents a 64 bit (only 45 are used) bitboard.
#[derive(Clone, Copy, Debug, PartialEq, Eq, Structural)]
pub struct Bitboard(pub u64);

impl Bitboard {
    /// An null (invalid) bitboard.
    pub fn null() -> (r: Bitboard)
        ensures
            r.0 == 0xFFFF_FFFF_FFFF_FFFFu64,
    {
        Bitboard(0xFFFF_FFFF_FFFF_FFFFu64)
    }

    /// An empty bitboard.
    pub fn empty() -> (r: Bitboard)
        ensures
            r.0 == 0,
    {
        Bitboard(0u64)
    }

    /// Returns true if there is a set (1) bit at the given index.
    #[inline(always)]
    pub fn get(&self, index: CellIndex) -> (r: bool)
        requires
            index < 64,
        ensures
            r == bit(self.0, index as int),
    {
        (self.0 >> (index as u64)) & 1 == 1
    }

    /// Sets the bit to 1 at the given index.
    #[inline(always)]
    pub fn set(&mut self, index: CellIndex)
        requires
            index < 64,
        ensures
            final(self).0 == old(self).0 | (1u64 << (index as u64)),
    {
        let mask: u64 = 1u64 << (index as u64);
        self.0 = self.0 | mask;
    }

    /// Sets the bit to 0 at the given index.
    #[inline(always)]
    pub fn unset(&mut self, index: CellIndex)
        requires
            index < 64,
        ensures
            final(self).0 == old(self).0 & !(1u64 << (index as u64)),
    {
        let mask: u64 = !(1u64 << (index as u64));
        self.0 = self.0 & mask;
    }

    /// Flips the bit (from 0 to 1 or from 1 to 0) at the given index.
    #[inline(always)]
    pub fn flip(&mut self, index: CellIndex)
        requires
            index < 64,
        ensures
            final(self).0 == old(self).0 ^ (1u64 << (index as u64)),
    {
        let mask: u64 = 1u64 << (index as u64);
        self.0 = self.0 ^ mask;
    }
}

/// Setting bit `i` sets it and leaves the other bits unchanged.
pub proof fn lemma_bit_set(x: u64, i: int, j: int)
    requires
        0 <= i < 64,
    ensures
        bit(x | (1u64 << (i as u64)), j) == (j == i || bit(x, j)),
{
    if 0 <= j < 64 {
        let ii = i as u64;
        let jj = j as u64;
        assert(ii < 64 && jj < 64 ==> ((((x | (1u64 << ii)) >> jj) & 1u64 == 1u64) == (jj == ii
            || (x >> jj) & 1u64 == 1u64))) by (bit_vector);
    }
}

/// Unsetting bit `i` clears it and leaves the other bits unchanged.
pub proof fn lemma_bit_unset(x: u64, i: int, j: int)
    requires
        0 <= i < 64,
    ensures
        bit(x & !(1u64 << (i as u64)), j) == (j != i && bit(x, j)),
{
    if 0 <= j < 64 {
        let ii = i as u64;
        let jj = j as u64;
        assert(ii < 64 && jj < 64 ==> ((((x & !(1u64 << ii)) >> jj) & 1u64 == 1u64) == (jj != ii
            && (x >> jj) & 1u64 == 1u64))) by (bit_vector);
    }
}

/// Flipping bit `i` inverts it and leaves the other bits unchanged.
pub proof fn lemma_bit_flip(x: u64, i: int, j: int)
    requires
        0 <= i < 64,
    ensures
        bit(x ^ (1u64 << (i as u64)), j) == (if j == i { !bit(x, j) } else { bit(x, j) }),
{
    if 0 <= j < 64 {
        let ii = i as u64;
        let jj = j as u64;
        assert(ii < 64 && jj < 64 ==> ((((x ^ (1u64 << ii)) >> jj) & 1u64 == 1u64) == (if jj
            == ii {
            (x >> jj) & 1u64 != 1u64
        } else {
            (x >> jj) & 1u64 == 1u64
        }))) by (bit_vector);
    }
}

/// The bits of a union, intersection and complement.
pub proof fn lemma_bit_ops(x: u64, y: u64, j: int)
    ensures
        bit(x | y, j) == (bit(x, j) || bit(y, j)),
        bit(x & y, j) == (bit(x, j) && bit(y, j)),
        0 <= j < 64 ==> bit(!x, j) == !bit(x, j),
        !bit(0u64, j),
{
    if 0 <= j < 64 {
        let jj = j as u64;
        assert(jj < 64 ==> ((((x | y) >> jj) & 1u64 == 1u64) == ((x >> jj) & 1u64 == 1u64 || (y
            >> jj) & 1u64 == 1u64))) by (bit_vector);
        assert(jj < 64 ==> ((((x & y) >> jj) & 1u64 == 1u64) == ((x >> jj) & 1u64 == 1u64 && (y
            >> jj) & 1u64 == 1u64))) by (bit_vector);
        assert(jj < 64 ==> ((((!x) >> jj) & 1u64 == 1u64) == !((x >> jj) & 1u64 == 1u64)))
            by (bit_vector);
        assert((0u64 >> jj) & 1u64 == 0u64) by (bit_vector);
    }
}

/// This struct uses bitboards to represent the board and its pieces.
///
/// It contains 16 bitboards in the following order:
///
/// | Index | Position | Color | Piece    |
/// |-------|----------|-------|----------|
/// | 0     | Top      | White | Scissors |
/// | 1     | Top      | White | Paper    |
/// | 2     | Top      | White | Rock     |
/// | 3     | Top      | White | Wise     |
/// | 4     | Top      | Black | Scissors |
/// | 5     | Top      | Black | Paper    |
/// | 6     | Top      | Black | Rock     |
/// | 7     | Top      | Black | Wise     |
/// | 8     | Bottom   | White | Scissors |
/// | 9     | Bottom   | White | Paper    |
/// | 10    | Bottom   | White | Rock     |
/// | 11    | Bottom   | White | Wise     |
/// | 12    | Bottom   | Black | Scissors |
/// | 13    | Bottom   | Black | Paper    |
/// | 14    | Bottom   | Black | Rock     |
/// | 15    | Bottom   | Black | Wise     |
#[derive(Clone, Copy, Debug, PartialEq, Eq)]
pub struct Board(pub [Bitboard; N_BITBOARDS]);

impl View for Board {
    type V = Seq<u64>;

    /// The sixteen bitboards as numbers.
    open spec fn view(&self) -> Seq<u64> {
        Seq::new(16, |k: int| self.0[k].0)
    }
}

/// The white pieces (top pieces of white cells).
pub open spec fn white_bits(v: Seq<u64>) -> u64 {
    v[0] | v[1] | v[2] | v[3]
}

/// The black pieces (top pieces of black cells).
pub open spec fn black_bits(v: Seq<u64>) -> u64 {
    v[4] | v[5] | v[6] | v[7]
}

/// All occupied cells.
pub open spec fn all_bits(v: Seq<u64>) -> u64 {
    white_bits(v) | black_bits(v)
}

/// The white pieces that are not wise.
pub open spec fn white_not_wise_bits(v: Seq<u64>) -> u64 {
    v[0] | v[1] | v[2]
}

/// The black pieces that are not wise.
pub open spec fn black_not_wise_bits(v: Seq<u64>) -> u64 {
    v[4] | v[5] | v[6]
}

/// The white stacks.
pub open spec fn white_stacks_bits(v: Seq<u64>) -> u64 {
    v[8] | v[9] | v[10] | v[11]
}

/// The black stacks.
pub open spec fn black_stacks_bits(v: Seq<u64>) -> u64 {
    v[12] | v[13] | v[14] | v[15]
}

/// The pieces of the given player (white for 0, black otherwise).
pub open spec fn same_colour_bits(v: Seq<u64>, player: Player) -> u64 {
    if player == 0 {
        white_bits(v)
    } else {
        black_bits(v)
    }
}

/// The non-wise pieces of the given player.
pub open spec fn same_colour_not_wise_bits(v: Seq<u64>, player: Player) -> u64 {
    if player == 0 {
        white_not_wise_bits(v)
    } else {
        black_not_wise_bits(v)
    }
}

/// The stacks of the given player.
pub open spec fn same_stacks_bits(v: Seq<u64>, player: Player) -> u64 {
    if player == 0 {
        white_stacks_bits(v)
    } else {
        black_stacks_bits(v)
    }
}

/// The stacks of the opponent of the given player.
pub open spec fn opposite_stacks_bits(v: Seq<u64>, player: Player) -> u64 {
    if player == 1 {
        white_stacks_bits(v)
    } else {
        black_stacks_bits(v)
    }
}

/// The wise pieces of the given player.
pub open spec fn same_wise_bits(v: Seq<u64>, player: Player) -> u64 {
    if player == 0 {
        v[3]
    } else {
        v[7]
    }
}

/// The first bitboard `k` in `start..end` that has the cell `index`, or -1 if none has it.
pub open spec fn first_set(v: Seq<u64>, index: int, start: int, end: int) -> int
    decreases end - start,
{
    if start >= end {
        -1
    } else if bit(v[start], index) {
        start
    } else {
        first_set(v, index, start + 1, end)
    }
}

/// The first bitboard found is in the range searched.
pub proof fn lemma_first_set_range(v: Seq<u64>, index: int, start: int, end: int)
    ensures
        first_set(v, index, start, end) == -1 || start <= first_set(v, index, start, end) < end,
        first_set(v, index, start, end) != -1 ==> bit(v[first_set(v, index, start, end)], index),
    decreases end - start,
{
    if start < end && !bit(v[start], index) {
        lemma_first_set_range(v, index, start + 1, end);
    }
}

/// The piece made of the top bitboard `t` and the bottom bitboard `s` (-1 for none).
pub open spec fn piece_from_slots(t: int, s: int) -> u8 {
    ((if t >= 0 {
        t + 8
    } else {
        0
    }) + (if s >= 0 {
        s * 16
    } else {
        0
    })) as u8
}

/// The piece at a cell: the first top bitboard that has the cell gives the top
/// piece, the first bottom bitboard that has it gives the bottom piece.
pub open spec fn piece_at(v: Seq<u64>, index: int) -> u8 {
    piece_from_slots(first_set(v, index, 0, 8), first_set(v, index, 8, 16))
}

/// The piece at a cell, looking only at the bitboards of the given player.
pub open spec fn player_piece_at(v: Seq<u64>, index: int, player: Player) -> u8 {
    if player == 0 {
        piece_from_slots(first_set(v, index, 0, 4), first_set(v, index, 8, 12))
    } else {
        piece_from_slots(first_set(v, index, 4, 8), first_set(v, index, 12, 16))
    }
}

/// The bitboards after putting `piece` at the cell `index`: the cell is added to
/// the bitboard of the top piece and, for a stack, to that of the bottom piece.
pub open spec fn set_piece_bits(v: Seq<u64>, index: int, piece: u8) -> Seq<u64> {
    Seq::new(
        16,
        |k: int|
            if k == piece % 8 || (piece >= 16 && k == piece / 16) {
                v[k] | (1u64 << (index as u64))
            } else {
                v[k]
            },
    )
}

/// The bitboards after removing `piece` from the cell `index`.
pub open spec fn unset_piece_bits(v: Seq<u64>, index: int, piece: u8) -> Seq<u64> {
    Seq::new(
        16,
        |k: int|
            if k == piece % 8 || (piece >= 16 && k == piece / 16) {
                v[k] & !(1u64 << (index as u64))
            } else {
                v[k]
            },
    )
}

/// The bitboards of the starting position.
pub open spec fn start_bits(k: int) -> u64 {
    if k == 0 {
        0x121200000000u64
    } else if k == 1 {
        0x94100000000u64
    } else if k == 2 {
        0x4a400000000u64
    } else if k == 3 {
        0x800000000u64
    } else if k == 4 {
        0x909u64
    } else if k == 5 {
        0x1052u64
    } else if k == 6 {
        0x4a4u64
    } else if k == 7 {
        0x200u64
    } else if k == 11 {
        0x800000000u64
    } else if k == 15 {
        0x200u64
    } else {
        0u64
    }
}

impl Board {
    /// An empty board
    pub fn empty() -> (r: Board)
        ensures
            r@ == Seq::new(16, |k: int| 0u64),
            board_wf(r@),
    {
        let r = Board([Bitboard(0u64); N_BITBOARDS]);
        assert(r@ =~= Seq::new(16, |k: int| 0u64));
        proof {
            assert forall|j: int| 0 <= j < 64 implies #[trigger] cell_wf(r@, j) by {
                lemma_bit_ops(0u64, 0u64, j);
                lemma_clear_wf(r@, j);
            }
        }
        r
    }

    /// Returns a bitboard representing all pieces on the board
    pub fn all(&self) -> (r: Bitboard)
        ensures
            r.0 == all_bits(self@),
    {
        Bitboard(self.white().0 | self.black().0)
    }

    /// Returns a bitboard representing the white pieces on the board
    pub fn white(&self) -> (r: Bitboard)
        ensures
            r.0 == white_bits(self@),
    {
        Bitboard(self.0[0].0 | self.0[1].0 | self.0[2].0 | self.0[3].0)
    }

    /// Returns a bitboard representing the black pieces on the board
    pub fn black(&self) -> (r: Bitboard)
        ensures
            r.0 == black_bits(self@),
    {
        Bitboard(self.0[4].0 | self.0[5].0 | self.0[6].0 | self.0[7].0)
    }

    /// Returns a bitboard representing the white pieces that aren't wise (only scissors, paper, and rock) on the board
    pub fn white_not_wise(&self) -> (r: Bitboard)
        ensures
            r.0 == white_not_wise_bits(self@),
    {
        Bitboard(self.0[0].0 | self.0[1].0 | self.0[2].0)
    }

    /// Returns a bitboard representing the black pieces that aren't wise (only scissors, paper, and rock) on the board
    pub fn black_not_wise(&self) -> (r: Bitboard)
        ensures
            r.0 == black_not_wise_bits(self@),
    {
        Bitboard(self.0[4].0 | self.0[5].0 | self.0[6].0)
    }

    /// Returns a bitboard representing the stacks
    pub fn stacks(&self) -> (r: Bitboard)
        ensures
            r.0 == white_stacks_bits(self@) | black_stacks_bits(self@),
    {
        Bitboard(
            (self.0[8].0 | self.0[9].0 | self.0[10].0 | self.0[11].0) | (self.0[12].0 | self.0[13].0
                | self.0[14].0 | self.0[15].0),
        )
    }

    /// Returns a bitboard representing the pieces that are the same colour as the given player.
    pub fn same_colour(&self, player: Player) -> (r: Bitboard)
        ensures
            r.0 == same_colour_bits(self@, player),
    {
        if player == 0 {
            self.white()
        } else {
            self.black()
        }
    }

    /// Returns a bitboard representing the pieces that are the same colour as the given player.
    pub fn same_colour_not_wise(&self, player: Player) -> (r: Bitboard)
        ensures
            r.0 == same_colour_not_wise_bits(self@, player),
    {
        if player == 0 {
            self.white_not_wise()
        } else {
            self.black_not_wise()
        }
    }

    /// Returns a bitboard representing the stacks that are the same colour as the given player.
    pub fn same_stacks(&self, player: Player) -> (r: Bitboard)
        ensures
            r.0 == same_stacks_bits(self@, player),
    {
        if player == 0 {
            Bitboard(self.0[8].0 | self.0[9].0 | self.0[10].0 | self.0[11].0)
        } else {
            Bitboard(self.0[12].0 | self.0[13].0 | self.0[14].0 | self.0[15].0)
        }
    }

    /// Returns a bitboard representing the stacks that are the opposite colour to the given player.
    pub fn opposite_stacks(&self, player: Player) -> (r: Bitboard)
        ensures
            r.0 == opposite_stacks_bits(self@, player),
    {
        if player == 1 {
            Bitboard(self.0[8].0 | self.0[9].0 | self.0[10].0 | self.0[11].0)
        } else {
            Bitboard(self.0[12].0 | self.0[13].0 | self.0[14].0 | self.0[15].0)
        }
    }

    /// Returns a bitboard representing the wise pieces that are the same colour as the given player.
    pub fn same_wise(&self, player: Player) -> (r: Bitboard)
        ensures
            r.0 == same_wise_bits(self@, player),
    {
        if player == 0 {
            self.0[3]
        } else {
            self.0[7]
        }
    }
    /// The first bitboard in `start..end` that holds the cell, `end` if none does.
    fn find_slot(&self, index: CellIndex, start: usize, end: usize) -> (r: usize)
        requires
            index < 64,
            start <= end <= 16,
        ensures
            first_set(self@, index as int, start as int, end as int) == -1 ==> r == end,
            first_set(self@, index as int, start as int, end as int) != -1 ==> r == first_set(
                self@,
                index as int,
                start as int,
                end as int,
            ),
            start <= r <= end,
            (r == end) == (first_set(self@, index as int, start as int, end as int) == -1),
    {
        proof {
            lemma_first_set_range(self@, index as int, start as int, end as int);
        }
        let mut k = start;
        while k < end
            invariant
                start <= k <= end <= 16,
                index < 64,
                first_set(self@, index as int, start as int, end as int) == first_set(
                    self@,
                    index as int,
                    k as int,
                    end as int,
                ),
            decreases end - k,
        {
            if self.0[k].get(index) {
                return k;
            }
            k += 1;
        }
        k
    }

    /// Combines the top and bottom slots found for a cell into a piece.
    fn piece_from_found(t: usize, t_end: usize, s: usize, s_end: usize) -> (r: Piece)
        requires
            t <= t_end <= 8,
            8 <= s <= s_end <= 16,
        ensures
            r == piece_from_slots(
                if t == t_end {
                    -1
                } else {
                    t as int
                },
                if s == s_end {
                    -1
                } else {
                    s as int
                },
            ),
    {
        let mut piece: u8 = 0;
        if t < t_end {
            let tt = t as u8;
            piece = tt | 0b1000;
            assert(tt | 8u8 == tt + 8) by (bit_vector)
                requires
                    tt < 8,
            ;
        }
        if s < s_end {
            let ss = s as u8;
            let add = (ss << 4u8) | 0b1000_0000u8;
            let old_piece = piece;
            piece = piece | add;
            assert(old_piece | ((ss << 4u8) | 128u8) == old_piece + ss * 16) by (bit_vector)
                requires
                    8 <= ss < 16,
                    old_piece < 16,
            ;
        }
        piece
    }

    /// Returns the piece from the given index in the board.
    pub fn get_piece(&self, index: usize) -> (r: Piece)
        requires
            index < 64,
        ensures
            r == piece_at(self@, index as int),
    {
        let t = self.find_slot(index, 0, 8);
        let s = self.find_slot(index, 8, N_BITBOARDS);
        Self::piece_from_found(t, 8, s, N_BITBOARDS)
    }

    /// Returns the piece from the given index in the board knowing its owner (player).
    ///
    /// It is a bit more efficient because we only need to check half the bitboards.
    pub fn get_player_piece(&self, index: usize, player: Player) -> (r: Piece)
        requires
            index < 64,
        ensures
            r == player_piece_at(self@, index as int, player),
    {
        if player == 0 {
            let t = self.find_slot(index, 0, 4);
            let s = self.find_slot(index, 8, 12);
            let r = Self::piece_from_found(t, 4, s, 12);
            r
        } else {
            let t = self.find_slot(index, 4, 8);
            let s = self.find_slot(index, 12, 16);
            let r = Self::piece_from_found(t, 8, s, 16);
            r
        }
    }

    /// Sets or clears the cell in one bitboard.
    fn update_slot(&mut self, k: usize, index: CellIndex, set: bool)
        requires
            k < 16,
            index < 64,
        ensures
            forall|j: int|
                0 <= j < 16 ==> final(self)@[j] == if j == k {
                    if set {
                        old(self)@[j] | (1u64 << (index as u64))
                    } else {
                        old(self)@[j] & !(1u64 << (index as u64))
                    }
                } else {
                    old(self)@[j]
                },
    {
        let mut b = self.0[k];
        if set {
            b.set(index);
        } else {
            b.unset(index);
        }
        self.0[k] = b;
    }

    /// Puts a piece at the given index in the board.
    pub fn set_piece(&mut self, index: CellIndex, piece: Piece)
        requires
            index < 64,
        ensures
            final(self)@ == set_piece_bits(old(self)@, index as int, piece),
    {
        let k1 = (piece & 0b0111) as usize;
        assert(piece & 7u8 == piece % 8) by (bit_vector);
        self.update_slot(k1, index, true);
        if piece.is_stack() {
            let k2 = (piece >> HALF_PIECE_WIDTH) as usize;
            assert(piece >> 4u8 == piece / 16) by (bit_vector);
            self.update_slot(k2, index, true);
            proof {
                let m = 1u64 << (index as u64);
                let x = old(self)@[k1 as int];
                assert((x | m) | m == x | m) by (bit_vector);
            }
        }
        assert(self@ =~= set_piece_bits(old(self)@, index as int, piece));
    }

    /// Removes the given piece from the given index in the board.
    pub fn unset_piece(&mut self, index: CellIndex, piece: Piece)
        requires
            index < 64,
        ensures
            final(self)@ == unset_piece_bits(old(self)@, index as int, piece),
    {
        let k1 = (piece & 0b0111) as usize;
        assert(piece & 7u8 == piece % 8) by (bit_vector);
        self.update_slot(k1, index, false);
        if piece.is_stack() {
            let k2 = (piece >> HALF_PIECE_WIDTH) as usize;
            assert(piece >> 4u8 == piece / 16) by (bit_vector);
            self.update_slot(k2, index, false);
            proof {
                let m = !(1u64 << (index as u64));
                let x = old(self)@[k1 as int];
                assert((x & m) & m == x & m) by (bit_vector);
            }
        }
        assert(self@ =~= unset_piece_bits(old(self)@, index as int, piece));
    }

    /// Removes any piece from the given index in the board.
    pub fn remove_piece(&mut self, index: CellIndex)
        requires
            index < 64,
        ensures
            final(self)@ == unset_piece_bits(old(self)@, index as int, piece_at(old(self)@, index as int)),
    {
        let piece = self.get_piece(index);
        self.unset_piece(index, piece);
    }

    /// Initializes the the board to the starting configuration.
    ///
    /// Sets the pieces to their original position: black scissors, paper and
    /// rock on the two top rows with a black wise stack in cell 9, and the
    /// mirrored white pieces on the two bottom rows with a white wise stack in
    /// cell 35.
    pub fn init(&mut self)
        ensures
            final(self)@ == Seq::new(16, |k: int| start_bits(k)),
            board_wf(final(self)@),
    {
        self.0 = [Bitboard(0u64); N_BITBOARDS];
        self.0[0] = Bitboard(0x121200000000u64);
        self.0[1] = Bitboard(0x94100000000u64);
        self.0[2] = Bitboard(0x4a400000000u64);
        self.0[3] = Bitboard(0x800000000u64);
        self.0[4] = Bitboard(0x909u64);
        self.0[5] = Bitboard(0x1052u64);
        self.0[6] = Bitboard(0x4a4u64);
        self.0[7] = Bitboard(0x200u64);
        self.0[11] = Bitboard(0x800000000u64);
        self.0[15] = Bitboard(0x200u64);
        assert(self@ =~= Seq::new(16, |k: int| start_bits(k)));
        proof {
            lemma_start_consistent();
            lemma_consistent_wf(self@);
        }
    }
}

/// No bitboard holds the cell.
pub open spec fn cell_clear(v: Seq<u64>, index: int) -> bool {
    forall|k: int| 0 <= k < 16 ==> !bit(#[trigger] v[k], index)
}

/// Two numbers with the same bits are equal.
pub proof fn lemma_bits_equal(x: u64, y: u64)
    requires
        forall|i: int| 0 <= i < 64 ==> bit(x, i) == bit(y, i),
    ensures
        x == y,
{
    assert(bit(x, 0) == bit(y, 0));
    assert(bit(x, 1) == bit(y, 1));
    assert(bit(x, 2) == bit(y, 2));
    assert(bit(x, 3) == bit(y, 3));
    assert(bit(x, 4) == bit(y, 4));
    assert(bit(x, 5) == bit(y, 5));
    assert(bit(x, 6) == bit(y, 6));
    assert(bit(x, 7) == bit(y, 7));
    assert(bit(x, 8) == bit(y, 8));
    assert(bit(x, 9) == bit(y, 9));
    assert(bit(x, 10) == bit(y, 10));
    assert(bit(x, 11) == bit(y, 11));
    assert(bit(x, 12) == bit(y, 12));
    assert(bit(x, 13) == bit(y, 13));
    assert(bit(x, 14) == bit(y, 14));
    assert(bit(x, 15) == bit(y, 15));
    assert(bit(x, 16) == bit(y, 16));
    assert(bit(x, 17) == bit(y, 17));
    assert(bit(x, 18) == bit(y, 18));
    assert(bit(x, 19) == bit(y, 19));
    assert(bit(x, 20) == bit(y, 20));
    assert(bit(x, 21) == bit(y, 21));
    assert(bit(x, 22) == bit(y, 22));
    assert(bit(x, 23) == bit(y, 23));
    assert(bit(x, 24) == bit(y, 24));
    assert(bit(x, 25) == bit(y, 25));
    assert(bit(x, 26) == bit(y, 26));
    assert(bit(x, 27) == bit(y, 27));
    assert(bit(x, 28) == bit(y, 28));
    assert(bit(x, 29) == bit(y, 29));
    assert(bit(x, 30) == bit(y, 30));
    assert(bit(x, 31) == bit(y, 31));
    assert(bit(x, 32) == bit(y, 32));
    assert(bit(x, 33) == bit(y, 33));
    assert(bit(x, 34) == bit(y, 34));
    assert(bit(x, 35) == bit(y, 35));
    assert(bit(x, 36) == bit(y, 36));
    assert(bit(x, 37) == bit(y, 37));
    assert(bit(x, 38) == bit(y, 38));
    assert(bit(x, 39) == bit(y, 39));
    assert(bit(x, 40) == bit(y, 40));
    assert(bit(x, 41) == bit(y, 41));
    assert(bit(x, 42) == bit(y, 42));
    assert(bit(x, 43) == bit(y, 43));
    assert(bit(x, 44) == bit(y, 44));
    assert(bit(x, 45) == bit(y, 45));
    assert(bit(x, 46) == bit(y, 46));
    assert(bit(x, 47) == bit(y, 47));
    assert(bit(x, 48) == bit(y, 48));
    assert(bit(x, 49) == bit(y, 49));
    assert(bit(x, 50) == bit(y, 50));
    assert(bit(x, 51) == bit(y, 51));
    assert(bit(x, 52) == bit(y, 52));
    assert(bit(x, 53) == bit(y, 53));
    assert(bit(x, 54) == bit(y, 54));
    assert(bit(x, 55) == bit(y, 55));
    assert(bit(x, 56) == bit(y, 56));
    assert(bit(x, 57) == bit(y, 57));
    assert(bit(x, 58) == bit(y, 58));
    assert(bit(x, 59) == bit(y, 59));
    assert(bit(x, 60) == bit(y, 60));
    assert(bit(x, 61) == bit(y, 61));
    assert(bit(x, 62) == bit(y, 62));
    assert(bit(x, 63) == bit(y, 63));
    assert(x == y) by (bit_vector)
        requires
            ((x >> 0u64) & 1u64 == 1u64) == ((y >> 0u64) & 1u64 == 1u64),
            ((x >> 1u64) & 1u64 == 1u64) == ((y >> 1u64) & 1u64 == 1u64),
            ((x >> 2u64) & 1u64 == 1u64) == ((y >> 2u64) & 1u64 == 1u64),
            ((x >> 3u64) & 1u64 == 1u64) == ((y >> 3u64) & 1u64 == 1u64),
            ((x >> 4u64) & 1u64 == 1u64) == ((y >> 4u64) & 1u64 == 1u64),
            ((x >> 5u64) & 1u64 == 1u64) == ((y >> 5u64) & 1u64 == 1u64),
            ((x >> 6u64) & 1u64 == 1u64) == ((y >> 6u64) & 1u64 == 1u64),
            ((x >> 7u64) & 1u64 == 1u64) == ((y >> 7u64) & 1u64 == 1u64),
            ((x >> 8u64) & 1u64 == 1u64) == ((y >> 8u64) & 1u64 == 1u64),
            ((x >> 9u64) & 1u64 == 1u64) == ((y >> 9u64) & 1u64 == 1u64),
            ((x >> 10u64) & 1u64 == 1u64) == ((y >> 10u64) & 1u64 == 1u64),
            ((x >> 11u64) & 1u64 == 1u64) == ((y >> 11u64) & 1u64 == 1u64),
            ((x >> 12u64) & 1u64 == 1u64) == ((y >> 12u64) & 1u64 == 1u64),
            ((x >> 13u64) & 1u64 == 1u64) == ((y >> 13u64) & 1u64 == 1u64),
            ((x >> 14u64) & 1u64 == 1u64) == ((y >> 14u64) & 1u64 == 1u64),
            ((x >> 15u64) & 1u64 == 1u64) == ((y >> 15u64) & 1u64 == 1u64),
            ((x >> 16u64) & 1u64 == 1u64) == ((y >> 16u64) & 1u64 == 1u64),
            ((x >> 17u64) & 1u64 == 1u64) == ((y >> 17u64) & 1u64 == 1u64),
            ((x >> 18u64) & 1u64 == 1u64) == ((y >> 18u64) & 1u64 == 1u64),
            ((x >> 19u64) & 1u64 == 1u64) == ((y >> 19u64) & 1u64 == 1u64),
            ((x >> 20u64) & 1u64 == 1u64) == ((y >> 20u64) & 1u64 == 1u64),
            ((x >> 21u64) & 1u64 == 1u64) == ((y >> 21u64) & 1u64 == 1u64),
            ((x >> 22u64) & 1u64 == 1u64) == ((y >> 22u64) & 1u64 == 1u64),
            ((x >> 23u64) & 1u64 == 1u64) == ((y >> 23u64) & 1u64 == 1u64),
            ((x >> 24u64) & 1u64 == 1u64) == ((y >> 24u64) & 1u64 == 1u64),
            ((x >> 25u64) & 1u64 == 1u64) == ((y >> 25u64) & 1u64 == 1u64),
            ((x >> 26u64) & 1u64 == 1u64) == ((y >> 26u64) & 1u64 == 1u64),
            ((x >> 27u64) & 1u64 == 1u64) == ((y >> 27u64) & 1u64 == 1u64),
            ((x >> 28u64) & 1u64 == 1u64) == ((y >> 28u64) & 1u64 == 1u64),
            ((x >> 29u64) & 1u64 == 1u64) == ((y >> 29u64) & 1u64 == 1u64),
            ((x >> 30u64) & 1u64 == 1u64) == ((y >> 30u64) & 1u64 == 1u64),
            ((x >> 31u64) & 1u64 == 1u64) == ((y >> 31u64) & 1u64 == 1u64),
            ((x >> 32u64) & 1u64 == 1u64) == ((y >> 32u64) & 1u64 == 1u64),
            ((x >> 33u64) & 1u64 == 1u64) == ((y >> 33u64) & 1u64 == 1u64),
            ((x >> 34u64) & 1u64 == 1u64) == ((y >> 34u64) & 1u64 == 1u64),
            ((x >> 35u64) & 1u64 == 1u64) == ((y >> 35u64) & 1u64 == 1u64),
            ((x >> 36u64) & 1u64 == 1u64) == ((y >> 36u64) & 1u64 == 1u64),
            ((x >> 37u64) & 1u64 == 1u64) == ((y >> 37u64) & 1u64 == 1u64),
            ((x >> 38u64) & 1u64 == 1u64) == ((y >> 38u64) & 1u64 == 1u64),
            ((x >> 39u64) & 1u64 == 1u64) == ((y >> 39u64) & 1u64 == 1u64),
            ((x >> 40u64) & 1u64 == 1u64) == ((y >> 40u64) & 1u64 == 1u64),
            ((x >> 41u64) & 1u64 == 1u64) == ((y >> 41u64) & 1u64 == 1u64),
            ((x >> 42u64) & 1u64 == 1u64) == ((y >> 42u64) & 1u64 == 1u64),
            ((x >> 43u64) & 1u64 == 1u64) == ((y >> 43u64) & 1u64 == 1u64),
            ((x >> 44u64) & 1u64 == 1u64) == ((y >> 44u64) & 1u64 == 1u64),
            ((x >> 45u64) & 1u64 == 1u64) == ((y >> 45u64) & 1u64 == 1u64),
            ((x >> 46u64) & 1u64 == 1u64) == ((y >> 46u64) & 1u64 == 1u64),
            ((x >> 47u64) & 1u64 == 1u64) == ((y >> 47u64) & 1u64 == 1u64),
            ((x >> 48u64) & 1u64 == 1u64) == ((y >> 48u64) & 1u64 == 1u64),
            ((x >> 49u64) & 1u64 == 1u64) == ((y >> 49u64) & 1u64 == 1u64),
            ((x >> 50u64) & 1u64 == 1u64) == ((y >> 50u64) & 1u64 == 1u64),
            ((x >> 51u64) & 1u64 == 1u64) == ((y >> 51u64) & 1u64 == 1u64),
            ((x >> 52u64) & 1u64 == 1u64) == ((y >> 52u64) & 1u64 == 1u64),
            ((x >> 53u64) & 1u64 == 1u64) == ((y >> 53u64) & 1u64 == 1u64),
            ((x >> 54u64) & 1u64 == 1u64) == ((y >> 54u64) & 1u64 == 1u64),
            ((x >> 55u64) & 1u64 == 1u64) == ((y >> 55u64) & 1u64 == 1u64),
            ((x >> 56u64) & 1u64 == 1u64) == ((y >> 56u64) & 1u64 == 1u64),
            ((x >> 57u64) & 1u64 == 1u64) == ((y >> 57u64) & 1u64 == 1u64),
            ((x >> 58u64) & 1u64 == 1u64) == ((y >> 58u64) & 1u64 == 1u64),
            ((x >> 59u64) & 1u64 == 1u64) == ((y >> 59u64) & 1u64 == 1u64),
            ((x >> 60u64) & 1u64 == 1u64) == ((y >> 60u64) & 1u64 == 1u64),
            ((x >> 61u64) & 1u64 == 1u64) == ((y >> 61u64) & 1u64 == 1u64),
            ((x >> 62u64) & 1u64 == 1u64) == ((y >> 62u64) & 1u64 == 1u64),
            ((x >> 63u64) & 1u64 == 1u64) == ((y >> 63u64) & 1u64 == 1u64),
    ;
}

/// The first bitboard found depends only on the bits of the cell.
pub proof fn lemma_first_set_same(v: Seq<u64>, w: Seq<u64>, index: int, start: int, end: int)
    requires
        forall|k: int| start <= k < end ==> bit(#[trigger] v[k], index) == bit(w[k], index),
    ensures
        first_set(v, index, start, end) == first_set(w, index, start, end),
    decreases end - start,
{
    if start < end {
        lemma_first_set_same(v, w, index, start + 1, end);
    }
}

/// The first bitboard found is the only one that holds the cell, or none.
pub proof fn lemma_first_set_only(v: Seq<u64>, index: int, start: int, end: int, k0: int)
    requires
        forall|k: int| start <= k < end && k != k0 ==> !bit(#[trigger] v[k], index),
        start <= k0 < end ==> bit(v[k0], index),
    ensures
        first_set(v, index, start, end) == if start <= k0 < end {
            k0
        } else {
            -1
        },
    decreases end - start,
{
    if start < end && start != k0 {
        lemma_first_set_only(v, index, start + 1, end, k0);
    }
}

/// An empty cell reads as 0.
pub proof fn lemma_clear_cell_empty(v: Seq<u64>, index: int)
    requires
        cell_clear(v, index),
    ensures
        piece_at(v, index) == 0,
{
    lemma_first_set_only(v, index, 0, 8, -1);
    lemma_first_set_only(v, index, 8, 16, -1);
}

/// Law: putting a piece (or a stack) on an empty cell, the cell then holds that
/// piece, and every other cell keeps its piece and its bits.
pub proof fn lemma_set_piece_get(v: Seq<u64>, index: int, p: u8)
    requires
        v.len() == 16,
        0 <= index < 64,
        cell_clear(v, index),
        p != 0,
        is_valid_cell(p),
    ensures
        piece_at(set_piece_bits(v, index, p), index) == p,
        forall|j: int|
            0 <= j < 64 && j != index ==> piece_at(#[trigger] set_piece_bits(v, index, p), j)
                == piece_at(v, j),
        forall|j: int, k: int|
            0 <= j < 64 && j != index && 0 <= k < 16 ==> #[trigger] bit(
                set_piece_bits(v, index, p)[k],
                j,
            ) == bit(v[k], j),
{
    let w = set_piece_bits(v, index, p);
    assert forall|j: int, k: int|
        0 <= j < 64 && 0 <= k < 16 implies #[trigger] bit(w[k], j) == (bit(v[k], j) || (j == index
        && (k == p % 8 || (p >= 16 && k == p / 16)))) by {
        if k == p % 8 || (p >= 16 && k == p / 16) {
            lemma_bit_set(v[k], index, j);
        }
    }
    let b = if p >= 16 {
        (p / 16) as int
    } else {
        -1
    };
    lemma_first_set_only(w, index, 0, 8, (p % 8) as int);
    lemma_first_set_only(w, index, 8, 16, b);
    assert forall|j: int| 0 <= j < 64 && j != index implies #[trigger] piece_at(w, j) == piece_at(
        v,
        j,
    ) by {
        lemma_first_set_same(v, w, j, 0, 8);
        lemma_first_set_same(v, w, j, 8, 16);
    }
}

/// Law: after removing the piece that a cell holds, when no other bitboard held
/// the cell, the cell is empty, and every other cell keeps its piece.
pub proof fn lemma_unset_piece_get(v: Seq<u64>, index: int)
    requires
        v.len() == 16,
        0 <= index < 64,
        forall|k: int|
            0 <= k < 16 && bit(#[trigger] v[k], index) ==> k == piece_at(v, index) % 8 || (
            piece_at(v, index) >= 16 && k == piece_at(v, index) / 16),
    ensures
        cell_clear(unset_piece_bits(v, index, piece_at(v, index)), index),
        piece_at(unset_piece_bits(v, index, piece_at(v, index)), index) == 0,
        forall|j: int|
            0 <= j < 64 && j != index ==> piece_at(
                #[trigger] unset_piece_bits(v, index, piece_at(v, index)),
                j,
            ) == piece_at(v, j),
{
    let p = piece_at(v, index);
    let w = unset_piece_bits(v, index, p);
    assert forall|j: int, k: int|
        0 <= j < 64 && 0 <= k < 16 implies #[trigger] bit(w[k], j) == (bit(v[k], j) && !(j == index
        && (k == p % 8 || (p >= 16 && k == p / 16)))) by {
        if k == p % 8 || (p >= 16 && k == p / 16) {
            lemma_bit_unset(v[k], index, j);
        }
    }
    assert(cell_clear(w, index));
    lemma_clear_cell_empty(w, index);
    assert forall|j: int| 0 <= j < 64 && j != index implies #[trigger] piece_at(w, j) == piece_at(
        v,
        j,
    ) by {
        lemma_first_set_same(v, w, j, 0, 8);
        lemma_first_set_same(v, w, j, 8, 16);
    }
}

/// Bits 45 and above are clear in every bitboard: only cells of the board are used.
pub open spec fn cells_only(v: Seq<u64>) -> bool {
    forall|k: int, j: int| 0 <= k < 16 && 45 <= j < 64 ==> !#[trigger] bit(v[k], j)
}

/// The bitboards of the cells below `n`: each piece put in its cell of empty bitboards.
pub open spec fn cells_bits_upto(cells: Seq<u8>, n: int) -> Seq<u64>
    decreases n,
{
    if n <= 0 {
        Seq::new(16, |k: int| 0u64)
    } else if cells[n - 1] != 0 {
        set_piece_bits(cells_bits_upto(cells, n - 1), n - 1, cells[n - 1])
    } else {
        cells_bits_upto(cells, n - 1)
    }
}

/// The bitboards of 45 cells.
pub open spec fn cells_bits(cells: Seq<u8>) -> Seq<u64> {
    cells_bits_upto(cells, 45)
}

/// The 45 cells of bitboards.
pub open spec fn board_cells(v: Seq<u64>) -> Seq<u8> {
    Seq::new(45, |i: int| piece_at(v, i))
}

impl Board {
    /// Builds a board from cells.
    pub fn from_cells(cells: &Cells) -> (r: Board)
        ensures
            r@ == cells_bits(cells@),
            cells_only(r@),
            (forall|i: int| 0 <= i < 45 ==> is_valid_cell(#[trigger] cells@[i])) ==> board_wf(r@)
                && forall|i: int| 0 <= i < 45 ==> piece_at(r@, i) == #[trigger] cells@[i],
    {
        let ghost valid = forall|i: int| 0 <= i < 45 ==> is_valid_cell(#[trigger] cells@[i]);
        let mut board = Board::empty();
        proof {
            assert forall|j: int| 0 <= j < 64 implies #[trigger] cell_clear(board@, j) by {
                lemma_bit_ops(0u64, 0u64, j);
            }
        }
        let mut i: usize = 0;
        while i < N_CELLS
            invariant
                i <= 45,
                board@.len() == 16,
                valid == forall|k: int| 0 <= k < 45 ==> is_valid_cell(#[trigger] cells@[k]),
                valid ==> forall|j: int| 0 <= j < i ==> piece_at(board@, j) == #[trigger] cells@[j],
                forall|j: int| i <= j < 64 ==> #[trigger] cell_clear(board@, j),
                valid ==> forall|j: int| 0 <= j < i ==> #[trigger] cell_wf(board@, j),
                board@ == cells_bits_upto(cells@, i as int),
            decreases N_CELLS - i,
        {
            let piece = cells[i];
            if piece != 0 {
                let ghost before = board@;
                board.set_piece(i, piece);
                proof {
                    assert forall|j: int| i < j < 64 implies #[trigger] cell_clear(board@, j) by {
                        assert(cell_clear(before, j));
                        lemma_set_unset_frame(before, i as int, piece, j);
                        lemma_same_cell(before, board@, j);
                    }
                    if valid {
                        assert(is_valid_cell(cells@[i as int]));
                        lemma_set_piece_get(before, i as int, piece);
                        lemma_set_fresh(before, i as int, piece);
                        assert forall|j: int| 0 <= j < i implies #[trigger] cell_wf(board@, j) by {
                            lemma_set_unset_frame(before, i as int, piece, j);
                            lemma_same_cell(before, board@, j);
                        }
                    }
                }
            } else {
                proof {
                    lemma_clear_cell_empty(board@, i as int);
                    lemma_clear_wf(board@, i as int);
                }
            }
            i += 1;
        }
        proof {
            if valid {
                assert forall|j: int| 0 <= j < 64 implies #[trigger] cell_wf(board@, j) by {
                    if j >= 45 {
                        lemma_clear_wf(board@, j);
                    }
                }
            }
            assert forall|k: int, j: int| 0 <= k < 16 && 45 <= j < 64 implies !#[trigger] bit(
                board@[k],
                j,
            ) by {
                assert(cell_clear(board@, j));
            }
        }
        board
    }

    /// The cells of the board.
    pub fn to_cells(&self) -> (r: Cells)
        ensures
            forall|i: int| 0 <= i < 45 ==> #[trigger] r@[i] == piece_at(self@, i),
            r@ == board_cells(self@),
    {
        let mut cells: Cells = [0u8; N_CELLS];
        let mut i: usize = 0;
        while i < N_CELLS
            invariant
                i <= 45,
                forall|j: int| 0 <= j < i ==> #[trigger] cells@[j] == piece_at(self@, j),
            decreases N_CELLS - i,
        {
            cells[i] = self.get_piece(i);
            i += 1;
        }
        assert(cells@ =~= board_cells(self@));
        cells
    }
}

} // verus!
