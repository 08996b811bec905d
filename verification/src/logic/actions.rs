//! Implements the actions a player can choose (move, stack, unstack...).
//!
//! An action is stored as a u32 value. Its contents are divided into the following sections:
//!
//! | Data  | Depth (optional) | Third index | Second index | First index |
//! |-------|------------------|-------------|--------------|-------------|
//! | Width | 8                | 8           | 8            | 8           |
use vstd::prelude::*;

use crate::bitboard::{
    bit, board_cells, cell_clear, cells_bits, cells_bits_upto, cells_only, first_set,
    lemma_bit_ops, lemma_bit_set, lemma_bit_unset, lemma_bits_equal, lemma_clear_cell_empty,
    lemma_first_set_range, lemma_first_set_same, lemma_set_piece_get, lemma_unset_piece_get,
    piece_at, piece_from_slots, set_piece_bits, start_bits, unset_piece_bits, Board,
};
use crate::logic::index::{CellIndex, CellIndexTrait, INDEX_MASK};
use crate::piece::{bottom_of, is_valid_cell, top_of, Piece, PieceTrait};

verus! {

/// Size of the array that stores player actions
pub const MAX_PLAYER_ACTIONS: usize = 512;
/// Size of the array that stores player captures
pub const MAX_PLAYER_CAPTURES: usize = 128;

/// An action is stored as a u32 value. See [`crate::logic::actions`] for the specific data format.
pub type Action = u32;

/// Mask to get the action without additional data
pub const ACTION_MASK: Action = 0x00FF_FFFFu32;

/// The first index of an action.
pub open spec fn action_start(a: u32) -> int {
    a as int % 256
}

/// The second index of an action.
pub open spec fn action_mid(a: u32) -> int {
    (a as int / 256) % 256
}

/// The third index of an action.
pub open spec fn action_end(a: u32) -> int {
    (a as int / 65536) % 256
}

/// The action made of three indices (each below 256).
pub open spec fn action_of(s: int, m: int, e: int) -> u32 {
    (s + 256 * m + 65536 * e) as u32
}

/// `ActionTrait` trait for `Action`
pub trait ActionTrait: Copy {
    /// Converts an action to its indices
    fn to_indices(self) -> (CellIndex, CellIndex, CellIndex);
    /// Converts a set of three indices to an action
    fn from_indices(index_start: CellIndex, index_mid: CellIndex, index_end: CellIndex) -> Self;
    /// Converts a set of two starting indices (without the end index) to an action
    fn from_indices_half(index_start: CellIndex, index_mid: CellIndex) -> Self;
    /// Returns the search depth stored in the action data
    fn search_depth(self) -> u64;
    /// Adds the last index of an action to itself
    fn add_last_index(self, index_end: CellIndex) -> Self;
}

impl ActionTrait for Action {
    #[inline(always)]
    fn to_indices(self) -> (r: (CellIndex, CellIndex, CellIndex))
        ensures
            r.0 == action_start(self),
            r.1 == action_mid(self),
            r.2 == action_end(self),
    {
        let a = self;
        let s = a & INDEX_MASK;
        let m = (a >> 8u32) & INDEX_MASK;
        let e = (a >> 16u32) & INDEX_MASK;
        assert(s == a % 256 && m == (a / 256) % 256 && e == (a / 65536) % 256) by (bit_vector)
            requires
                s == a & 0xFFu32,
                m == (a >> 8u32) & 0xFFu32,
                e == (a >> 16u32) & 0xFFu32,
        ;
        (s as CellIndex, m as CellIndex, e as CellIndex)
    }

    /// Concatenate three indices into a `Action`.
    /// The first index is stored in the 8 least significant bits.
    #[inline(always)]
    fn from_indices(index_start: CellIndex, index_mid: CellIndex, index_end: CellIndex) -> (r: u32)
        ensures
            index_start < 256 && index_mid < 256 && index_end < 256 ==> r == action_of(
                index_start as int,
                index_mid as int,
                index_end as int,
            ),
    {
        let s = index_start as u32;
        let m = index_mid as u32;
        let e = index_end as u32;
        let r = s | (m << 8u32) | (e << 16u32);
        assert(s < 256 && m < 256 && e < 256 ==> r == s + 256 * m + 65536 * e) by (bit_vector)
            requires
                r == s | (m << 8u32) | (e << 16u32),
        ;
        r
    }

    #[inline(always)]
    fn from_indices_half(index_start: CellIndex, index_mid: CellIndex) -> (r: u32)
        ensures
            index_start < 256 && index_mid < 256 ==> r == action_of(
                index_start as int,
                index_mid as int,
                0,
            ),
    {
        let s = index_start as u32;
        let m = index_mid as u32;
        let r = s | (m << 8u32);
        assert(s < 256 && m < 256 ==> r == s + 256 * m) by (bit_vector)
            requires
                r == s | (m << 8u32),
        ;
        r
    }

    #[inline(always)]
    fn search_depth(self) -> (r: u64)
        ensures
            r == self as int / 16777216,
    {
        let a = self;
        let d = (a >> 24u32) & 0xFFu32;
        assert(d == a / 16777216) by (bit_vector)
            requires
                d == (a >> 24u32) & 0xFFu32,
        ;
        d as u64
    }

    /// Concatenate a half action and the last index into a `Action`.
    /// The first index is stored in the 8 least significant bits.
    #[inline(always)]
    fn add_last_index(self, index_end: CellIndex) -> (r: u32)
        ensures
            self < 65536 && index_end < 256 ==> r == self + 65536 * index_end,
    {
        let a = self;
        let e = index_end as u32;
        let r = a | (e << 16u32);
        assert(a < 65536 && e < 256 ==> r == a + 65536 * e) by (bit_vector)
            requires
                r == a | (e << 16u32),
        ;
        r
    }
}

/// Law: the indices read back from an action are those it was made of.
pub proof fn lemma_action_indices(s: int, m: int, e: int)
    requires
        0 <= s < 256,
        0 <= m < 256,
        0 <= e < 256,
    ensures
        action_start(action_of(s, m, e)) == s,
        action_mid(action_of(s, m, e)) == m,
        action_end(action_of(s, m, e)) == e,
        action_of(s, m, e) as int == s + 256 * m + 65536 * e,
{
}

/// Law: an action without extra data is made of its three indices.
pub proof fn lemma_action_rebuilt(a: u32)
    ensures
        action_of(action_start(a), action_mid(a), action_end(a)) as int == a as int % 16777216,
{
}

/// Law: completing a half action gives the full action.
pub proof fn lemma_action_half(s: int, m: int, e: int)
    requires
        0 <= s < 256,
        0 <= m < 256,
        0 <= e < 256,
    ensures
        action_of(s, m, 0) + 65536 * e == action_of(s, m, e),
        action_of(s, m, 0) < 65536,
{
}

/// This struct is a growable list that stores player actions.
#[derive(Debug, Clone, PartialEq)]
pub struct Actions {
    data: Vec<Action>,
}

/// This struct is an alias to [`Actions`].
/// It is used specifically to store available captures.
pub type ActionsLight = Actions;

impl View for Actions {
    type V = Seq<Action>;

    /// The stored actions, in order.
    closed spec fn view(&self) -> Seq<Action> {
        self.data@
    }
}

impl Actions {
    /// An empty list of actions
    pub fn new() -> (r: Actions)
        ensures
            r@ == Seq::<Action>::empty(),
    {
        Actions { data: Vec::new() }
    }

    /// Store a new action
    #[inline]
    pub fn push(&mut self, value: Action)
        ensures
            final(self)@ == old(self)@.push(value),
    {
        self.data.push(value);
    }

    /// Return the number of stored actions
    #[inline]
    pub fn len(&self) -> (r: usize)
        ensures
            r == self@.len(),
    {
        self.data.len()
    }

    /// Returns whether the number of actions is zero
    #[inline]
    pub fn is_empty(&self) -> (r: bool)
        ensures
            r == (self@.len() == 0),
    {
        self.len() == 0
    }

    /// Returns the action at the given position
    #[inline]
    pub fn get(&self, index: usize) -> (r: Action)
        requires
            index < self@.len(),
        ensures
            r == self@[index as int],
    {
        self.data[index]
    }

    /// Replaces the action at the given position
    #[inline]
    pub fn set(&mut self, index: usize, value: Action)
        requires
            index < old(self)@.len(),
        ensures
            final(self)@ == old(self)@.update(index as int, value),
    {
        self.data.set(index, value);
    }

    /// Returns the stored actions as a vector
    pub fn to_vec(&self) -> (r: Vec<Action>)
        ensures
            r@ == self@,
    {
        self.data.clone()
    }
}

impl Default for Actions {
    fn default() -> (r: Actions)
        ensures
            r@ == Seq::<Action>::empty(),
    {
        Actions::new()
    }
}

/// The top piece and the bottom piece of `piece` stacked on `bottom`.
pub open spec fn stacked(piece: u8, bottom: u8) -> u8 {
    (top_of(piece) + 16 * bottom) as u8
}

/// The bitboards after a move from `s` to `e`: the piece at `s` leaves it and
/// replaces whatever was at `e`.
pub open spec fn move_bits(v: Seq<u64>, s: int, e: int) -> Seq<u64> {
    let p = piece_at(v, s);
    let v1 = unset_piece_bits(v, s, p);
    let v2 = unset_piece_bits(v1, e, piece_at(v1, e));
    set_piece_bits(v2, e, p)
}

/// The bitboards after stacking the top piece at `s` on the piece at `e`.
pub open spec fn stack_bits(v: Seq<u64>, s: int, e: int) -> Seq<u64> {
    let ps = piece_at(v, s);
    let pe = piece_at(v, e);
    let v1 = unset_piece_bits(v, s, ps);
    let v2 = unset_piece_bits(v1, e, pe);
    let v3 = if bottom_of(ps) != 0 {
        set_piece_bits(v2, s, bottom_of(ps))
    } else {
        v2
    };
    set_piece_bits(v3, e, stacked(ps, pe))
}

/// The bitboards after unstacking the top piece at `s` onto `e`.
pub open spec fn unstack_bits(v: Seq<u64>, s: int, e: int) -> Seq<u64> {
    let ps = piece_at(v, s);
    let v1 = unset_piece_bits(v, s, ps);
    let v2 = unset_piece_bits(v1, e, piece_at(v1, e));
    let v3 = if bottom_of(ps) != 0 {
        set_piece_bits(v2, s, bottom_of(ps))
    } else {
        v2
    };
    set_piece_bits(v3, e, top_of(ps))
}

/// The indices of the action can be used on the board (a null start means no action).
pub open spec fn action_fits(v: Seq<u64>, a: u32) -> bool {
    let s = action_start(a);
    let m = action_mid(a);
    let e = action_end(a);
    s == 255 || (s < 64 && (piece_at(v, s) == 0 || (e < 64 && (m == 255 || m < 64))))
}

/// The bitboards after playing an action: a move (no middle index), or two
/// steps through the middle cell, of which one is a stack when the middle
/// (or end) cell holds a piece of the same colour, and otherwise a move
/// followed by an unstack.
pub open spec fn play_bits(v: Seq<u64>, a: u32) -> Seq<u64> {
    let s = action_start(a);
    let m = action_mid(a);
    let e = action_end(a);
    if s == 255 {
        v
    } else {
        let ps = piece_at(v, s);
        if ps == 0 {
            v
        } else if m == 255 {
            move_bits(v, s, e)
        } else {
            let pm = piece_at(v, m);
            let pe = piece_at(v, e);
            if pm != 0 && pm & 4 == ps & 4 && s != m {
                move_bits(stack_bits(v, s, m), m, e)
            } else if pe != 0 && pe & 4 == ps & 4 {
                stack_bits(move_bits(v, s, m), m, e)
            } else {
                unstack_bits(move_bits(v, s, m), m, e)
            }
        }
    }
}

impl Board {
    /// Applies a move between chosen coordinates.
    pub fn do_move(&mut self, index_start: CellIndex, index_end: CellIndex)
        requires
            index_start < 64,
            index_end < 64,
        ensures
            final(self)@ == move_bits(old(self)@, index_start as int, index_end as int),
    {
        let start_piece = self.get_piece(index_start);
        self.unset_piece(index_start, start_piece);
        self.remove_piece(index_end);
        self.set_piece(index_end, start_piece);
    }

    /// Applies a stack between chosen coordinates.
    pub fn do_stack(&mut self, index_start: CellIndex, index_end: CellIndex)
        requires
            index_start < 64,
            index_end < 64,
        ensures
            final(self)@ == stack_bits(old(self)@, index_start as int, index_end as int),
    {
        let piece_start = self.get_piece(index_start);
        let piece_end = self.get_piece(index_end);

        self.unset_piece(index_start, piece_start);
        self.unset_piece(index_end, piece_end);

        if piece_start.bottom() != 0 {
            self.set_piece(index_start, piece_start.bottom());
        }
        let stacked_piece = piece_start.stack_on(piece_end);
        proof {
            let t = piece_start;
            let b = piece_end;
            assert((t & 15u8) | (b << 4u8) == ((t % 16) + 16 * b) as u8) by (bit_vector);
        }
        self.set_piece(index_end, stacked_piece);
    }

    /// Applies an unstack between chosen coordinates.
    pub fn do_unstack(&mut self, index_start: CellIndex, index_end: CellIndex)
        requires
            index_start < 64,
            index_end < 64,
        ensures
            final(self)@ == unstack_bits(old(self)@, index_start as int, index_end as int),
    {
        let piece_start: Piece = self.get_piece(index_start);

        self.unset_piece(index_start, piece_start);
        self.remove_piece(index_end);

        if piece_start.bottom() != 0 {
            self.set_piece(index_start, piece_start.bottom());
        }

        self.set_piece(index_end, piece_start.top());
    }

    /// Plays the selected action.
    pub fn play_action(&mut self, action: Action)
        requires
            action_fits(old(self)@, action),
        ensures
            final(self)@ == play_bits(old(self)@, action),
    {
        let (index_start, index_mid, index_end) = action.to_indices();

        if index_start.is_null() {
            return;
        }
        let piece_start: Piece = self.get_piece(index_start);

        if !piece_start.is_empty() {
            // If there is no intermediate move
            if index_mid.is_null() {
                // Simple move
                self.do_move(index_start, index_end);
            } else {
                let piece_mid: Piece = self.get_piece(index_mid);
                let piece_end: Piece = self.get_piece(index_end);
                // The piece at the mid coordinates is an ally : stack and move
                if !piece_mid.is_empty() && piece_mid.colour() == piece_start.colour() && (
                index_start != index_mid) {
                    self.do_stack(index_start, index_mid);
                    self.do_move(index_mid, index_end);
                }
                // The piece at the end coordinates is an ally : move and stack
                 else if !piece_end.is_empty() && piece_end.colour() == piece_start.colour() {
                    self.do_move(index_start, index_mid);
                    self.do_stack(index_mid, index_end);
                }
                // The end coordinates contain an enemy or no piece : move and unstack
                 else {
                    self.do_move(index_start, index_mid);
                    self.do_unstack(index_mid, index_end);
                }
            }
        }
    }
}

} // verus!

verus! {

/// The bits of the cell `j` are the same in both boards.
pub open spec fn same_cell_bits(v: Seq<u64>, w: Seq<u64>, j: int) -> bool {
    forall|k: int| 0 <= k < 16 ==> #[trigger] bit(w[k], j) == bit(v[k], j)
}

/// The cell `j` holds exactly the bits of the piece read there, and that piece
/// is a valid cell content.
pub open spec fn cell_wf(v: Seq<u64>, j: int) -> bool {
    &&& is_valid_cell(piece_at(v, j))
    &&& forall|k: int|
        0 <= k < 16 && #[trigger] bit(v[k], j) ==> (k == piece_at(v, j) % 8 || (piece_at(v, j)
            >= 16 && k == piece_at(v, j) / 16))
}

/// Every cell holds exactly the bits of a valid piece.
pub open spec fn board_wf(v: Seq<u64>) -> bool {
    v.len() == 16 && forall|j: int| 0 <= j < 64 ==> #[trigger] cell_wf(v, j)
}

/// Cells with the same bits hold the same piece, and are well formed alike.
pub proof fn lemma_same_cell(v: Seq<u64>, w: Seq<u64>, j: int)
    requires
        same_cell_bits(v, w, j),
    ensures
        piece_at(w, j) == piece_at(v, j),
        cell_wf(v, j) ==> cell_wf(w, j),
        cell_clear(v, j) ==> cell_clear(w, j),
{
    lemma_first_set_same(v, w, j, 0, 8);
    lemma_first_set_same(v, w, j, 8, 16);
}

/// Putting or removing a piece at `i` leaves the bits of every other cell.
pub proof fn lemma_set_unset_frame(v: Seq<u64>, i: int, p: u8, j: int)
    requires
        0 <= i < 64,
        j != i,
    ensures
        same_cell_bits(v, set_piece_bits(v, i, p), j),
        same_cell_bits(v, unset_piece_bits(v, i, p), j),
{
    assert forall|k: int| 0 <= k < 16 implies #[trigger] bit(set_piece_bits(v, i, p)[k], j)
        == bit(v[k], j) by {
        lemma_bit_set(v[k], i, j);
    }
    assert forall|k: int| 0 <= k < 16 implies #[trigger] bit(unset_piece_bits(v, i, p)[k], j)
        == bit(v[k], j) by {
        lemma_bit_unset(v[k], i, j);
    }
}

/// An empty cell is well formed and reads as 0.
pub proof fn lemma_clear_wf(v: Seq<u64>, i: int)
    requires
        cell_clear(v, i),
    ensures
        cell_wf(v, i),
        piece_at(v, i) == 0,
{
    lemma_clear_cell_empty(v, i);
}

/// Removing bits from an empty cell leaves it empty.
pub proof fn lemma_unset_clear(v: Seq<u64>, i: int, p: u8)
    requires
        0 <= i < 64,
        cell_clear(v, i),
    ensures
        cell_clear(unset_piece_bits(v, i, p), i),
{
    assert forall|k: int| 0 <= k < 16 implies !#[trigger] bit(unset_piece_bits(v, i, p)[k], i) by {
        lemma_bit_unset(v[k], i, i);
    }
}

/// Removing the piece of a well-formed cell empties it.
pub proof fn lemma_unset_own(v: Seq<u64>, i: int)
    requires
        v.len() == 16,
        0 <= i < 64,
        cell_wf(v, i),
    ensures
        cell_clear(unset_piece_bits(v, i, piece_at(v, i)), i),
{
    lemma_unset_piece_get(v, i);
}

/// Putting a valid piece on an empty cell makes a well-formed cell that holds it.
pub proof fn lemma_set_fresh(v: Seq<u64>, i: int, p: u8)
    requires
        v.len() == 16,
        0 <= i < 64,
        cell_clear(v, i),
        p != 0,
        is_valid_cell(p),
    ensures
        cell_wf(set_piece_bits(v, i, p), i),
        piece_at(set_piece_bits(v, i, p), i) == p,
{
    lemma_set_piece_get(v, i, p);
    let w = set_piece_bits(v, i, p);
    assert forall|k: int| 0 <= k < 16 && #[trigger] bit(w[k], i) implies (k == p % 8 || (p >= 16
        && k == p / 16)) by {
        lemma_bit_set(v[k], i, i);
    }
}

/// Stacking a piece on a valid cell content gives a valid stack.
pub proof fn lemma_stacked_valid(ps: u8, pe: u8)
    requires
        ps != 0,
        is_valid_cell(ps),
        is_valid_cell(pe),
    ensures
        stacked(ps, pe) != 0,
        is_valid_cell(stacked(ps, pe)),
        top_of(stacked(ps, pe)) == top_of(ps),
{
    let r = stacked(ps, pe);
    let t = top_of(ps);
    assert(8 <= t < 16);
    assert(pe == 0 || 8 <= pe % 16 < 16);
    assert(r % 16 == t && r / 16 == pe % 16) by (bit_vector)
        requires
            r == (t + 16 * pe) as u8,
            t < 16,
    ;
}

/// Cells with the same bits as cells with the same bits have the same bits.
pub proof fn lemma_same_cell_trans(u: Seq<u64>, v: Seq<u64>, w: Seq<u64>, j: int)
    requires
        same_cell_bits(u, v, j),
        same_cell_bits(v, w, j),
    ensures
        same_cell_bits(u, w, j),
{
    assert forall|k: int| 0 <= k < 16 implies #[trigger] bit(w[k], j) == bit(u[k], j) by {
        assert(bit(w[k], j) == bit(v[k], j));
    }
}

/// Moving a piece keeps the board well formed: the end cell then holds the
/// piece, the start cell is empty (when it is another cell), and the other
/// cells keep their bits.
pub proof fn lemma_move_wf(v: Seq<u64>, s: int, e: int)
    requires
        board_wf(v),
        0 <= s < 64,
        0 <= e < 64,
        piece_at(v, s) != 0,
    ensures
        board_wf(move_bits(v, s, e)),
        piece_at(move_bits(v, s, e), e) == piece_at(v, s),
        s != e ==> piece_at(move_bits(v, s, e), s) == 0,
        forall|j: int| 0 <= j < 64 && j != s && j != e ==> same_cell_bits(v, #[trigger] move_bits(v, s, e), j),
{
    let p = piece_at(v, s);
    let v1 = unset_piece_bits(v, s, p);
    let pe1 = piece_at(v1, e);
    let v2 = unset_piece_bits(v1, e, pe1);
    let v3 = set_piece_bits(v2, e, p);
    assert(cell_wf(v, s));
    lemma_unset_own(v, s);
    assert forall|j: int| 0 <= j < 64 && j != s implies same_cell_bits(v, v1, j) by {
        lemma_set_unset_frame(v, s, p, j);
    }
    if e == s {
        lemma_clear_wf(v1, e);
        lemma_unset_clear(v1, e, pe1);
    } else {
        assert(cell_wf(v, e));
        lemma_same_cell(v, v1, e);
        lemma_unset_own(v1, e);
    }
    assert forall|j: int| 0 <= j < 64 && j != e implies same_cell_bits(v1, v2, j) by {
        lemma_set_unset_frame(v1, e, pe1, j);
    }
    lemma_set_fresh(v2, e, p);
    assert forall|j: int| 0 <= j < 64 && j != e implies same_cell_bits(v2, v3, j) by {
        lemma_set_unset_frame(v2, e, p, j);
    }
    assert forall|j: int| 0 <= j < 64 implies #[trigger] cell_wf(v3, j) by {
        if j == s && j != e {
            lemma_same_cell(v1, v2, j);
            lemma_same_cell(v2, v3, j);
            lemma_clear_wf(v3, j);
        } else if j != e {
            assert(cell_wf(v, j));
            lemma_same_cell(v, v1, j);
            lemma_same_cell(v1, v2, j);
            lemma_same_cell(v2, v3, j);
        }
    }
    if s != e {
        lemma_same_cell(v1, v2, s);
        lemma_same_cell(v2, v3, s);
        lemma_clear_wf(v3, s);
    }
    assert forall|j: int| 0 <= j < 64 && j != s && j != e implies same_cell_bits(
        v,
        #[trigger] move_bits(v, s, e),
        j,
    ) by {
        lemma_same_cell_trans(v, v1, v2, j);
        lemma_same_cell_trans(v, v2, v3, j);
    }
}

/// Stacking the top piece of `s` on `e` keeps the board well formed: `e` then
/// holds the stack, `s` what was below, and the other cells keep their bits.
pub proof fn lemma_stack_wf(v: Seq<u64>, s: int, e: int)
    requires
        board_wf(v),
        0 <= s < 64,
        0 <= e < 64,
        s != e,
        piece_at(v, s) != 0,
    ensures
        board_wf(stack_bits(v, s, e)),
        piece_at(stack_bits(v, s, e), e) == stacked(piece_at(v, s), piece_at(v, e)),
        piece_at(stack_bits(v, s, e), s) == bottom_of(piece_at(v, s)),
        forall|j: int| 0 <= j < 64 && j != s && j != e ==> same_cell_bits(v, #[trigger] stack_bits(v, s, e), j),
{
    let ps = piece_at(v, s);
    let pe = piece_at(v, e);
    let v1 = unset_piece_bits(v, s, ps);
    let v2 = unset_piece_bits(v1, e, pe);
    let b = bottom_of(ps);
    let v3 = if b != 0 {
        set_piece_bits(v2, s, b)
    } else {
        v2
    };
    let st = stacked(ps, pe);
    let v4 = set_piece_bits(v3, e, st);
    assert(cell_wf(v, s));
    assert(cell_wf(v, e));
    lemma_unset_own(v, s);
    assert forall|j: int| 0 <= j < 64 && j != s implies same_cell_bits(v, v1, j) by {
        lemma_set_unset_frame(v, s, ps, j);
    }
    lemma_same_cell(v, v1, e);
    lemma_unset_own(v1, e);
    assert forall|j: int| 0 <= j < 64 && j != e implies same_cell_bits(v1, v2, j) by {
        lemma_set_unset_frame(v1, e, pe, j);
    }
    lemma_same_cell(v1, v2, s);
    if b != 0 {
        lemma_set_fresh(v2, s, b);
        assert forall|j: int| 0 <= j < 64 && j != s implies same_cell_bits(v2, v3, j) by {
            lemma_set_unset_frame(v2, s, b, j);
        }
    } else {
        lemma_clear_wf(v2, s);
    }
    lemma_same_cell(v2, v3, e);
    lemma_stacked_valid(ps, pe);
    lemma_set_fresh(v3, e, st);
    assert forall|j: int| 0 <= j < 64 && j != e implies same_cell_bits(v3, v4, j) by {
        lemma_set_unset_frame(v3, e, st, j);
    }
    lemma_same_cell(v3, v4, s);
    assert forall|j: int| 0 <= j < 64 implies #[trigger] cell_wf(v4, j) by {
        if j != s && j != e {
            assert(cell_wf(v, j));
            lemma_same_cell(v, v1, j);
            lemma_same_cell(v1, v2, j);
            lemma_same_cell(v2, v3, j);
            lemma_same_cell(v3, v4, j);
        }
    }    assert forall|j: int| 0 <= j < 64 && j != s && j != e implies same_cell_bits(
        v,
        #[trigger] stack_bits(v, s, e),
        j,
    ) by {
        lemma_same_cell_trans(v, v1, v2, j);
        lemma_same_cell_trans(v, v2, v3, j);
        lemma_same_cell_trans(v, v3, v4, j);
    }
}

/// Unstacking the top piece of `s` onto `e` keeps the board well formed: `e`
/// then holds that piece, `s` what was below, and the other cells keep their bits.
pub proof fn lemma_unstack_wf(v: Seq<u64>, s: int, e: int)
    requires
        board_wf(v),
        0 <= s < 64,
        0 <= e < 64,
        s != e,
        piece_at(v, s) != 0,
    ensures
        board_wf(unstack_bits(v, s, e)),
        piece_at(unstack_bits(v, s, e), e) == top_of(piece_at(v, s)),
        piece_at(unstack_bits(v, s, e), s) == bottom_of(piece_at(v, s)),
        forall|j: int| 0 <= j < 64 && j != s && j != e ==> same_cell_bits(v, #[trigger] unstack_bits(v, s, e), j),
{
    let ps = piece_at(v, s);
    let v1 = unset_piece_bits(v, s, ps);
    let pe1 = piece_at(v1, e);
    let v2 = unset_piece_bits(v1, e, pe1);
    let b = bottom_of(ps);
    let v3 = if b != 0 {
        set_piece_bits(v2, s, b)
    } else {
        v2
    };
    let t = top_of(ps);
    let v4 = set_piece_bits(v3, e, t);
    assert(cell_wf(v, s));
    assert(cell_wf(v, e));
    lemma_unset_own(v, s);
    assert forall|j: int| 0 <= j < 64 && j != s implies same_cell_bits(v, v1, j) by {
        lemma_set_unset_frame(v, s, ps, j);
    }
    lemma_same_cell(v, v1, e);
    lemma_unset_own(v1, e);
    assert forall|j: int| 0 <= j < 64 && j != e implies same_cell_bits(v1, v2, j) by {
        lemma_set_unset_frame(v1, e, pe1, j);
    }
    lemma_same_cell(v1, v2, s);
    if b != 0 {
        lemma_set_fresh(v2, s, b);
        assert forall|j: int| 0 <= j < 64 && j != s implies same_cell_bits(v2, v3, j) by {
            lemma_set_unset_frame(v2, s, b, j);
        }
    } else {
        lemma_clear_wf(v2, s);
    }
    lemma_same_cell(v2, v3, e);
    lemma_set_fresh(v3, e, t);
    assert forall|j: int| 0 <= j < 64 && j != e implies same_cell_bits(v3, v4, j) by {
        lemma_set_unset_frame(v3, e, t, j);
    }
    lemma_same_cell(v3, v4, s);
    assert forall|j: int| 0 <= j < 64 implies #[trigger] cell_wf(v4, j) by {
        if j != s && j != e {
            assert(cell_wf(v, j));
            lemma_same_cell(v, v1, j);
            lemma_same_cell(v1, v2, j);
            lemma_same_cell(v2, v3, j);
            lemma_same_cell(v3, v4, j);
        }
    }    assert forall|j: int| 0 <= j < 64 && j != s && j != e implies same_cell_bits(
        v,
        #[trigger] unstack_bits(v, s, e),
        j,
    ) by {
        lemma_same_cell_trans(v, v1, v2, j);
        lemma_same_cell_trans(v, v2, v3, j);
        lemma_same_cell_trans(v, v3, v4, j);
    }
}


/// The steps of an action go to other cells: the start and end cells differ
/// when there is no middle cell, and the middle and end cells differ otherwise.
pub open spec fn distinct_steps(a: u32) -> bool {
    if action_mid(a) == 255 {
        action_start(a) != action_end(a)
    } else {
        action_mid(a) != action_end(a)
    }
}

/// Law: playing an action whose steps go to other cells keeps the board well
/// formed, changes no cell but its start, middle and end cells, and empties the
/// start cell of a one-step action.
pub proof fn lemma_play_wf(v: Seq<u64>, a: u32)
    requires
        board_wf(v),
        action_start(a) < 64,
        action_end(a) < 64,
        action_mid(a) < 64 || action_mid(a) == 255,
        distinct_steps(a),
    ensures
        board_wf(play_bits(v, a)),
        forall|j: int|
            0 <= j < 64 && j != action_start(a) && j != action_mid(a) && j != action_end(a)
                ==> #[trigger] piece_at(play_bits(v, a), j) == piece_at(v, j),
        action_mid(a) == 255 ==> piece_at(play_bits(v, a), action_start(a)) == 0,
{
    let s = action_start(a);
    let m = action_mid(a);
    let e = action_end(a);
    let ps = piece_at(v, s);
    let w = play_bits(v, a);
    assert(cell_wf(v, s));
    if m != 255 {
        assert(cell_wf(v, m));
    }
    if ps == 0 {
    } else if m == 255 {
        lemma_move_wf(v, s, e);
        assert forall|j: int| 0 <= j < 64 && j != s && j != m && j != e implies #[trigger] piece_at(
            w,
            j,
        ) == piece_at(v, j) by {
            lemma_same_cell(v, w, j);
        }
    } else {
        let pm = piece_at(v, m);
        let pe = piece_at(v, e);
        let u = if pm != 0 && pm & 4 == ps & 4 && s != m {
            lemma_stack_wf(v, s, m);
            lemma_stacked_valid(ps, pm);
            stack_bits(v, s, m)
        } else {
            lemma_move_wf(v, s, m);
            move_bits(v, s, m)
        };
        assert(piece_at(u, m) != 0);
        if pm != 0 && pm & 4 == ps & 4 && s != m {
            lemma_move_wf(u, m, e);
        } else if pe != 0 && pe & 4 == ps & 4 {
            lemma_stack_wf(u, m, e);
        } else {
            lemma_unstack_wf(u, m, e);
        }
        assert forall|j: int| 0 <= j < 64 && j != s && j != m && j != e implies #[trigger] piece_at(
            w,
            j,
        ) == piece_at(v, j) by {
            lemma_same_cell_trans(v, u, w, j);
            lemma_same_cell(v, w, j);
        }
    }
}


/// The indices of an action can be looked up in a bitboard: start and end
/// below 64, the middle below 64 or null.
pub open spec fn indices_fit(a: u32) -> bool {
    action_start(a) < 64 && action_end(a) < 64 && (action_mid(a) < 64 || action_mid(a) == 255)
}

/// Exchanging two entries of a sequence keeps the same entries.
pub proof fn lemma_swap_multiset(s: Seq<Action>, i: int, j: int)
    requires
        0 <= i < s.len(),
        0 <= j < s.len(),
    ensures
        s.update(i, s[j]).update(j, s[i]).to_multiset() == s.to_multiset(),
        s.update(i, s[j]).update(j, s[i]).len() == s.len(),
{
    broadcast use vstd::seq_lib::to_multiset_update;
    broadcast use vstd::multiset::group_multiset_axioms;

    let s1 = s.update(i, s[j]);
    assert(s1[j] == s[j]);
    assert(s1.to_multiset() == s.to_multiset().insert(s[j]).remove(s[i]));
    assert(s1.update(j, s[i]).to_multiset() == s1.to_multiset().insert(s[i]).remove(s[j]));
    let m = s.to_multiset();
    assert(s.contains(s[i]));
    assert(s.contains(s[j]));
    vstd::seq_lib::to_multiset_contains(s, s[i]);
    vstd::seq_lib::to_multiset_contains(s, s[j]);
    assert(m.count(s[i]) > 0);
    assert(m.insert(s[j]).remove(s[i]).insert(s[i]).remove(s[j]) =~= m);
}

/// Entries of a sequence with the same entries as another are entries of the other.
pub proof fn lemma_multiset_contains(s: Seq<Action>, t: Seq<Action>, k: int)
    requires
        s.to_multiset() == t.to_multiset(),
        0 <= k < s.len(),
    ensures
        t.contains(s[k]),
{
    assert(s.contains(s[k]));
    vstd::seq_lib::to_multiset_contains(s, s[k]);
    vstd::seq_lib::to_multiset_contains(t, s[k]);
}


/// The union of the top bitboards.
pub open spec fn tops_bits(v: Seq<u64>) -> u64 {
    v[0] | v[1] | v[2] | v[3] | v[4] | v[5] | v[6] | v[7]
}

/// The bitboards are consistent: no two top bitboards share a cell, no two
/// bottom bitboards share a cell, and each bottom cell has a top piece.
pub open spec fn consistent_bits(v: Seq<u64>) -> bool {
    &&& v.len() == 16
    &&& forall|a: int, b: int| 0 <= a < b < 8 ==> #[trigger] (v[a] & v[b]) == 0
    &&& forall|a: int, b: int| 8 <= a < b < 16 ==> #[trigger] (v[a] & v[b]) == 0
    &&& forall|k: int| 8 <= k < 16 ==> #[trigger] (v[k] & !tops_bits(v)) == 0
}

proof fn lemma_first_set_found(v: Seq<u64>, j: int, start: int, end: int, k: int)
    requires
        start <= k < end,
        bit(v[k], j),
    ensures
        start <= first_set(v, j, start, end) <= k,
    decreases end - start,
{
    if start < k && !bit(v[start], j) {
        lemma_first_set_found(v, j, start + 1, end, k);
    }
}

proof fn lemma_tops_bit(v: Seq<u64>, j: int)
    requires
        v.len() == 16,
        0 <= j < 64,
    ensures
        bit(tops_bits(v), j) <==> exists|k: int| 0 <= k < 8 && #[trigger] bit(v[k], j),
{
    lemma_bit_ops(v[0], v[1], j);
    lemma_bit_ops(v[0] | v[1], v[2], j);
    lemma_bit_ops(v[0] | v[1] | v[2], v[3], j);
    lemma_bit_ops(v[0] | v[1] | v[2] | v[3], v[4], j);
    lemma_bit_ops(v[0] | v[1] | v[2] | v[3] | v[4], v[5], j);
    lemma_bit_ops(v[0] | v[1] | v[2] | v[3] | v[4] | v[5], v[6], j);
    lemma_bit_ops(v[0] | v[1] | v[2] | v[3] | v[4] | v[5] | v[6], v[7], j);
    if exists|k: int| 0 <= k < 8 && #[trigger] bit(v[k], j) {
        let k = choose|k: int| 0 <= k < 8 && #[trigger] bit(v[k], j);
        assert(bit(tops_bits(v), j));
    }
}

/// Law: consistent bitboards make a well-formed board.
pub proof fn lemma_consistent_wf(v: Seq<u64>)
    requires
        consistent_bits(v),
    ensures
        board_wf(v),
{
    assert forall|j: int| 0 <= j < 64 implies #[trigger] cell_wf(v, j) by {
        let t = first_set(v, j, 0, 8);
        let b = first_set(v, j, 8, 16);
        lemma_first_set_range(v, j, 0, 8);
        lemma_first_set_range(v, j, 8, 16);
        lemma_tops_bit(v, j);
        assert forall|k: int| 0 <= k < 16 && bit(#[trigger] v[k], j) implies (k < 8 && k == t) || (8 <= k && k == b) by {
            if k < 8 {
                lemma_first_set_found(v, j, 0, 8, k);
                if t != k {
                    let lo = if t < k { t } else { k };
                    let hi = if t < k { k } else { t };
                    assert(v[lo] & v[hi] == 0);
                    lemma_bit_ops(v[lo], v[hi], j);
                    lemma_bit_ops(0u64, 0u64, j);
                }
            } else {
                lemma_first_set_found(v, j, 8, 16, k);
                if b != k {
                    let lo = if b < k { b } else { k };
                    let hi = if b < k { k } else { b };
                    assert(v[lo] & v[hi] == 0);
                    lemma_bit_ops(v[lo], v[hi], j);
                    lemma_bit_ops(0u64, 0u64, j);
                }
            }
        }
        if b >= 0 {
            assert(v[b] & !tops_bits(v) == 0);
            lemma_bit_ops(v[b], !tops_bits(v), j);
            lemma_bit_ops(tops_bits(v), 0u64, j);
            assert(t >= 0);
        }
        let p = piece_at(v, j);
        if t >= 0 && b >= 0 {
            assert(p == t + 8 + 16 * b);
        }
    }
}

impl Board {
    /// Whether the bitboards are consistent (see [`consistent_bits`]): then the
    /// board is well formed.
    pub fn is_consistent(&self) -> (r: bool)
        ensures
            r == consistent_bits(self@),
            r ==> board_wf(self@),
    {
        let tops = self.0[0].0 | self.0[1].0 | self.0[2].0 | self.0[3].0 | self.0[4].0 | self.0[5].0 | self.0[6].0 | self.0[7].0;
        assert(tops == tops_bits(self@));
        let mut a: usize = 0;
        while a < 16
            invariant
                a <= 16,
                self@.len() == 16,
                forall|x: int, y: int| 0 <= x < y < 8 && x < a ==> #[trigger] (self@[x] & self@[y]) == 0,
                forall|x: int, y: int| 8 <= x < y < 16 && x < a ==> #[trigger] (self@[x] & self@[y]) == 0,
            decreases 16 - a,
        {
            let end: usize = if a < 8 {
                8
            } else {
                16
            };
            let mut b: usize = a + 1;
            while b < end
                invariant
                    a < 16,
                    end == if a < 8 { 8usize } else { 16usize },
                    a < b <= end || (a + 1 == b && b > end) || b == end,
                    self@.len() == 16,
                    forall|y: int| a < y < b && y < end ==> #[trigger] (self@[a as int] & self@[y]) == 0,
                decreases end - b,
            {
                                if self.0[a].0 & self.0[b].0 != 0 {
                    assert((self@[a as int] & self@[b as int]) != 0);
                    return false;
                }
                b += 1;
            }
            a += 1;
        }
        let mut k: usize = 8;
        while k < 16
            invariant
                8 <= k <= 16,
                self@.len() == 16,
                tops == tops_bits(self@),
                forall|x: int| 8 <= x < k ==> #[trigger] (self@[x] & !tops_bits(self@)) == 0,
            decreases 16 - k,
        {
            if self.0[k].0 & !tops != 0 {
                assert((self@[k as int] & !tops_bits(self@)) != 0);
                return false;
            }
            k += 1;
        }
        proof {
            lemma_consistent_wf(self@);
        }
        true
    }
}


/// The bitboards of the cells below `n` hold those cells, well formed, and
/// nothing from `n` on.
proof fn lemma_cells_bits_upto(cells: Seq<u8>, n: int)
    requires
        0 <= n <= 45,
        cells.len() == 45,
        forall|i: int| 0 <= i < 45 ==> is_valid_cell(#[trigger] cells[i]),
    ensures
        cells_bits_upto(cells, n).len() == 16,
        forall|j: int| n <= j < 64 ==> #[trigger] cell_clear(cells_bits_upto(cells, n), j),
        forall|j: int|
            0 <= j < n ==> piece_at(cells_bits_upto(cells, n), j) == #[trigger] cells[j] && cell_wf(
                cells_bits_upto(cells, n),
                j,
            ),
    decreases n,
{
    let v = cells_bits_upto(cells, n);
    if n == 0 {
        assert forall|j: int| 0 <= j < 64 implies #[trigger] cell_clear(v, j) by {
            lemma_bit_ops(0u64, 0u64, j);
        }
    } else {
        let i = n - 1;
        let before = cells_bits_upto(cells, i);
        lemma_cells_bits_upto(cells, i);
        let p = cells[i];
        if p != 0 {
            assert forall|j: int| n <= j < 64 implies #[trigger] cell_clear(v, j) by {
                assert(cell_clear(before, j));
                lemma_set_unset_frame(before, i, p, j);
                lemma_same_cell(before, v, j);
            }
            lemma_set_piece_get(before, i, p);
            lemma_set_fresh(before, i, p);
            assert forall|j: int| 0 <= j < n implies piece_at(v, j) == #[trigger] cells[j] && cell_wf(
                v,
                j,
            ) by {
                if j < i {
                    lemma_set_unset_frame(before, i, p, j);
                    lemma_same_cell(before, v, j);
                }
            }
        } else {
            assert(v == before);
            lemma_clear_cell_empty(before, i);
            lemma_clear_wf(before, i);
            assert forall|j: int| 0 <= j < n implies piece_at(v, j) == #[trigger] cells[j] && cell_wf(
                v,
                j,
            ) by {
                if j == i {
                    assert(cell_clear(before, i));
                }
            }
        }
    }
}

/// Law: valid cells put on bitboards are read back as the same cells, from
/// well-formed bitboards.
pub proof fn lemma_cells_roundtrip(cells: Seq<u8>)
    requires
        cells.len() == 45,
        forall|i: int| 0 <= i < 45 ==> is_valid_cell(#[trigger] cells[i]),
    ensures
        board_wf(cells_bits(cells)),
        board_cells(cells_bits(cells)) == cells,
{
    lemma_cells_bits_upto(cells, 45);
    let v = cells_bits(cells);
    assert forall|j: int| 0 <= j < 64 implies #[trigger] cell_wf(v, j) by {
        if j >= 45 {
            lemma_clear_wf(v, j);
        } else {
            assert(piece_at(v, j) == cells[j]);
        }
    }
    assert(board_cells(v) =~= cells);
}

/// In a well-formed cell, a bitboard has the cell exactly when it is the
/// bitboard of the cell's top piece or of its bottom piece.
pub proof fn lemma_cell_bits(v: Seq<u64>, j: int, k: int)
    requires
        v.len() == 16,
        0 <= j < 64,
        0 <= k < 16,
        cell_wf(v, j),
    ensures
        bit(v[k], j) == ((piece_at(v, j) != 0 && k == piece_at(v, j) % 8) || (piece_at(v, j) >= 16
            && k == piece_at(v, j) / 16)),
{
    lemma_first_set_range(v, j, 0, 8);
    lemma_first_set_range(v, j, 8, 16);
    let t = first_set(v, j, 0, 8);
    let b = first_set(v, j, 8, 16);
    let p = piece_at(v, j);
    assert(p == piece_from_slots(t, b));
    if t >= 0 {
        assert(p % 8 == t);
    }
    if b >= 0 {
        assert(p / 16 == b);
    } else {
        assert(p < 16);
    }
}

/// Law: well-formed bitboards that hold nothing past the last cell are the
/// bitboards of their cells.
pub proof fn lemma_bits_roundtrip(v: Seq<u64>)
    requires
        board_wf(v),
        cells_only(v),
    ensures
        cells_bits(board_cells(v)) == v,
{
    let c = board_cells(v);
    assert forall|i: int| 0 <= i < 45 implies is_valid_cell(#[trigger] c[i]) by {
        assert(cell_wf(v, i));
    }
    lemma_cells_roundtrip(c);
    lemma_cells_bits_upto(c, 45);
    let w = cells_bits(c);
    assert forall|k: int| 0 <= k < 16 implies #[trigger] w[k] == v[k] by {
        assert forall|j: int| 0 <= j < 64 implies bit(w[k], j) == bit(v[k], j) by {
            if j < 45 {
                assert(cell_wf(v, j));
                assert(cell_wf(w, j));
                assert(piece_at(w, j) == c[j]);
                lemma_cell_bits(v, j, k);
                lemma_cell_bits(w, j, k);
            } else {
                assert(cell_clear(w, j));
            }
        }
        lemma_bits_equal(w[k], v[k]);
    }
    assert(w =~= v);
}

/// Law: playing an action of the board's cells on their bitboards gives the
/// bitboards of the cells after it, so that a board kept as cells and one kept
/// as bitboards stay in step.
pub proof fn lemma_cells_play_in_step(cells: Seq<u8>, a: Action)
    requires
        cells.len() == 45,
        forall|i: int| 0 <= i < 45 ==> is_valid_cell(#[trigger] cells[i]),
        action_start(a) < 45,
        action_end(a) < 45,
        action_mid(a) < 45 || action_mid(a) == 255,
        distinct_steps(a),
    ensures
        cells_bits(board_cells(play_bits(cells_bits(cells), a))) == play_bits(cells_bits(cells), a),
        forall|i: int|
            0 <= i < 45 ==> is_valid_cell(#[trigger] board_cells(play_bits(cells_bits(cells), a))[i]),
{
    let v = cells_bits(cells);
    lemma_cells_roundtrip(cells);
    lemma_cells_bits_upto(cells, 45);
    lemma_play_wf(v, a);
    let w = play_bits(v, a);
    assert forall|k: int, j: int| 0 <= k < 16 && 45 <= j < 64 implies !#[trigger] bit(w[k], j) by {
        assert(cell_clear(v, j));
        lemma_clear_wf(v, j);
        assert(piece_at(w, j) == piece_at(v, j));
        assert(cell_wf(w, j));
        lemma_cell_bits(w, j, k);
    }
    lemma_bits_roundtrip(w);
    assert forall|i: int| 0 <= i < 45 implies is_valid_cell(#[trigger] board_cells(w)[i]) by {
        assert(cell_wf(w, i));
    }
}

/// Law: the starting position is consistent.
pub proof fn lemma_start_consistent()
    ensures
        consistent_bits(Seq::new(16, |k: int| start_bits(k))),
{
    let w = Seq::new(16, |k: int| start_bits(k));
    assert(
        0x121200000000u64 & 0x94100000000u64 == 0u64
        && 0x121200000000u64 & 0x4a400000000u64 == 0u64
        && 0x121200000000u64 & 0x800000000u64 == 0u64
        && 0x121200000000u64 & 0x909u64 == 0u64
        && 0x121200000000u64 & 0x1052u64 == 0u64
        && 0x121200000000u64 & 0x4a4u64 == 0u64
        && 0x121200000000u64 & 0x200u64 == 0u64
        && 0x94100000000u64 & 0x4a400000000u64 == 0u64
        && 0x94100000000u64 & 0x800000000u64 == 0u64
        && 0x94100000000u64 & 0x909u64 == 0u64
        && 0x94100000000u64 & 0x1052u64 == 0u64
        && 0x94100000000u64 & 0x4a4u64 == 0u64
        && 0x94100000000u64 & 0x200u64 == 0u64
        && 0x4a400000000u64 & 0x800000000u64 == 0u64
        && 0x4a400000000u64 & 0x909u64 == 0u64
        && 0x4a400000000u64 & 0x1052u64 == 0u64
        && 0x4a400000000u64 & 0x4a4u64 == 0u64
        && 0x4a400000000u64 & 0x200u64 == 0u64
        && 0x800000000u64 & 0x909u64 == 0u64
        && 0x800000000u64 & 0x1052u64 == 0u64
        && 0x800000000u64 & 0x4a4u64 == 0u64
        && 0x800000000u64 & 0x200u64 == 0u64
        && 0x909u64 & 0x1052u64 == 0u64
        && 0x909u64 & 0x4a4u64 == 0u64
        && 0x909u64 & 0x200u64 == 0u64
        && 0x1052u64 & 0x4a4u64 == 0u64
        && 0x1052u64 & 0x200u64 == 0u64
        && 0x4a4u64 & 0x200u64 == 0u64
        && 0x800000000u64 & 0x200u64 == 0u64
        && 0x800000000u64 & !(0x121200000000u64 | 0x94100000000u64 | 0x4a400000000u64 | 0x800000000u64 | 0x909u64 | 0x1052u64 | 0x4a4u64 | 0x200u64) == 0u64
        && 0x200u64 & !(0x121200000000u64 | 0x94100000000u64 | 0x4a400000000u64 | 0x800000000u64 | 0x909u64 | 0x1052u64 | 0x4a4u64 | 0x200u64) == 0u64
    ) by (bit_vector);
    assert(tops_bits(w) == 0x121200000000u64 | 0x94100000000u64 | 0x4a400000000u64 | 0x800000000u64 | 0x909u64 | 0x1052u64 | 0x4a4u64 | 0x200u64);
    assert forall|a: int, b: int| 0 <= a < b < 8 implies #[trigger] (w[a] & w[b]) == 0 by {
        if a == 0 && b == 1 {
        } else if a == 0 && b == 2 {
        } else if a == 0 && b == 3 {
        } else if a == 0 && b == 4 {
        } else if a == 0 && b == 5 {
        } else if a == 0 && b == 6 {
        } else if a == 0 && b == 7 {
        } else if a == 1 && b == 2 {
        } else if a == 1 && b == 3 {
        } else if a == 1 && b == 4 {
        } else if a == 1 && b == 5 {
        } else if a == 1 && b == 6 {
        } else if a == 1 && b == 7 {
        } else if a == 2 && b == 3 {
        } else if a == 2 && b == 4 {
        } else if a == 2 && b == 5 {
        } else if a == 2 && b == 6 {
        } else if a == 2 && b == 7 {
        } else if a == 3 && b == 4 {
        } else if a == 3 && b == 5 {
        } else if a == 3 && b == 6 {
        } else if a == 3 && b == 7 {
        } else if a == 4 && b == 5 {
        } else if a == 4 && b == 6 {
        } else if a == 4 && b == 7 {
        } else if a == 5 && b == 6 {
        } else if a == 5 && b == 7 {
        } else if a == 6 && b == 7 {
        }
    }
    assert forall|a: int, b: int| 8 <= a < b < 16 implies #[trigger] (w[a] & w[b]) == 0 by {
        if a != 11 && a != 15 {
            lemma_zero_and(w[b]);
        } else if b != 11 && b != 15 {
            lemma_bit_and_zero(w[a]);
        }
    }
    assert forall|k: int| 8 <= k < 16 implies #[trigger] (w[k] & !tops_bits(w)) == 0 by {
        if k != 11 && k != 15 {
            lemma_zero_and(!tops_bits(w));
        }
    }
}

proof fn lemma_bit_and_zero(x: u64)
    ensures
        x & 0u64 == 0u64,
        0u64 & x == 0u64,
{
    assert(x & 0u64 == 0u64 && 0u64 & x == 0u64) by (bit_vector);
}

proof fn lemma_zero_and(x: u64)
    ensures
        0u64 & x == 0u64,
{
    lemma_bit_and_zero(x);
}

} // verus!
