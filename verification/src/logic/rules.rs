//! Implements the rules to check if an action is valid or not.
use vstd::prelude::*;
use vstd::std_specs::bits::u64_trailing_zeros;

use crate::bitboard::{
    all_bits, bit, bit_list, black_not_wise_bits, clear_lowest, count_ones, lemma_bit_list,
    lemma_clear_lowest, lemma_clear_lowest_decreases, piece_at, popcount, same_colour_bits,
    same_stacks_bits, same_wise_bits, white_not_wise_bits, Bitboard, Board, lemma_bit_ops,
};
use crate::logic::actions::{
    board_wf, cell_wf, lemma_cell_bits, lemma_move_wf, lemma_play_wf, lemma_same_cell,
    lemma_stack_wf, lemma_unstack_wf, move_bits, play_bits, stack_bits, stacked,
};
use crate::logic::movegen::lemma_actions_start;
use crate::logic::perft::{action_ok, lemma_player_actions_ok};
use crate::piece::{bottom_of, top_of};
use crate::piece::is_valid_cell;
use crate::logic::actions::{action_end, action_mid, action_start, Action, ActionTrait, ACTION_MASK};
use crate::logic::movegen::player_actions;
use crate::logic::perft::count_actions_spec;
use crate::logic::index::{neighbours1, neighbours2, CellIndex, CellIndexTrait, INDEX_NULL};
use crate::logic::lookup::{BLOCKER_MASKS, NEIGHBOURS1, NEIGHBOURS2};
use crate::logic::Player;
use crate::piece::{Piece, PieceTrait, COLOUR_MASK, TYPE_MASK};

verus! {

/// The cells on which a white piece wins (black's home row).
pub const WHITE_WIN_MASK: u64 = 0b111111u64;
/// The cells on which a black piece wins (white's home row).
pub const BLACK_WIN_MASK: u64 = 0b111111000000000000000000000000000000000000000u64;

/// Removes the lowest set bit of a non-zero number and returns its index.
pub fn pop_lowest(rest: &mut u64) -> (i: usize)
    requires
        *old(rest) != 0,
    ensures
        i == u64_trailing_zeros(*old(rest)),
        i < 64,
        *final(rest) == clear_lowest(*old(rest)),
        *final(rest) < *old(rest),
        bit_list(*old(rest)) == seq![i as int] + bit_list(*final(rest)),
{
    proof {
        lemma_clear_lowest(*rest);
        lemma_clear_lowest_decreases(*rest);
    }
    let i = rest.trailing_zeros() as usize;
    *rest = *rest & (*rest - 1);
    i
}

/// The cells whose bit is set in `blockers` and that are halfway to one of the
/// distance-2 cells `targets` from `index`, as a bitboard of those targets.
pub open spec fn magic_fold(blockers: u64, index: int, targets: Seq<int>) -> u64
    decreases targets.len(),
{
    if targets.len() == 0 {
        0
    } else {
        let b = targets.last();
        let acc = magic_fold(blockers, index, targets.drop_last());
        if bit(blockers, (index + b) / 2) {
            acc | (1u64 << (b as u64))
        } else {
            acc
        }
    }
}

/// The distance-2 cells of `index` that the free cells `blockers` open: those
/// whose halfway cell is in `blockers`.
pub open spec fn magic_bits(blockers: u64, index: int) -> u64 {
    magic_fold(blockers, index, bit_list(NEIGHBOURS2[index]))
}

/// The bits of a fold are the listed targets whose halfway cell is in `blockers`.
pub proof fn lemma_magic_fold(blockers: u64, index: int, targets: Seq<int>, j: int)
    requires
        forall|k: int| 0 <= k < targets.len() ==> 0 <= #[trigger] targets[k] < 64,
    ensures
        bit(magic_fold(blockers, index, targets), j) == (targets.contains(j) && bit(
            blockers,
            (index + j) / 2,
        )),
    decreases targets.len(),
{
    if targets.len() == 0 {
        crate::bitboard::lemma_bit_ops(0u64, 0u64, j);
    } else {
        let b = targets.last();
        let rest = targets.drop_last();
        lemma_magic_fold(blockers, index, rest, j);
        let acc = magic_fold(blockers, index, rest);
        if bit(blockers, (index + b) / 2) {
            crate::bitboard::lemma_bit_set(acc, b, j);
        }
        assert(targets =~= rest.push(b));
        if rest.contains(j) {
            let k = rest.index_of(j);
            assert(targets[k] == j);
        }
        if targets.contains(j) && j != b {
            let k = targets.index_of(j);
            assert(k < targets.len() - 1);
            assert(rest[k] == j);
        }
    }
}

/// Law: bit `j` of `magic_bits(blockers, index)` is set exactly when `j` is at
/// distance 2 from `index` and the cell halfway is in `blockers`.
pub proof fn lemma_magic_bits(blockers: u64, index: int, j: int)
    requires
        0 <= index < 64,
    ensures
        bit(magic_bits(blockers, index), j) == (bit(NEIGHBOURS2[index], j) && bit(
            blockers,
            (index + j) / 2,
        )),
{
    lemma_bit_list(NEIGHBOURS2[index]);
    let l = bit_list(NEIGHBOURS2[index]);
    assert forall|k: int| 0 <= k < l.len() implies 0 <= #[trigger] l[k] < 64 by {
        assert(l.contains(l[k]));
    }
    lemma_magic_fold(blockers, index, l, j);
}

/// The bitboard of cells on which a piece of the given player wins.
pub open spec fn win_mask_bits(player: Player) -> u64 {
    if player == 0 {
        WHITE_WIN_MASK
    } else {
        BLACK_WIN_MASK
    }
}

fn win_mask(player: Player) -> (r: Bitboard)
    ensures
        r.0 == win_mask_bits(player),
{
    if player == 0 {
        Bitboard(WHITE_WIN_MASK)
    } else {
        Bitboard(BLACK_WIN_MASK)
    }
}

/// The pieces that `piece` can capture: scissors cut paper, paper wraps rock,
/// rock crushes scissors; a wise captures nothing.
pub open spec fn victims_bits(v: Seq<u64>, piece: u8) -> u64 {
    let k = piece % 8;
    if k == 0 {
        v[5]
    } else if k == 1 {
        v[6]
    } else if k == 2 {
        v[4]
    } else if k == 4 {
        v[1]
    } else if k == 5 {
        v[2]
    } else if k == 6 {
        v[0]
    } else {
        0
    }
}

/// The opponent's pieces that can be captured (all but the wise).
pub open spec fn capturable_bits(v: Seq<u64>, player: Player) -> u64 {
    if player == 0 {
        black_not_wise_bits(v)
    } else {
        white_not_wise_bits(v)
    }
}

/// Cells reachable by a 2-range move of `piece` from `index`: the cell halfway
/// must be empty and the destination empty or a victim.
pub open spec fn moves2_bits(v: Seq<u64>, index: int, piece: u8) -> u64 {
    magic_bits(BLOCKER_MASKS[index] & !all_bits(v), index) & (!all_bits(v) | victims_bits(
        v,
        piece,
    ))
}

/// Cells reachable by a 1-range move of `piece` from `index`: an empty neighbour or a victim.
pub open spec fn moves1_bits(v: Seq<u64>, index: int, piece: u8) -> u64 {
    NEIGHBOURS1[index] & (!all_bits(v) | victims_bits(v, piece))
}

/// The player that owns a piece (from its colour bit).
pub open spec fn owner(piece: u8) -> Player {
    ((piece & 4u8) >> 2u8) as Player
}

/// Neighbour cells on which `piece` can stack: single pieces of its colour
/// (only wise pieces for a wise).
pub open spec fn stacks_bits(v: Seq<u64>, index: int, piece: u8) -> u64 {
    let player = owner(piece);
    NEIGHBOURS1[index] & ((if piece & 3u8 == 3u8 {
        same_wise_bits(v, player)
    } else {
        same_colour_bits(v, player)
    }) & !same_stacks_bits(v, player))
}

/// Neighbour cells where `piece` captures or wins.
pub open spec fn captures_and_win1_bits(v: Seq<u64>, index: int, piece: u8, player: Player) -> u64 {
    NEIGHBOURS1[index] & (victims_bits(v, piece) | win_mask_bits(player))
}

/// Distance-2 cells where `piece` captures or wins.
pub open spec fn captures_and_win2_bits(v: Seq<u64>, index: int, piece: u8, player: Player) -> u64 {
    magic_bits(BLOCKER_MASKS[index] & !all_bits(v), index) & (victims_bits(v, piece)
        | win_mask_bits(player))
}

/// Neighbour cells where `piece` captures.
pub open spec fn captures1_bits(v: Seq<u64>, index: int, piece: u8) -> u64 {
    NEIGHBOURS1[index] & victims_bits(v, piece)
}

/// Distance-2 cells where `piece` captures.
pub open spec fn captures2_bits(v: Seq<u64>, index: int, piece: u8) -> u64 {
    magic_bits(BLOCKER_MASKS[index] & !all_bits(v), index) & victims_bits(v, piece)
}

/// Empty neighbour cells.
pub open spec fn non_captures1_bits(v: Seq<u64>, index: int) -> u64 {
    NEIGHBOURS1[index] & !all_bits(v)
}

/// Empty distance-2 cells with an empty cell halfway.
pub open spec fn non_captures2_bits(v: Seq<u64>, index: int) -> u64 {
    magic_bits(BLOCKER_MASKS[index] & !all_bits(v), index) & !all_bits(v)
}

/// Some non-wise white piece is on black's home row or some non-wise black piece on white's.
pub open spec fn is_win_spec(v: Seq<u64>) -> bool {
    white_not_wise_bits(v) & WHITE_WIN_MASK != 0 || black_not_wise_bits(v) & BLACK_WIN_MASK != 0
}

/// The winner, if a non-wise piece reached the opposite home row (white first).
pub open spec fn winner_spec(v: Seq<u64>) -> Option<Player> {
    if white_not_wise_bits(v) & WHITE_WIN_MASK != 0 {
        Some(0)
    } else if black_not_wise_bits(v) & BLACK_WIN_MASK != 0 {
        Some(1)
    } else {
        None
    }
}

/// The cell `c` is on the home row of the opponent of `player`: the row a
/// piece of `player` must reach to win (row `g` for white, row `a` for black).
pub open spec fn goal_cell(player: Player, c: int) -> bool {
    if player == 0 {
        0 <= c <= 5
    } else {
        39 <= c <= 44
    }
}

/// A non-wise piece of `player` stands on top of the cell `c`, on the home row
/// of its opponent.
pub open spec fn arrived(v: Seq<u64>, player: Player, c: int) -> bool {
    let p = piece_at(v, c);
    &&& goal_cell(player, c)
    &&& p % 16 >= 8
    &&& owner(p) == player
    &&& p & 3 != 3
}

/// Some non-wise piece of `player` stands on the home row of its opponent.
pub open spec fn has_arrived(v: Seq<u64>, player: Player) -> bool {
    exists|c: int| #[trigger] arrived(v, player, c)
}

/// The bits of the masks of the home rows, for a shift below 64.
proof fn lemma_win_mask_shift(cc: u64)
    by (bit_vector)
    requires
        cc < 64,
    ensures
        ((0b111111u64 >> cc) & 1u64 == 1u64) == (cc <= 5),
        ((0b111111000000000000000000000000000000000000000u64 >> cc) & 1u64 == 1u64) == (39 <= cc
            && cc <= 44),
{
}

/// The cells of the masks of the home rows.
proof fn lemma_win_mask_bits(c: int)
    requires
        0 <= c < 64,
    ensures
        bit(WHITE_WIN_MASK, c) == (c <= 5),
        bit(BLACK_WIN_MASK, c) == (39 <= c <= 44),
{
    lemma_win_mask_shift(c as u64);
}

/// What the bits of a cell content say: a top piece (bits 3) sits in the low
/// four bits as 8 plus its bitboard index; bit 2 is its colour, bits 0 and 1
/// its kind (3 for a wise).
pub proof fn lemma_piece_byte(p: u8)
    by (bit_vector)
    ensures
        p % 16 >= 8 ==> p % 16 == 8 + p % 8,
        p % 16 >= 8 ==> ((p & 3 == 3) == (p % 8 == 3 || p % 8 == 7)),
        p & 4 == (if p % 8 >= 4 { 4u8 } else { 0u8 }),
        ((p & 4u8) >> 2u8) == (if p % 8 >= 4 { 1u8 } else { 0u8 }),
{
}

/// A well-formed cell has the bit of a non-wise top bitboard of `player`
/// exactly when a non-wise piece of `player` stands on top of it.
proof fn lemma_not_wise_top(v: Seq<u64>, player: Player, c: int)
    requires
        board_wf(v),
        player <= 1,
        0 <= c < 64,
    ensures
        bit(
            if player == 0 {
                white_not_wise_bits(v)
            } else {
                black_not_wise_bits(v)
            },
            c,
        ) == {
            let p = piece_at(v, c);
            p % 16 >= 8 && owner(p) == player && p & 3 != 3
        },
{
    let p = piece_at(v, c);
    assert(cell_wf(v, c));
    let base: int = if player == 0 { 0 } else { 4 };
    lemma_cell_bits(v, c, base);
    lemma_cell_bits(v, c, base + 1);
    lemma_cell_bits(v, c, base + 2);
    lemma_bit_ops(v[base] | v[base + 1], v[base + 2], c);
    lemma_bit_ops(v[base], v[base + 1], c);
    assert(is_valid_cell(p));
    assert(p == 0 || p % 16 >= 8) by {
        if p >= 16 {
            assert(8 <= p % 16 < 16);
        }
    }
    assert(p / 16 == 0 || p / 16 >= 8) by {
        if p >= 16 {
            assert(8 <= p / 16 < 16);
        }
    }
    lemma_piece_byte(p);
}

/// Law: the winner that the game names is the player one of whose non-wise
/// pieces stands on the home row of its opponent (white first, when both have).
pub proof fn lemma_winner_arrived(v: Seq<u64>)
    requires
        board_wf(v),
    ensures
        winner_spec(v) == Some(0u8) <==> has_arrived(v, 0),
        winner_spec(v) == Some(1u8) <==> has_arrived(v, 1) && !has_arrived(v, 0),
        winner_spec(v) is None <==> !has_arrived(v, 0) && !has_arrived(v, 1),
        is_win_spec(v) <==> has_arrived(v, 0) || has_arrived(v, 1),
{
    lemma_mask_arrived(v, 0);
    lemma_mask_arrived(v, 1);
}

/// A non-wise piece of `player` on its goal row is what makes the masked bits non-zero.
proof fn lemma_mask_arrived(v: Seq<u64>, player: Player)
    requires
        board_wf(v),
        player <= 1,
    ensures
        (if player == 0 {
            white_not_wise_bits(v) & WHITE_WIN_MASK
        } else {
            black_not_wise_bits(v) & BLACK_WIN_MASK
        } != 0) == has_arrived(v, player),
{
    let x = if player == 0 { white_not_wise_bits(v) } else { black_not_wise_bits(v) };
    let mask = if player == 0 { WHITE_WIN_MASK } else { BLACK_WIN_MASK };
    let y = x & mask;
    if has_arrived(v, player) {
        let c = choose|c: int| #[trigger] arrived(v, player, c);
        lemma_win_mask_bits(c);
        lemma_not_wise_top(v, player, c);
        lemma_bit_ops(x, mask, c);
        lemma_bit_ops(0u64, 0u64, c);
    }
    if y != 0 {
        lemma_bit_list(y);
        let c = bit_list(y)[0];
        assert(bit_list(y).contains(c));
        lemma_bit_ops(x, mask, c);
        lemma_win_mask_bits(c);
        lemma_not_wise_top(v, player, c);
        assert(arrived(v, player, c));
    }
}

/// A non-wise piece of `player` is on top of the cell content `p`.
pub open spec fn mover(p: u8, player: Player) -> bool {
    p % 16 >= 8 && owner(p) == player && p & 3 != 3
}

/// Whose piece is on top, and of which kind, is read from the top piece alone.
proof fn lemma_mover_top(p: u8, q: u8, player: Player)
    requires
        p % 16 == q % 16,
    ensures
        mover(p, player) == mover(q, player),
{
    assert(p % 16 == q % 16 ==> (p & 4 == q & 4) && (p & 3 == q & 3)) by (bit_vector);
}

/// A stack keeps the top piece it was made with.
proof fn lemma_stacked_top(p: u8, b: u8)
    ensures
        stacked(p, b) % 16 == p % 16,
        top_of(p) % 16 == p % 16,
{
    assert(((p % 16) + 16 * b) as u8 % 16 == p % 16) by (bit_vector);
}

/// The piece that starts an action of `player`, not wise, is a non-wise piece of `player`.
proof fn lemma_start_mover(v: Seq<u64>, player: Player, s: int)
    requires
        board_wf(v),
        player <= 1,
        0 <= s < 64,
        bit(same_colour_bits(v, player), s),
        !bit(same_wise_bits(v, player), s),
    ensures
        mover(piece_at(v, s), player),
{
    let base: int = if player == 0 { 0 } else { 4 };
    lemma_bit_ops(v[base] | v[base + 1] | v[base + 2], v[base + 3], s);
    lemma_not_wise_top(v, player, s);
}

/// Law: an action of `player` from a non-wise piece wins exactly as it brings
/// that piece to the home row of the opponent: a cell of that row that a
/// non-wise piece of `player` holds after the action and did not hold before
/// makes the action a winning one, so that an action after which `player`
/// has won, where it had not, is winning; and a winning action leaves that
/// piece on its end cell, on that row, or has its middle cell on that row.
pub proof fn lemma_action_win_arrival(v: Seq<u64>, player: Player, a: Action)
    requires
        board_wf(v),
        player <= 1,
        player_actions(v, player).contains(a),
        !bit(same_wise_bits(v, player), action_start(a)),
    ensures
        forall|c: int|
            #[trigger] arrived(play_bits(v, a), player, c) && !arrived(v, player, c)
                ==> is_action_win_spec(v, a, player),
        has_arrived(play_bits(v, a), player) && !has_arrived(v, player) ==> is_action_win_spec(
            v,
            a,
            player,
        ),
        is_action_win_spec(v, a, player) ==> arrived(play_bits(v, a), player, action_end(a)) || (
        action_mid(a) != 255 && goal_cell(player, action_mid(a))),
{
    let s = action_start(a);
    let m = action_mid(a);
    let e = action_end(a);
    let w = play_bits(v, a);
    let ps = piece_at(v, s);
    lemma_actions_start(v, player, a);
    lemma_player_actions_ok(v, player, 45);
    let k = choose|k: int| 0 <= k < player_actions(v, player).len() && player_actions(v, player)[k] == a;
    assert(action_ok(player_actions(v, player)[k]));
    lemma_start_mover(v, player, s);
    assert(ps != 0);
    lemma_play_wf(v, a);
    // The cell `s`, when it is neither the middle nor the end, keeps at most
    // the bottom piece of the start.
    assert(s != m && s != e ==> piece_at(w, s) == 0 || piece_at(w, s) == bottom_of(ps)) by {
        if s != m && s != e && m != 255 {
            let pm = piece_at(v, m);
            if pm != 0 && pm & 4 == ps & 4 && s != m {
                lemma_stack_wf(v, s, m);
                let v1 = stack_bits(v, s, m);
                lemma_stacked_top(ps, pm);
                assert(piece_at(v1, m) != 0);
                lemma_move_wf(v1, m, e);
                lemma_same_cell(v1, w, s);
            } else {
                lemma_move_wf(v, s, m);
                let v1 = move_bits(v, s, m);
                let pe = piece_at(v, e);
                if pe != 0 && pe & 4 == ps & 4 {
                    lemma_stack_wf(v1, m, e);
                    lemma_same_cell(v1, w, s);
                } else {
                    lemma_unstack_wf(v1, m, e);
                    lemma_same_cell(v1, w, s);
                }
            }
        }
    }
    // The end cell holds the start's top piece.
    assert(piece_at(w, e) % 16 == ps % 16) by {
        if m == 255 {
            lemma_move_wf(v, s, e);
        } else {
            let pm = piece_at(v, m);
            lemma_stacked_top(ps, pm);
            if pm != 0 && pm & 4 == ps & 4 && s != m {
                lemma_stack_wf(v, s, m);
                let v1 = stack_bits(v, s, m);
                lemma_move_wf(v1, m, e);
            } else {
                lemma_move_wf(v, s, m);
                let v1 = move_bits(v, s, m);
                let pe = piece_at(v, e);
                lemma_stacked_top(ps, piece_at(v1, e));
                if pe != 0 && pe & 4 == ps & 4 {
                    lemma_stack_wf(v1, m, e);
                } else {
                    lemma_unstack_wf(v1, m, e);
                }
            }
        }
    }
    lemma_mover_top(piece_at(w, e), ps, player);
    assert forall|c: int|
        #[trigger] arrived(w, player, c) && !arrived(v, player, c) implies is_action_win_spec(
        v,
        a,
        player,
    ) by {
        if c != e && !(m != 255 && c == m) {
            if c == s {
                if piece_at(w, s) == bottom_of(ps) && piece_at(w, s) != 0 {
                    assert(mover(ps, player));
                    assert(arrived(v, player, c));
                }
            } else {
                assert(piece_at(w, c) == piece_at(v, c));
            }
        }
    }
    if has_arrived(w, player) && !has_arrived(v, player) {
        let c = choose|c: int| #[trigger] arrived(w, player, c);
        assert(!arrived(v, player, c));
    }
}

/// The action brings a non-wise piece of `player` to the opposite home row
/// (at its middle or end cell).
pub open spec fn is_action_win_spec(v: Seq<u64>, a: u32, player: Player) -> bool {
    let s = action_start(a);
    let m = action_mid(a);
    let e = action_end(a);
    !bit(same_wise_bits(v, player), s) && (m != 255 && ((player == 0 && m <= 5) || (player == 1
        && m >= 39)) || (player == 0 && e <= 5) || (player == 1 && e >= 39))
}

/// The number of pieces on the board, a stack counting as two.
pub open spec fn count_pieces_spec(v: Seq<u64>) -> nat
    decreases v.len(),
{
    if v.len() == 0 {
        0
    } else {
        count_pieces_spec(v.drop_last()) + popcount(v.last())
    }
}

impl Bitboard {
    /// When used on a bitboard of free cells, this function returns a bitboard
    /// of the available 2-range moves: the distance-2 cells whose halfway cell is free.
    pub fn get_magic(&self, index: CellIndex) -> (r: Bitboard)
        requires
            index < 64,
        ensures
            r.0 == magic_bits(self.0, index as int),
    {
        let targets = neighbours2(index).0;
        let mut rest = targets;
        let mut result: u64 = 0;
        let ghost mut done: Seq<int> = seq![];
        while rest != 0
            invariant
                index < 64,
                targets == NEIGHBOURS2[index as int],
                done + bit_list(rest) == bit_list(targets),
                result == magic_fold(self.0, index as int, done),
            decreases rest,
        {
            let ghost before = rest;
            let b = pop_lowest(&mut rest);
            if self.get((index + b) / 2) {
                result = result | (1u64 << (b as u64));
            }
            proof {
                let d2 = done.push(b as int);
                assert(d2.drop_last() =~= done);
                assert(d2 + bit_list(rest) =~= done + bit_list(before));
                done = d2;
            }
        }
        assert(done =~= bit_list(targets));
        Bitboard(result)
    }
}

impl Board {
    /// Returns a bitboard representing the pieces that the given piece can capture.
    pub fn victims(&self, piece: Piece) -> (r: Bitboard)
        ensures
            r.0 == victims_bits(self@, piece),
    {
        let k = piece & (COLOUR_MASK | TYPE_MASK);
        assert(piece & (4u8 | 3u8) == piece % 8) by (bit_vector);
        match k {
            0b000 => self.0[5],
            0b001 => self.0[6],
            0b010 => self.0[4],
            0b100 => self.0[1],
            0b101 => self.0[2],
            0b110 => self.0[0],
            _ => Bitboard(0),
        }
    }

    /// Returns a bitboard representing the pieces that are capturable by the given player.
    pub fn capturable(&self, player: Player) -> (r: Bitboard)
        ensures
            r.0 == capturable_bits(self@, player),
    {
        if player == 0 {
            self.black_not_wise()
        } else {
            self.white_not_wise()
        }
    }

    /// Returns a bitboard with the available range-2 moves for the piece at the given index.
    pub fn available_moves2(&self, index: CellIndex, piece: Piece) -> (r: Bitboard)
        requires
            index < 64,
        ensures
            r.0 == moves2_bits(self@, index as int, piece),
    {
        let all = self.all();
        let blockers = Bitboard(BLOCKER_MASKS[index] & !all.0);
        Bitboard(blockers.get_magic(index).0 & (!all.0 | self.victims(piece).0))
    }

    /// Returns a bitboard with the available range-1 moves for the piece at the given index.
    pub fn available_moves1(&self, index: CellIndex, piece: Piece) -> (r: Bitboard)
        requires
            index < 64,
        ensures
            r.0 == moves1_bits(self@, index as int, piece),
    {
        let neighbours = neighbours1(index);
        Bitboard(neighbours.0 & (!self.all().0 | self.victims(piece).0))
    }

    /// Returns a bitboard with the available stacks for the piece at the given index.
    pub fn available_stacks(&self, index: CellIndex, piece: Piece) -> (r: Bitboard)
        requires
            index < 64,
        ensures
            r.0 == stacks_bits(self@, index as int, piece),
    {
        let neighbours = neighbours1(index);
        let player = piece.colour() >> 2;
        let allies = if piece.is_wise() {
            self.same_wise(player)
        } else {
            self.same_colour(player)
        };
        Bitboard(neighbours.0 & (allies.0 & !self.same_stacks(player).0))
    }

    /// Returns a bitboard with the available unstacks for the piece at the given index.
    /// An unstack actually follows the same rules as a 1-range move
    pub fn available_unstacks(&self, index: CellIndex, piece: Piece) -> (r: Bitboard)
        requires
            index < 64,
        ensures
            r.0 == moves1_bits(self@, index as int, piece),
    {
        self.available_moves1(index, piece)
    }

    /// Returns a bitboard with the available range-1 captures (moves or unstacks) for the piece at the given index.
    pub fn available_captures_and_win1(&self, index: CellIndex, piece: Piece, player: Player) -> (r:
        Bitboard)
        requires
            index < 64,
        ensures
            r.0 == captures_and_win1_bits(self@, index as int, piece, player),
    {
        let neighbours = neighbours1(index);
        Bitboard(neighbours.0 & (self.victims(piece).0 | win_mask(player).0))
    }

    /// Returns a bitboard with the available range-2 captures for the piece at the given index.
    pub fn available_captures_and_win2(&self, index: CellIndex, piece: Piece, player: Player) -> (r:
        Bitboard)
        requires
            index < 64,
        ensures
            r.0 == captures_and_win2_bits(self@, index as int, piece, player),
    {
        let blockers = Bitboard(BLOCKER_MASKS[index] & !self.all().0);
        Bitboard(blockers.get_magic(index).0 & (self.victims(piece).0 | win_mask(player).0))
    }

    /// Returns a bitboard with the available range-1 captures (moves or unstacks) for the piece at the given index.
    pub fn available_captures1(&self, index: CellIndex, piece: Piece) -> (r: Bitboard)
        requires
            index < 64,
        ensures
            r.0 == captures1_bits(self@, index as int, piece),
    {
        let neighbours = neighbours1(index);
        Bitboard(neighbours.0 & self.victims(piece).0)
    }

    /// Returns a bitboard with the available range-2 captures for the piece at the given index.
    pub fn available_captures2(&self, index: CellIndex, piece: Piece) -> (r: Bitboard)
        requires
            index < 64,
        ensures
            r.0 == captures2_bits(self@, index as int, piece),
    {
        let blockers = Bitboard(BLOCKER_MASKS[index] & !self.all().0);
        Bitboard(blockers.get_magic(index).0 & self.victims(piece).0)
    }

    /// Returns a bitboard with the available range-1 non-capture actions for the piece at the given index.
    pub fn available_non_captures1(&self, index: CellIndex) -> (r: Bitboard)
        requires
            index < 64,
        ensures
            r.0 == non_captures1_bits(self@, index as int),
    {
        let neighbours = neighbours1(index);
        Bitboard(neighbours.0 & !self.all().0)
    }

    /// Returns a bitboard with the available range-2 non-capture moves for the piece at the given index.
    pub fn available_non_captures2(&self, index: CellIndex) -> (r: Bitboard)
        requires
            index < 64,
        ensures
            r.0 == non_captures2_bits(self@, index as int),
    {
        let blockers = Bitboard(BLOCKER_MASKS[index] & !self.all().0);
        Bitboard(blockers.get_magic(index).0 & !self.all().0)
    }

    /// Returns true if the current position is winning for one of the players.
    pub fn is_win(&self) -> (r: bool)
        ensures
            r == is_win_spec(self@),
    {
        (self.white_not_wise().0 & WHITE_WIN_MASK) != 0 || (self.black_not_wise().0
            & BLACK_WIN_MASK) != 0
    }

    /// Returns the winning player if there is one.
    pub fn get_winner(&self) -> (r: Option<Player>)
        ensures
            r == winner_spec(self@),
    {
        if (self.white_not_wise().0 & WHITE_WIN_MASK) != 0 {
            Some(0)
        } else if (self.black_not_wise().0 & BLACK_WIN_MASK) != 0 {
            Some(1)
        } else {
            None
        }
    }

    /// Returns true if the chosen action leads to a win.
    ///
    /// To win, one allied piece (except wise) must reach the last row in the opposite side.
    pub fn is_action_win(&self, action: Action, player: Player) -> (r: bool)
        requires
            action_start(action) < 64,
        ensures
            r == is_action_win_spec(self@, action, player),
    {
        let (index_start, index_mid, index_end) = action.to_indices();

        !self.same_wise(player).get(index_start) && (index_mid != INDEX_NULL && ((player == 0
            && index_mid.is_black_home()) || (player == 1 && index_mid.is_white_home())) || (
        player == 0 && index_end.is_black_home()) || (player == 1 && index_end.is_white_home()))
    }

    /// Counts the number of pieces on the board.
    ///
    /// A stack counts as two pieces.
    pub fn count_pieces(&self) -> (r: u64)
        ensures
            r == count_pieces_spec(self@),
            r <= 1024,
    {
        let mut total: u64 = 0;
        let mut k: usize = 0;
        while k < 16
            invariant
                k <= 16,
                total == count_pieces_spec(self@.subrange(0, k as int)),
                total <= 64 * k,
            decreases 16 - k,
        {
            let n = count_ones(self.0[k].0);
            proof {
                lemma_bit_list(self.0[k as int].0);
                lemma_bit_list_bound(self.0[k as int].0);
                assert(self@.subrange(0, k + 1).drop_last() =~= self@.subrange(0, k as int));
            }
            total = total + n as u64;
            k += 1;
        }
        assert(self@.subrange(0, 16) =~= self@);
        total
    }
}

/// A number has at most 64 set bits.
pub proof fn lemma_bit_list_bound(x: u64)
    ensures
        popcount(x) <= 64,
{
    lemma_bit_list(x);
    let l = bit_list(x);
    assert forall|k: int| 0 <= k < l.len() implies k <= #[trigger] l[k] < 64 by {
        lemma_sorted_ge_index(l, k);
        assert(l.contains(l[k]));
    }
    if l.len() > 64 {
        assert(l[64] >= 64);
    }
}

/// In a strictly increasing list of non-negative numbers, the `k`-th one is at least `k`.
proof fn lemma_sorted_ge_index(l: Seq<int>, k: int)
    requires
        0 <= k < l.len(),
        forall|a: int, b: int| 0 <= a < b < l.len() ==> l[a] < l[b],
        forall|i: int| #[trigger] l.contains(i) ==> i >= 0,
    ensures
        l[k] >= k,
    decreases k,
{
    assert(l.contains(l[k]));
    if k > 0 {
        lemma_sorted_ge_index(l, k - 1);
    }
}

/// Returns true if the chosen action leads to a win for the owner of the moved piece.
pub fn is_action_win(board: &Board, action: Action) -> (r: bool)
    requires
        action_start(action) < 64,
    ensures
        r == is_action_win_spec(
            board@,
            action,
            owner(piece_at(board@, action_start(action))),
        ),
{
    let (index_start, _index_mid, _index_end) = action.to_indices();
    let piece = board.get_piece(index_start);
    let player = piece.colour() >> 2;
    board.is_action_win(action, player)
}

/// Returns true if the given action is legal: its three indices (without the
/// extra data) are those of one of the player's available actions.
pub fn is_action_legal(board: &Board, current_player: Player, action: Action) -> (r: bool)
    ensures
        r == player_actions(board@, current_player).contains((action as int % 16777216) as u32),
{
    let masked = action & ACTION_MASK;
    assert(masked == (action as int % 16777216) as u32) by (bit_vector)
        requires
            masked == action & 0x00FF_FFFFu32,
    ;
    let available_actions = board.available_player_actions(current_player);
    let n = available_actions.len();
    let mut i: usize = 0;
    while i < n
        invariant
            n == available_actions@.len(),
            available_actions@ == player_actions(board@, current_player),
            i <= n,
            forall|k: int| 0 <= k < i ==> available_actions@[k] != masked,
            masked == (action as int % 16777216) as u32,
        decreases n - i,
    {
        if available_actions.get(i) == masked {
            assert(player_actions(board@, current_player)[i as int] == masked);
            return true;
        }
        i += 1;
    }
    false
}

impl Board {
    /// Returns true if the current position is a stalemate for the given player.
    ///
    /// This means the player has no legal move left.
    pub fn is_stalemate(&self, current_player: Player) -> (r: bool)
        ensures
            r == (count_actions_spec(self@, current_player) == 0),
    {
        self.count_player_actions(current_player) == 0
    }
}

} // verus!
