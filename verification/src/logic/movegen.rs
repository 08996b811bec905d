//! Implements the move generator: returns the list of all available moves for a player at a given time.
use vstd::prelude::*;

use crate::bitboard::{
    first_set, lemma_first_set_range, piece_at, piece_from_slots, all_bits, bit, bit_list, lemma_bit_list, lemma_bit_ops, player_piece_at, same_colour_bits,
    same_colour_not_wise_bits, same_stacks_bits, same_wise_bits, Board,
};
use crate::logic::actions::{
    action_end, action_mid, action_of, action_start, lemma_action_indices, Action, ActionTrait,
    Actions, ActionsLight,
};
use crate::logic::index::{CellIndex, INDEX_NULL};
use crate::logic::lookup::{lemma_neighbour_bits, BLOCKER_MASKS, NEIGHBOURS1, NEIGHBOURS2};
use crate::logic::rules::{
    lemma_piece_byte, captures1_bits, captures2_bits, captures_and_win1_bits, captures_and_win2_bits, lemma_magic_fold, magic_bits, moves1_bits,
    moves2_bits, non_captures1_bits, non_captures2_bits, owner, pop_lowest, stacks_bits,
    victims_bits, win_mask_bits,
};
use crate::logic::{Player, N_CELLS};
use crate::logic::actions::{board_wf, cell_wf, lemma_cell_bits};
use crate::piece::is_valid_cell;
use crate::piece::{Piece, PieceTrait};

verus! {

/// The actions that end on each cell of `ends`, from `s` through `m`.
pub open spec fn end_actions(s: int, m: int, ends: u64) -> Seq<Action> {
    bit_list(ends).map_values(|e: int| action_of(s, m, e))
}

/// The kinds of second steps that follow a first step to `m`.
///
/// For actions:
/// * 0: a stack's 2-range move, then a 1-range move, unstack or stack, or nothing;
/// * 1: a stack's 1-range move, then a 1-range move, unstack or stack, an unstack back
///   to the start, nothing, or an unstack instead of the move;
/// * 2: a stack's top piece stacked on `m`, then a 1 or 2-range move, or nothing;
/// * 3: a single piece stacked on `m`, then a 1 or 2-range move (or a 1-range move of the
///   start piece that the stack could reach), a move back to the start, or nothing;
/// * 4: a single piece's 1-range move.
///
/// For captures:
/// * 5: a stack's 2-range move onto a free cell, then an unstack that captures or wins;
/// * 6: a stack's 2-range capture, then a 1-range move, unstack or stack, or nothing;
/// * 7: a stack's 1-range move onto a free cell, then an unstack that captures or wins;
/// * 8: a stack's 1-range capture, then a 1-range move, unstack or stack, an unstack
///   back to the start, nothing, or an unstack instead;
/// * 9: a stack's top piece stacked on `m`, then a 1 or 2-range capture;
/// * 10: a single piece stacked on `m`, then a 1 or 2-range capture (or a 1-range capture
///   of the start piece that the stack could reach);
/// * 11: a single piece's 1-range capture.
///
/// For captures alone, without the moves that win by reaching the far row:
/// * 15 to 21: as 5 to 11.
///
/// For counting leaf nodes, the same actions in another order:
/// * 12: a stack's 2-range move alone, then followed by a 1-range move, unstack or stack;
/// * 13: a stack's 1-range move followed by a 1-range move, unstack or stack, then an
///   unstack back to the start, then the move alone;
/// * 14: a stack's 1-range unstack.
pub open spec fn mid_actions(v: Seq<u64>, s: int, p: u8, player: Player, kind: int, m: int) -> Seq<
    Action,
> {
    if kind == 4 || kind == 11 || kind == 14 || kind == 21 {
        kind_extras(s, m, kind)
    } else if kind == 12 {
        seq![action_of(s, 255, m)] + end_actions(s, m, kind_ends_spec(v, s, p, player, kind, m))
    } else {
        end_actions(s, m, kind_ends_spec(v, s, p, player, kind, m)) + kind_extras(s, m, kind)
    }
}

/// The end cells of the second steps of each kind (see [`mid_actions`]).
pub open spec fn kind_ends_spec(v: Seq<u64>, s: int, p: u8, player: Player, kind: int, m: int) -> u64 {
    if kind == 0 || kind == 1 || kind == 6 || kind == 8 || kind == 12 || kind == 13 || kind == 16
        || kind == 18 {
        moves1_bits(v, m, p) | stacks_bits(v, m, p)
    } else if kind == 2 {
        moves2_bits(v, m, p) | moves1_bits(v, m, p)
    } else if kind == 3 {
        moves2_bits(v, m, p) | moves1_bits(v, m, p) | (NEIGHBOURS2[m] & moves1_bits(v, s, p))
    } else if kind == 5 || kind == 7 {
        captures_and_win1_bits(v, m, p, player)
    } else if kind == 9 {
        captures_and_win2_bits(v, m, p, player) | captures_and_win1_bits(v, m, p, player)
    } else if kind == 15 || kind == 17 {
        captures1_bits(v, m, p)
    } else if kind == 19 {
        captures2_bits(v, m, p) | captures1_bits(v, m, p)
    } else if kind == 20 {
        captures2_bits(v, m, p) | captures1_bits(v, m, p) | (NEIGHBOURS2[m] & captures1_bits(v, s, p))
    } else {
        captures_and_win2_bits(v, m, p, player) | captures_and_win1_bits(v, m, p, player) | (
        NEIGHBOURS2[m] & captures_and_win1_bits(v, s, p, player))
    }
}

/// The actions that come after the second steps of each kind (see [`mid_actions`]).
pub open spec fn kind_extras(s: int, m: int, kind: int) -> Seq<Action> {
    if kind == 0 || kind == 6 || kind == 4 || kind == 11 || kind == 16 || kind == 21 {
        seq![action_of(s, 255, m)]
    } else if kind == 1 || kind == 8 || kind == 18 {
        seq![action_of(s, m, s), action_of(s, 255, m), action_of(s, s, m)]
    } else if kind == 13 {
        seq![action_of(s, m, s), action_of(s, 255, m)]
    } else if kind == 2 || kind == 14 {
        seq![action_of(s, s, m)]
    } else if kind == 3 {
        seq![action_of(s, m, s), action_of(s, s, m)]
    } else {
        seq![]
    }
}

/// The actions of one kind for each first step in `mids`, in order.
pub open spec fn mids_actions(
    v: Seq<u64>,
    s: int,
    p: u8,
    player: Player,
    kind: int,
    mids: Seq<int>,
) -> Seq<Action>
    decreases mids.len(),
{
    if mids.len() == 0 {
        seq![]
    } else {
        mids_actions(v, s, p, player, kind, mids.drop_last()) + mid_actions(
            v,
            s,
            p,
            player,
            kind,
            mids.last(),
        )
    }
}

/// The actions of one kind for each cell of the bitboard `mids`.
pub open spec fn kind_actions(v: Seq<u64>, s: int, p: u8, player: Player, kind: int, mids: u64) -> Seq<
    Action,
> {
    mids_actions(v, s, p, player, kind, bit_list(mids))
}

/// The actions available to the piece `p` of `player` at `s`.
pub open spec fn piece_actions_of(v: Seq<u64>, s: int, p: u8, player: Player) -> Seq<Action> {
    if p >= 16 {
        kind_actions(v, s, p, player, 0, moves2_bits(v, s, p)) + kind_actions(
            v,
            s,
            p,
            player,
            1,
            moves1_bits(v, s, p),
        ) + kind_actions(v, s, p, player, 2, stacks_bits(v, s, p))
    } else {
        kind_actions(v, s, p, player, 3, stacks_bits(v, s, p)) + kind_actions(
            v,
            s,
            p,
            player,
            4,
            moves1_bits(v, s, p),
        )
    }
}

/// The actions available to the piece of `player` at `s`.
pub open spec fn piece_actions(v: Seq<u64>, s: int, player: Player) -> Seq<Action> {
    piece_actions_of(v, s, player_piece_at(v, s, player), player)
}

/// The actions of `player` for the cells below `n`, cell by cell.
pub open spec fn player_actions_upto(v: Seq<u64>, player: Player, n: int) -> Seq<Action>
    decreases n,
{
    if n <= 0 {
        seq![]
    } else {
        player_actions_upto(v, player, n - 1) + if bit(same_colour_bits(v, player), n - 1) {
            piece_actions(v, n - 1, player)
        } else {
            seq![]
        }
    }
}

/// All the actions available to `player`, in the order of the move generator.
pub open spec fn player_actions(v: Seq<u64>, player: Player) -> Seq<Action> {
    player_actions_upto(v, player, 45)
}

/// The neighbour cells where `p` captures, and also those of the far row when `wins` is set.
pub open spec fn capture_targets1(v: Seq<u64>, x: int, p: u8, player: Player, wins: bool) -> u64 {
    if wins {
        captures_and_win1_bits(v, x, p, player)
    } else {
        captures1_bits(v, x, p)
    }
}

/// The distance-2 cells where `p` captures, and also those of the far row when `wins` is set.
pub open spec fn capture_targets2(v: Seq<u64>, x: int, p: u8, player: Player, wins: bool) -> u64 {
    if wins {
        captures_and_win2_bits(v, x, p, player)
    } else {
        captures2_bits(v, x, p)
    }
}

/// The captures available to the piece `p` of `player` at `s`, and also its
/// moves that reach the far row when `wins` is set.
pub open spec fn piece_captures_of(v: Seq<u64>, s: int, p: u8, player: Player, wins: bool) -> Seq<Action> {
    let c: int = if wins { 0 } else { 10 };
    if p >= 16 {
        kind_actions(v, s, p, player, 5 + c, non_captures2_bits(v, s)) + kind_actions(
            v,
            s,
            p,
            player,
            6 + c,
            capture_targets2(v, s, p, player, wins),
        ) + kind_actions(v, s, p, player, 7 + c, non_captures1_bits(v, s)) + kind_actions(
            v,
            s,
            p,
            player,
            8 + c,
            capture_targets1(v, s, p, player, wins),
        ) + kind_actions(v, s, p, player, 9 + c, stacks_bits(v, s, p))
    } else {
        kind_actions(v, s, p, player, 10 + c, stacks_bits(v, s, p)) + kind_actions(
            v,
            s,
            p,
            player,
            11 + c,
            capture_targets1(v, s, p, player, wins),
        )
    }
}

/// The captures (and, when `wins` is set, the winning moves) of `player` for
/// the cells below `n` that hold one of its non-wise pieces.
pub open spec fn player_captures_upto(v: Seq<u64>, player: Player, n: int, wins: bool) -> Seq<Action>
    decreases n,
{
    if n <= 0 {
        seq![]
    } else {
        player_captures_upto(v, player, n - 1, wins) + if bit(
            same_colour_not_wise_bits(v, player),
            n - 1,
        ) {
            piece_captures_of(v, n - 1, player_piece_at(v, n - 1, player), player, wins)
        } else {
            seq![]
        }
    }
}

/// All the captures available to `player`, in generation order.
pub open spec fn player_captures(v: Seq<u64>, player: Player) -> Seq<Action> {
    player_captures_upto(v, player, 45, false)
}

/// All the captures and the moves that reach the far row available to
/// `player`, in generation order.
pub open spec fn player_captures_and_wins(v: Seq<u64>, player: Player) -> Seq<Action> {
    player_captures_upto(v, player, 45, true)
}

/// The set bits of a bitboard are cells below 64.
pub proof fn lemma_bit_list_range(x: u64)
    ensures
        forall|k: int| 0 <= k < bit_list(x).len() ==> 0 <= #[trigger] bit_list(x)[k] < 64,
{
    lemma_bit_list(x);
    assert forall|k: int| 0 <= k < bit_list(x).len() implies 0 <= #[trigger] bit_list(x)[k]
        < 64 by {
        assert(bit_list(x).contains(bit_list(x)[k]));
    }
}

/// The cell `j` is at distance 1 or 2 from the cell `x`.
pub open spec fn near(x: int, j: int) -> bool {
    bit(NEIGHBOURS1[x], j) || bit(NEIGHBOURS2[x], j)
}

/// The 2-range targets of a cell are at distance 2 from it.
proof fn lemma_magic_near(blockers: u64, x: int, j: int)
    requires
        0 <= x < 64,
    ensures
        bit(magic_bits(blockers, x), j) ==> bit(NEIGHBOURS2[x], j),
{
    lemma_bit_list_range(NEIGHBOURS2[x]);
    lemma_magic_fold(blockers, x, bit_list(NEIGHBOURS2[x]), j);
    lemma_bit_list(NEIGHBOURS2[x]);
}

/// Every mask of reachable cells used by the move generator holds only cells
/// near its origin.
pub proof fn lemma_masks_near(v: Seq<u64>, x: int, p: u8, player: Player, j: int)
    requires
        0 <= x < 64,
    ensures
        bit(moves1_bits(v, x, p), j) ==> near(x, j),
        bit(moves2_bits(v, x, p), j) ==> near(x, j),
        bit(stacks_bits(v, x, p), j) ==> near(x, j),
        bit(captures_and_win1_bits(v, x, p, player), j) ==> near(x, j),
        bit(captures_and_win2_bits(v, x, p, player), j) ==> near(x, j),
        bit(captures1_bits(v, x, p), j) ==> near(x, j),
        bit(captures2_bits(v, x, p), j) ==> near(x, j),
        bit(non_captures1_bits(v, x), j) ==> near(x, j),
        bit(non_captures2_bits(v, x), j) ==> near(x, j),
{
    let free = !all_bits(v);
    let blockers = BLOCKER_MASKS[x] & free;
    let victims = victims_bits(v, p);
    let wins = win_mask_bits(player);
    lemma_magic_near(blockers, x, j);
    lemma_bit_ops(NEIGHBOURS1[x], free | victims, j);
    lemma_bit_ops(magic_bits(blockers, x), free | victims, j);
    lemma_bit_ops(NEIGHBOURS1[x], victims | wins, j);
    lemma_bit_ops(magic_bits(blockers, x), victims | wins, j);
    lemma_bit_ops(NEIGHBOURS1[x], victims, j);
    lemma_bit_ops(magic_bits(blockers, x), victims, j);
    lemma_bit_ops(NEIGHBOURS1[x], free, j);
    lemma_bit_ops(magic_bits(blockers, x), free, j);
    let owner_player = owner(p);
    let same = if p & 3u8 == 3u8 {
        same_wise_bits(v, owner_player)
    } else {
        same_colour_bits(v, owner_player)
    };
    lemma_bit_ops(NEIGHBOURS1[x], same & !same_stacks_bits(v, owner_player), j);
}

/// The end cells of every kind of second step are near the middle cell.
pub proof fn lemma_kind_ends_near(
    v: Seq<u64>,
    s: int,
    p: u8,
    player: Player,
    kind: int,
    m: int,
    j: int,
)
    requires
        0 <= s < 64,
        0 <= m < 64,
    ensures
        bit(kind_ends_spec(v, s, p, player, kind, m), j) ==> near(m, j),
{
    lemma_masks_near(v, m, p, player, j);
    lemma_bit_ops(moves1_bits(v, m, p), stacks_bits(v, m, p), j);
    lemma_bit_ops(moves2_bits(v, m, p), moves1_bits(v, m, p), j);
    lemma_bit_ops(moves2_bits(v, m, p) | moves1_bits(v, m, p), NEIGHBOURS2[m] & moves1_bits(v, s, p), j);
    lemma_bit_ops(NEIGHBOURS2[m], moves1_bits(v, s, p), j);
    let c2 = captures_and_win2_bits(v, m, p, player);
    let c1 = captures_and_win1_bits(v, m, p, player);
    lemma_bit_ops(c2, c1, j);
    lemma_bit_ops(c2 | c1, NEIGHBOURS2[m] & captures_and_win1_bits(v, s, p, player), j);
    lemma_bit_ops(NEIGHBOURS2[m], captures_and_win1_bits(v, s, p, player), j);
    let d2 = captures2_bits(v, m, p);
    let d1 = captures1_bits(v, m, p);
    lemma_bit_ops(d2, d1, j);
    lemma_bit_ops(d2 | d1, NEIGHBOURS2[m] & captures1_bits(v, s, p), j);
    lemma_bit_ops(NEIGHBOURS2[m], captures1_bits(v, s, p), j);
}

/// The kind of actions that holds the captures of the kind `k` (15 to 21).
pub open spec fn action_kind(k: int) -> int {
    if k == 15 || k == 16 {
        0
    } else if k == 17 || k == 18 {
        1
    } else if k == 19 {
        2
    } else if k == 20 {
        3
    } else {
        4
    }
}

/// A sequence joined to another holds what either holds.
proof fn lemma_concat_contains(a: Seq<Action>, b: Seq<Action>, x: Action)
    ensures
        (a + b).contains(x) <==> (a.contains(x) || b.contains(x)),
{
    if (a + b).contains(x) {
        let k = choose|k: int| 0 <= k < (a + b).len() && (a + b)[k] == x;
        if k < a.len() {
            assert(a[k] == x);
        } else {
            assert(b[k - a.len()] == x);
        }
    }
    if a.contains(x) {
        let k = choose|k: int| 0 <= k < a.len() && a[k] == x;
        assert((a + b)[k] == x);
    }
    if b.contains(x) {
        let k = choose|k: int| 0 <= k < b.len() && b[k] == x;
        assert((a + b)[a.len() + k] == x);
    }
}

/// An action of one kind comes from one of its first steps.
proof fn lemma_mids_member(
    v: Seq<u64>,
    s: int,
    p: u8,
    player: Player,
    kind: int,
    mids: Seq<int>,
    x: Action,
)
    requires
        mids_actions(v, s, p, player, kind, mids).contains(x),
    ensures
        exists|i: int| 0 <= i < mids.len() && #[trigger] mid_actions(v, s, p, player, kind, mids[i]).contains(x),
    decreases mids.len(),
{
    if mids.len() > 0 {
        let pre = mids_actions(v, s, p, player, kind, mids.drop_last());
        let last = mid_actions(v, s, p, player, kind, mids.last());
        lemma_concat_contains(pre, last, x);
        if pre.contains(x) {
            lemma_mids_member(v, s, p, player, kind, mids.drop_last(), x);
            let i = choose|i: int|
                0 <= i < mids.drop_last().len() && #[trigger] mid_actions(
                    v,
                    s,
                    p,
                    player,
                    kind,
                    mids.drop_last()[i],
                ).contains(x);
            assert(mids.drop_last()[i] == mids[i]);
        } else {
            assert(mids[mids.len() - 1] == mids.last());
        }
    }
}

/// The actions that follow one of the first steps are among those of the kind.
proof fn lemma_mids_include(
    v: Seq<u64>,
    s: int,
    p: u8,
    player: Player,
    kind: int,
    mids: Seq<int>,
    i: int,
    x: Action,
)
    requires
        0 <= i < mids.len(),
        mid_actions(v, s, p, player, kind, mids[i]).contains(x),
    ensures
        mids_actions(v, s, p, player, kind, mids).contains(x),
    decreases mids.len(),
{
    let pre = mids_actions(v, s, p, player, kind, mids.drop_last());
    let last = mid_actions(v, s, p, player, kind, mids.last());
    lemma_concat_contains(pre, last, x);
    if i < mids.len() - 1 {
        assert(mids.drop_last()[i] == mids[i]);
        lemma_mids_include(v, s, p, player, kind, mids.drop_last(), i, x);
    } else {
        assert(mids.last() == mids[i]);
    }
}

/// A neighbour or distance-2 cell where a piece captures is one it can move to.
proof fn lemma_captures_are_moves(v: Seq<u64>, x: int, p: u8, j: int)
    requires
        0 <= x < 64,
    ensures
        bit(captures1_bits(v, x, p), j) ==> bit(moves1_bits(v, x, p), j),
        bit(captures2_bits(v, x, p), j) ==> bit(moves2_bits(v, x, p), j),
        bit(non_captures1_bits(v, x), j) ==> bit(moves1_bits(v, x, p), j),
        bit(non_captures2_bits(v, x), j) ==> bit(moves2_bits(v, x, p), j),
{
    let free = !all_bits(v);
    let victims = victims_bits(v, p);
    let magic = magic_bits(BLOCKER_MASKS[x] & free, x);
    lemma_bit_ops(free, victims, j);
    lemma_bit_ops(NEIGHBOURS1[x], victims, j);
    lemma_bit_ops(NEIGHBOURS1[x], free, j);
    lemma_bit_ops(NEIGHBOURS1[x], free | victims, j);
    lemma_bit_ops(magic, victims, j);
    lemma_bit_ops(magic, free, j);
    lemma_bit_ops(magic, free | victims, j);
}

/// The end cells of each kind of capture are end cells of its kind of action.
proof fn lemma_capture_ends_sub(v: Seq<u64>, s: int, p: u8, player: Player, k: int, m: int, e: int)
    requires
        0 <= s < 64,
        0 <= m < 64,
        15 <= k <= 20,
    ensures
        bit(kind_ends_spec(v, s, p, player, k, m), e) ==> bit(
            kind_ends_spec(v, s, p, player, action_kind(k), m),
            e,
        ),
{
    lemma_captures_are_moves(v, m, p, e);
    lemma_captures_are_moves(v, s, p, e);
    let c1 = captures1_bits(v, m, p);
    let c2 = captures2_bits(v, m, p);
    let m1 = moves1_bits(v, m, p);
    let m2 = moves2_bits(v, m, p);
    lemma_bit_ops(m1, stacks_bits(v, m, p), e);
    lemma_bit_ops(c2, c1, e);
    lemma_bit_ops(m2, m1, e);
    lemma_bit_ops(c2 | c1, NEIGHBOURS2[m] & captures1_bits(v, s, p), e);
    lemma_bit_ops(m2 | m1, NEIGHBOURS2[m] & moves1_bits(v, s, p), e);
    lemma_bit_ops(NEIGHBOURS2[m], captures1_bits(v, s, p), e);
    lemma_bit_ops(NEIGHBOURS2[m], moves1_bits(v, s, p), e);
}

/// The actions of each kind of capture that follow a first step are actions of
/// its kind of action that follow it.
proof fn lemma_capture_mid_sub(v: Seq<u64>, s: int, p: u8, player: Player, k: int, m: int, x: Action)
    requires
        0 <= s < 64,
        0 <= m < 64,
        15 <= k <= 21,
        mid_actions(v, s, p, player, k, m).contains(x),
    ensures
        mid_actions(v, s, p, player, action_kind(k), m).contains(x),
{
    if k != 21 {
        let k2 = action_kind(k);
        let ends1 = kind_ends_spec(v, s, p, player, k, m);
        let ends2 = kind_ends_spec(v, s, p, player, k2, m);
        let ea1 = end_actions(s, m, ends1);
        let ea2 = end_actions(s, m, ends2);
        let ex1 = kind_extras(s, m, k);
        let ex2 = kind_extras(s, m, k2);
        lemma_concat_contains(ea1, ex1, x);
        lemma_concat_contains(ea2, ex2, x);
        if ea1.contains(x) {
            let i = choose|i: int| 0 <= i < ea1.len() && ea1[i] == x;
            let e = bit_list(ends1)[i];
            lemma_bit_list(ends1);
            lemma_bit_list(ends2);
            assert(bit_list(ends1).contains(e));
            lemma_capture_ends_sub(v, s, p, player, k, m, e);
            assert(bit_list(ends2).contains(e));
            let j = choose|j: int| 0 <= j < bit_list(ends2).len() && bit_list(ends2)[j] == e;
            assert(ea2[j] == x);
        } else {
            assert(ex1 == ex2);
        }
    }
}

/// The actions of each kind of capture are actions of its kind of action,
/// where the first steps of the capture are first steps of the action.
proof fn lemma_capture_kind_sub(
    v: Seq<u64>,
    s: int,
    p: u8,
    player: Player,
    k: int,
    mids1: u64,
    mids2: u64,
    x: Action,
)
    requires
        0 <= s < 64,
        15 <= k <= 21,
        forall|m: int| #[trigger] bit(mids1, m) ==> bit(mids2, m),
        kind_actions(v, s, p, player, k, mids1).contains(x),
    ensures
        kind_actions(v, s, p, player, action_kind(k), mids2).contains(x),
{
    let l1 = bit_list(mids1);
    let l2 = bit_list(mids2);
    lemma_mids_member(v, s, p, player, k, l1, x);
    let i = choose|i: int| 0 <= i < l1.len() && #[trigger] mid_actions(v, s, p, player, k, l1[i]).contains(x);
    let m = l1[i];
    lemma_bit_list(mids1);
    lemma_bit_list(mids2);
    assert(l1.contains(m));
    assert(bit(mids2, m));
    lemma_capture_mid_sub(v, s, p, player, k, m, x);
    assert(l2.contains(m));
    let j = choose|j: int| 0 <= j < l2.len() && l2[j] == m;
    lemma_mids_include(v, s, p, player, action_kind(k), l2, j, x);
}

/// The captures of a piece are actions of that piece.
proof fn lemma_piece_captures_sub(v: Seq<u64>, s: int, p: u8, player: Player, x: Action)
    requires
        0 <= s < 64,
        piece_captures_of(v, s, p, player, false).contains(x),
    ensures
        piece_actions_of(v, s, p, player).contains(x),
{
    let nc2 = non_captures2_bits(v, s);
    let c2 = captures2_bits(v, s, p);
    let nc1 = non_captures1_bits(v, s);
    let c1 = captures1_bits(v, s, p);
    let st = stacks_bits(v, s, p);
    let m2 = moves2_bits(v, s, p);
    let m1 = moves1_bits(v, s, p);
    assert forall|j: int| #[trigger] bit(nc2, j) implies bit(m2, j) by {
        lemma_captures_are_moves(v, s, p, j);
    }
    assert forall|j: int| #[trigger] bit(c2, j) implies bit(m2, j) by {
        lemma_captures_are_moves(v, s, p, j);
    }
    assert forall|j: int| #[trigger] bit(nc1, j) implies bit(m1, j) by {
        lemma_captures_are_moves(v, s, p, j);
    }
    assert forall|j: int| #[trigger] bit(c1, j) implies bit(m1, j) by {
        lemma_captures_are_moves(v, s, p, j);
    }
    if p >= 16 {
        let k15 = kind_actions(v, s, p, player, 15, nc2);
        let k16 = kind_actions(v, s, p, player, 16, c2);
        let k17 = kind_actions(v, s, p, player, 17, nc1);
        let k18 = kind_actions(v, s, p, player, 18, c1);
        let k19 = kind_actions(v, s, p, player, 19, st);
        let a0 = kind_actions(v, s, p, player, 0, m2);
        let a1 = kind_actions(v, s, p, player, 1, m1);
        let a2 = kind_actions(v, s, p, player, 2, st);
        lemma_concat_contains(k15 + k16 + k17 + k18, k19, x);
        lemma_concat_contains(k15 + k16 + k17, k18, x);
        lemma_concat_contains(k15 + k16, k17, x);
        lemma_concat_contains(k15, k16, x);
        lemma_concat_contains(a0 + a1, a2, x);
        lemma_concat_contains(a0, a1, x);
        if k15.contains(x) {
            lemma_capture_kind_sub(v, s, p, player, 15, nc2, m2, x);
        } else if k16.contains(x) {
            lemma_capture_kind_sub(v, s, p, player, 16, c2, m2, x);
        } else if k17.contains(x) {
            lemma_capture_kind_sub(v, s, p, player, 17, nc1, m1, x);
        } else if k18.contains(x) {
            lemma_capture_kind_sub(v, s, p, player, 18, c1, m1, x);
        } else {
            lemma_capture_kind_sub(v, s, p, player, 19, st, st, x);
        }
    } else {
        let k20 = kind_actions(v, s, p, player, 20, st);
        let k21 = kind_actions(v, s, p, player, 21, c1);
        let a3 = kind_actions(v, s, p, player, 3, st);
        let a4 = kind_actions(v, s, p, player, 4, m1);
        lemma_concat_contains(k20, k21, x);
        lemma_concat_contains(a3, a4, x);
        if k20.contains(x) {
            lemma_capture_kind_sub(v, s, p, player, 20, st, st, x);
        } else {
            lemma_capture_kind_sub(v, s, p, player, 21, c1, m1, x);
        }
    }
}

/// The captures of a player for the cells below `n` are among its actions for those cells.
proof fn lemma_captures_upto_sub(v: Seq<u64>, player: Player, n: int, x: Action)
    requires
        n <= 45,
        player_captures_upto(v, player, n, false).contains(x),
    ensures
        player_actions_upto(v, player, n).contains(x),
    decreases n,
{
    if n > 0 {
        let s = n - 1;
        let p = player_piece_at(v, s, player);
        let pre = player_captures_upto(v, player, s, false);
        let cur = if bit(same_colour_not_wise_bits(v, player), s) {
            piece_captures_of(v, s, p, player, false)
        } else {
            seq![]
        };
        let apre = player_actions_upto(v, player, s);
        let acur = if bit(same_colour_bits(v, player), s) {
            piece_actions(v, s, player)
        } else {
            seq![]
        };
        lemma_concat_contains(pre, cur, x);
        lemma_concat_contains(apre, acur, x);
        if pre.contains(x) {
            lemma_captures_upto_sub(v, player, s, x);
        } else {
            let a = if player == 0 { v[0] | v[1] | v[2] } else { v[4] | v[5] | v[6] };
            let d = if player == 0 { v[3] } else { v[7] };
            lemma_bit_ops(a, d, s);
            lemma_piece_captures_sub(v, s, p, player, x);
        }
    }
}

/// Law: every capture of a player is one of its actions.
pub proof fn lemma_captures_are_actions(v: Seq<u64>, player: Player)
    ensures
        forall|x: Action| #[trigger] player_captures(v, player).contains(x) ==> player_actions(
            v,
            player,
        ).contains(x),
{
    assert forall|x: Action| #[trigger] player_captures(v, player).contains(x) implies player_actions(
        v,
        player,
    ).contains(x) by {
        lemma_captures_upto_sub(v, player, 45, x);
    }
}

/// The action `x` of the piece `p` at `s` takes a piece: its end cell holds a
/// piece that `p` captures, or its middle cell, where the piece stops on the way.
pub open spec fn takes_from(v: Seq<u64>, s: int, p: u8, x: Action) -> bool {
    let m = action_mid(x);
    &&& action_start(x) == s
    &&& (bit(victims_bits(v, p), action_end(x)) || (m != 255 && m != s && bit(victims_bits(v, p), m)))
}

/// The capture `x` of `player` starts from one of its non-wise pieces and takes a piece.
pub open spec fn takes_piece(v: Seq<u64>, player: Player, x: Action) -> bool {
    let s = action_start(x);
    &&& bit(same_colour_not_wise_bits(v, player), s)
    &&& takes_from(v, s, player_piece_at(v, s, player), x)
}

/// The actions of each kind of capture that follow a first step to `m` take a piece.
proof fn lemma_capture_mid_takes(v: Seq<u64>, s: int, p: u8, player: Player, k: int, m: int, x: Action)
    requires
        0 <= s < 45,
        0 <= m < 64,
        15 <= k <= 21,
        k == 16 ==> bit(captures2_bits(v, s, p), m),
        k == 18 || k == 21 ==> bit(captures1_bits(v, s, p), m),
        mid_actions(v, s, p, player, k, m).contains(x),
    ensures
        takes_from(v, s, p, x),
{
    let victims = victims_bits(v, p);
    lemma_bit_ops(NEIGHBOURS1[s], victims, m);
    lemma_bit_ops(magic_bits(BLOCKER_MASKS[s] & !all_bits(v), s), victims, m);
    lemma_masks_near(v, s, p, player, m);
    lemma_neighbour_bits(s, m);
    lemma_action_indices(s, 255, m);
    lemma_action_indices(s, m, s);
    lemma_action_indices(s, s, m);
    if k == 21 {
        assert(x == action_of(s, 255, m));
    } else {
        let ends = kind_ends_spec(v, s, p, player, k, m);
        let ea = end_actions(s, m, ends);
        let ex = kind_extras(s, m, k);
        lemma_concat_contains(ea, ex, x);
        if ea.contains(x) {
            let i = choose|i: int| 0 <= i < ea.len() && ea[i] == x;
            let e = bit_list(ends)[i];
            lemma_bit_list(ends);
            assert(bit_list(ends).contains(e));
            lemma_action_indices(s, m, e);
            let c1 = captures1_bits(v, m, p);
            let c2 = captures2_bits(v, m, p);
            lemma_bit_ops(NEIGHBOURS1[m], victims, e);
            lemma_bit_ops(magic_bits(BLOCKER_MASKS[m] & !all_bits(v), m), victims, e);
            lemma_bit_ops(NEIGHBOURS1[s], victims, e);
            lemma_bit_ops(c2, c1, e);
            lemma_bit_ops(c2 | c1, NEIGHBOURS2[m] & captures1_bits(v, s, p), e);
            lemma_bit_ops(NEIGHBOURS2[m], captures1_bits(v, s, p), e);
        } else {
            let j = choose|j: int| 0 <= j < ex.len() && ex[j] == x;
            assert(k == 16 || k == 18);
        }
    }
}

/// The actions of each kind of capture take a piece, from the first steps it is made from.
proof fn lemma_capture_kind_takes(
    v: Seq<u64>,
    s: int,
    p: u8,
    player: Player,
    k: int,
    mids: u64,
    x: Action,
)
    requires
        0 <= s < 45,
        15 <= k <= 21,
        k == 16 ==> mids == captures2_bits(v, s, p),
        k == 18 || k == 21 ==> mids == captures1_bits(v, s, p),
        kind_actions(v, s, p, player, k, mids).contains(x),
    ensures
        takes_from(v, s, p, x),
{
    let l = bit_list(mids);
    lemma_mids_member(v, s, p, player, k, l, x);
    let i = choose|i: int| 0 <= i < l.len() && #[trigger] mid_actions(v, s, p, player, k, l[i]).contains(x);
    lemma_bit_list(mids);
    assert(l.contains(l[i]));
    lemma_capture_mid_takes(v, s, p, player, k, l[i], x);
}

/// The captures of a piece take a piece.
proof fn lemma_piece_captures_take(v: Seq<u64>, s: int, p: u8, player: Player, x: Action)
    requires
        0 <= s < 45,
        piece_captures_of(v, s, p, player, false).contains(x),
    ensures
        takes_from(v, s, p, x),
{
    let nc2 = non_captures2_bits(v, s);
    let c2 = captures2_bits(v, s, p);
    let nc1 = non_captures1_bits(v, s);
    let c1 = captures1_bits(v, s, p);
    let st = stacks_bits(v, s, p);
    if p >= 16 {
        let k15 = kind_actions(v, s, p, player, 15, nc2);
        let k16 = kind_actions(v, s, p, player, 16, c2);
        let k17 = kind_actions(v, s, p, player, 17, nc1);
        let k18 = kind_actions(v, s, p, player, 18, c1);
        let k19 = kind_actions(v, s, p, player, 19, st);
        lemma_concat_contains(k15 + k16 + k17 + k18, k19, x);
        lemma_concat_contains(k15 + k16 + k17, k18, x);
        lemma_concat_contains(k15 + k16, k17, x);
        lemma_concat_contains(k15, k16, x);
        if k15.contains(x) {
            lemma_capture_kind_takes(v, s, p, player, 15, nc2, x);
        } else if k16.contains(x) {
            lemma_capture_kind_takes(v, s, p, player, 16, c2, x);
        } else if k17.contains(x) {
            lemma_capture_kind_takes(v, s, p, player, 17, nc1, x);
        } else if k18.contains(x) {
            lemma_capture_kind_takes(v, s, p, player, 18, c1, x);
        } else {
            lemma_capture_kind_takes(v, s, p, player, 19, st, x);
        }
    } else {
        let k20 = kind_actions(v, s, p, player, 20, st);
        let k21 = kind_actions(v, s, p, player, 21, c1);
        lemma_concat_contains(k20, k21, x);
        if k20.contains(x) {
            lemma_capture_kind_takes(v, s, p, player, 20, st, x);
        } else {
            lemma_capture_kind_takes(v, s, p, player, 21, c1, x);
        }
    }
}

/// The captures of a player for the cells below `n` take a piece.
proof fn lemma_captures_upto_take(v: Seq<u64>, player: Player, n: int, x: Action)
    requires
        n <= 45,
        player_captures_upto(v, player, n, false).contains(x),
    ensures
        takes_piece(v, player, x),
    decreases n,
{
    if n > 0 {
        let s = n - 1;
        let pre = player_captures_upto(v, player, s, false);
        let cur = if bit(same_colour_not_wise_bits(v, player), s) {
            piece_captures_of(v, s, player_piece_at(v, s, player), player, false)
        } else {
            seq![]
        };
        lemma_concat_contains(pre, cur, x);
        if pre.contains(x) {
            lemma_captures_upto_take(v, player, s, x);
        } else {
            lemma_piece_captures_take(v, s, player_piece_at(v, s, player), player, x);
        }
    }
}

/// Law: every capture of a player starts from one of its non-wise pieces and
/// takes a piece, at its end cell or at the cell where it stops on the way.
pub proof fn lemma_captures_take(v: Seq<u64>, player: Player)
    ensures
        forall|x: Action| #[trigger] player_captures(v, player).contains(x) ==> takes_piece(v, player, x),
{
    assert forall|x: Action| #[trigger] player_captures(v, player).contains(x) implies takes_piece(
        v,
        player,
        x,
    ) by {
        lemma_captures_upto_take(v, player, 45, x);
    }
}

/// The actions of the kinds 0 to 4 that follow a first step to `m` start at `s`.
proof fn lemma_mid_start(v: Seq<u64>, s: int, p: u8, player: Player, k: int, m: int, x: Action)
    requires
        0 <= s < 64,
        0 <= m < 64,
        0 <= k <= 4,
        mid_actions(v, s, p, player, k, m).contains(x),
    ensures
        action_start(x) == s,
{
    lemma_action_indices(s, 255, m);
    lemma_action_indices(s, m, s);
    lemma_action_indices(s, s, m);
    if k != 4 {
        let ends = kind_ends_spec(v, s, p, player, k, m);
        let ea = end_actions(s, m, ends);
        let ex = kind_extras(s, m, k);
        lemma_concat_contains(ea, ex, x);
        if ea.contains(x) {
            let i = choose|i: int| 0 <= i < ea.len() && ea[i] == x;
            lemma_bit_list_range(ends);
            lemma_action_indices(s, m, bit_list(ends)[i]);
        }
    }
}

/// The actions of a kind from 0 to 4 start at `s`.
proof fn lemma_kind_start(v: Seq<u64>, s: int, p: u8, player: Player, k: int, mids: u64, x: Action)
    requires
        0 <= s < 64,
        0 <= k <= 4,
        kind_actions(v, s, p, player, k, mids).contains(x),
    ensures
        action_start(x) == s,
{
    let l = bit_list(mids);
    lemma_mids_member(v, s, p, player, k, l, x);
    let i = choose|i: int| 0 <= i < l.len() && #[trigger] mid_actions(v, s, p, player, k, l[i]).contains(x);
    lemma_bit_list_range(mids);
    lemma_mid_start(v, s, p, player, k, l[i], x);
}

/// The actions of the piece at `s` start at `s`.
proof fn lemma_piece_actions_start(v: Seq<u64>, s: int, p: u8, player: Player, x: Action)
    requires
        0 <= s < 64,
        piece_actions_of(v, s, p, player).contains(x),
    ensures
        action_start(x) == s,
{
    let m2 = moves2_bits(v, s, p);
    let m1 = moves1_bits(v, s, p);
    let st = stacks_bits(v, s, p);
    if p >= 16 {
        let a0 = kind_actions(v, s, p, player, 0, m2);
        let a1 = kind_actions(v, s, p, player, 1, m1);
        let a2 = kind_actions(v, s, p, player, 2, st);
        lemma_concat_contains(a0 + a1, a2, x);
        lemma_concat_contains(a0, a1, x);
        if a0.contains(x) {
            lemma_kind_start(v, s, p, player, 0, m2, x);
        } else if a1.contains(x) {
            lemma_kind_start(v, s, p, player, 1, m1, x);
        } else {
            lemma_kind_start(v, s, p, player, 2, st, x);
        }
    } else {
        let a3 = kind_actions(v, s, p, player, 3, st);
        let a4 = kind_actions(v, s, p, player, 4, m1);
        lemma_concat_contains(a3, a4, x);
        if a3.contains(x) {
            lemma_kind_start(v, s, p, player, 3, st, x);
        } else {
            lemma_kind_start(v, s, p, player, 4, m1, x);
        }
    }
}

/// The actions of a player for the cells below `n` start at a cell of one of its pieces.
proof fn lemma_actions_upto_start(v: Seq<u64>, player: Player, n: int, x: Action)
    requires
        n <= 45,
        player_actions_upto(v, player, n).contains(x),
    ensures
        bit(same_colour_bits(v, player), action_start(x)),
        0 <= action_start(x) < n,
    decreases n,
{
    if n > 0 {
        let s = n - 1;
        let pre = player_actions_upto(v, player, s);
        let cur = if bit(same_colour_bits(v, player), s) {
            piece_actions(v, s, player)
        } else {
            seq![]
        };
        lemma_concat_contains(pre, cur, x);
        if pre.contains(x) {
            lemma_actions_upto_start(v, player, s, x);
        } else {
            lemma_piece_actions_start(v, s, player_piece_at(v, s, player), player, x);
        }
    }
}

/// Law: every action of a player starts at a cell that holds one of its pieces.
pub proof fn lemma_actions_start(v: Seq<u64>, player: Player, x: Action)
    requires
        player_actions(v, player).contains(x),
    ensures
        bit(same_colour_bits(v, player), action_start(x)),
        0 <= action_start(x) < 45,
{
    lemma_actions_upto_start(v, player, 45, x);
}

/// The first bitboard from `a` to `b` that has the cell is the only one that has it.
proof fn lemma_first_set_only(v: Seq<u64>, i: int, a: int, b: int, t: int)
    requires
        a <= t < b,
        bit(v[t], i),
        forall|k: int| a <= k < b && k != t ==> !#[trigger] bit(v[k], i),
    ensures
        first_set(v, i, a, b) == t,
    decreases b - a,
{
    if a < t {
        lemma_first_set_only(v, i, a + 1, b, t);
    }
}

/// The piece of `player` at a cell of one of its pieces is the piece there,
/// seen from the top: same top piece, owned by `player`; and a stack of
/// `player` there is a stack.
proof fn lemma_player_piece(v: Seq<u64>, player: Player, s: int)
    requires
        board_wf(v),
        player <= 1,
        0 <= s < 64,
        bit(same_colour_bits(v, player), s),
    ensures
        player_piece_at(v, s, player) % 8 == piece_at(v, s) % 8,
        piece_at(v, s) % 16 >= 8,
        piece_at(v, s) & 4 == 4 * player,
        owner(player_piece_at(v, s, player)) == player,
        player_piece_at(v, s, player) >= 16 ==> piece_at(v, s) >= 16,
{
    let p = piece_at(v, s);
    let base: int = if player == 0 { 0 } else { 4 };
    assert(cell_wf(v, s));
    assert(is_valid_cell(p));
    assert forall|k: int| 0 <= k < 16 implies #[trigger] bit(v[k], s) == ((p != 0 && k == p % 8) || (p
        >= 16 && k == p / 16)) by {
        lemma_cell_bits(v, s, k);
    }
    lemma_bit_ops(v[base] | v[base + 1] | v[base + 2], v[base + 3], s);
    lemma_bit_ops(v[base] | v[base + 1], v[base + 2], s);
    lemma_bit_ops(v[base], v[base + 1], s);
    assert(p != 0);
    assert(p >= 16 ==> p / 16 >= 8) by {
        if p >= 16 {
            assert(8 <= p / 16 < 16);
        }
    }
    let t: int = (p % 8) as int;
    assert(base <= t < base + 4);
    lemma_first_set_only(v, s, base, base + 4, t);
    lemma_first_set_range(v, s, base + 8, base + 12);
    let b = first_set(v, s, base + 8, base + 12);
    let q = player_piece_at(v, s, player);
    assert(q == piece_from_slots(t, b));
    assert(p % 16 >= 8) by {
        if p >= 16 {
            assert(8 <= p % 16 < 16);
        }
    }
    lemma_piece_byte(p);
    if b >= 0 {
        assert(bit(v[b], s));
        assert(q as int == t + 8 + 16 * b);
    } else {
        assert(q as int == t + 8);
    }
    assert(q % 8 == t);
    lemma_piece_byte(q);
}

/// The notation of the action `a` reads back as `a` on the board `v`: its
/// indices fit in 24 bits; a move without a middle cell, from a single piece,
/// does not end on an ally (it would read back as a stack); and a stack from
/// a single piece's start ends on an ally.
pub open spec fn notation_ok(v: Seq<u64>, a: Action) -> bool {
    let s = action_start(a);
    let m = action_mid(a);
    let e = action_end(a);
    &&& (a as int) < 16777216
    &&& (m == 255 && piece_at(v, s) < 16 ==> piece_at(v, e) == 0 || piece_at(v, e) & 4 != piece_at(v, s)
        & 4)
    &&& (m == s && piece_at(v, s) < 16 ==> piece_at(v, e) != 0 && piece_at(v, e) & 4 == piece_at(v, s)
        & 4)
}

/// A move onto a free cell or onto a piece that `p` captures does not end on an ally.
proof fn lemma_target_not_ally(v: Seq<u64>, player: Player, s: int, e: int)
    requires
        board_wf(v),
        player <= 1,
        0 <= s < 64,
        0 <= e < 64,
        bit(same_colour_bits(v, player), s),
        bit(!all_bits(v) | victims_bits(v, player_piece_at(v, s, player)), e),
    ensures
        piece_at(v, e) == 0 || piece_at(v, e) & 4 != piece_at(v, s) & 4,
{
    lemma_player_piece(v, player, s);
    let q = player_piece_at(v, s, player);
    let pe = piece_at(v, e);
    assert(cell_wf(v, e));
    assert(is_valid_cell(pe));
    assert forall|k: int| 0 <= k < 16 implies #[trigger] bit(v[k], e) == ((pe != 0 && k == pe % 8) || (pe
        >= 16 && k == pe / 16)) by {
        lemma_cell_bits(v, e, k);
    }
    assert(pe >= 16 ==> pe / 16 >= 8) by {
        if pe >= 16 {
            assert(8 <= pe / 16 < 16);
        }
    }
    lemma_bit_ops(!all_bits(v), victims_bits(v, q), e);
    if bit(!all_bits(v), e) {
        lemma_bit_ops(all_bits(v), all_bits(v), e);
        if pe != 0 {
            let k: int = (pe % 8) as int;
            assert(bit(v[k], e));
            lemma_bit_ops(v[0] | v[1] | v[2] | v[3], v[4] | v[5] | v[6] | v[7], e);
            lemma_bit_ops(v[0] | v[1] | v[2], v[3], e);
            lemma_bit_ops(v[0] | v[1], v[2], e);
            lemma_bit_ops(v[0], v[1], e);
            lemma_bit_ops(v[4] | v[5] | v[6], v[7], e);
            lemma_bit_ops(v[4] | v[5], v[6], e);
            lemma_bit_ops(v[4], v[5], e);
            assert(false);
        }
    } else {
        let t = q % 8;
        lemma_piece_byte(pe);
        lemma_piece_byte(q);
        let ps = piece_at(v, s);
        if t == 0 || t == 1 || t == 2 || t == 4 || t == 5 || t == 6 {
            let kv: int = if t == 0 { 5 } else if t == 1 { 6 } else if t == 2 { 4 } else if t == 4 { 1 } else if t == 5 { 2 } else { 0 };
            assert(victims_bits(v, q) == v[kv]);
            assert(bit(v[kv], e));
            assert(pe != 0 && pe % 8 == kv);
        } else {
            assert(!bit(victims_bits(v, q), e)) by {
                lemma_bit_ops(0u64, 0u64, e);
            }
        }
    }
}

/// The actions of the kinds 0 to 4 that follow a first step to `m` read back
/// from their notation.
proof fn lemma_mid_notation(v: Seq<u64>, s: int, p: u8, player: Player, k: int, m: int, x: Action)
    requires
        board_wf(v),
        player <= 1,
        0 <= s < 45,
        0 <= m < 64,
        0 <= k <= 4,
        p == player_piece_at(v, s, player),
        bit(same_colour_bits(v, player), s),
        k == 0 ==> bit(moves2_bits(v, s, p), m),
        k == 1 || k == 4 ==> bit(moves1_bits(v, s, p), m),
        k == 2 || k == 3 ==> bit(stacks_bits(v, s, p), m),
        k <= 2 ==> p >= 16,
        mid_actions(v, s, p, player, k, m).contains(x),
    ensures
        notation_ok(v, x),
{
    lemma_player_piece(v, player, s);
    lemma_masks_near(v, s, p, player, m);
    lemma_neighbour_bits(s, m);
    lemma_action_indices(s, 255, m);
    lemma_action_indices(s, m, s);
    lemma_action_indices(s, s, m);
    let free = !all_bits(v);
    let victims = victims_bits(v, p);
    if k == 0 || k == 1 || k == 4 {
        lemma_bit_ops(magic_bits(BLOCKER_MASKS[s] & free, s), free | victims, m);
        lemma_bit_ops(NEIGHBOURS1[s], free | victims, m);
        lemma_target_not_ally(v, player, s, m);
    }
    if k == 3 {
        let o = owner(p);
        let same = if p & 3u8 == 3u8 { same_wise_bits(v, o) } else { same_colour_bits(v, o) };
        lemma_bit_ops(NEIGHBOURS1[s], same & !same_stacks_bits(v, o), m);
        lemma_bit_ops(same, !same_stacks_bits(v, o), m);
        let base: int = if player == 0 { 0 } else { 4 };
        lemma_bit_ops(v[base] | v[base + 1] | v[base + 2], v[base + 3], m);
        lemma_player_piece(v, player, m);
    }
    if k != 4 {
        let ends = kind_ends_spec(v, s, p, player, k, m);
        let ea = end_actions(s, m, ends);
        let ex = kind_extras(s, m, k);
        lemma_concat_contains(ea, ex, x);
        if ea.contains(x) {
            let i = choose|i: int| 0 <= i < ea.len() && ea[i] == x;
            lemma_bit_list_range(ends);
            lemma_action_indices(s, m, bit_list(ends)[i]);
        } else {
            let j = choose|j: int| 0 <= j < ex.len() && ex[j] == x;
        }
    }
}

/// The actions of a kind from 0 to 4 read back from their notation.
proof fn lemma_kind_notation(v: Seq<u64>, s: int, p: u8, player: Player, k: int, mids: u64, x: Action)
    requires
        board_wf(v),
        player <= 1,
        0 <= s < 45,
        0 <= k <= 4,
        p == player_piece_at(v, s, player),
        bit(same_colour_bits(v, player), s),
        k == 0 ==> mids == moves2_bits(v, s, p),
        k == 1 || k == 4 ==> mids == moves1_bits(v, s, p),
        k == 2 || k == 3 ==> mids == stacks_bits(v, s, p),
        k <= 2 ==> p >= 16,
        kind_actions(v, s, p, player, k, mids).contains(x),
    ensures
        notation_ok(v, x),
{
    let l = bit_list(mids);
    lemma_mids_member(v, s, p, player, k, l, x);
    let i = choose|i: int| 0 <= i < l.len() && #[trigger] mid_actions(v, s, p, player, k, l[i]).contains(x);
    lemma_bit_list(mids);
    assert(l.contains(l[i]));
    lemma_mid_notation(v, s, p, player, k, l[i], x);
}

/// The actions of the piece of `player` at `s` read back from their notation.
proof fn lemma_piece_notation(v: Seq<u64>, s: int, player: Player, x: Action)
    requires
        board_wf(v),
        player <= 1,
        0 <= s < 45,
        bit(same_colour_bits(v, player), s),
        piece_actions(v, s, player).contains(x),
    ensures
        notation_ok(v, x),
{
    let p = player_piece_at(v, s, player);
    let m2 = moves2_bits(v, s, p);
    let m1 = moves1_bits(v, s, p);
    let st = stacks_bits(v, s, p);
    if p >= 16 {
        let a0 = kind_actions(v, s, p, player, 0, m2);
        let a1 = kind_actions(v, s, p, player, 1, m1);
        let a2 = kind_actions(v, s, p, player, 2, st);
        lemma_concat_contains(a0 + a1, a2, x);
        lemma_concat_contains(a0, a1, x);
        if a0.contains(x) {
            lemma_kind_notation(v, s, p, player, 0, m2, x);
        } else if a1.contains(x) {
            lemma_kind_notation(v, s, p, player, 1, m1, x);
        } else {
            lemma_kind_notation(v, s, p, player, 2, st, x);
        }
    } else {
        let a3 = kind_actions(v, s, p, player, 3, st);
        let a4 = kind_actions(v, s, p, player, 4, m1);
        lemma_concat_contains(a3, a4, x);
        if a3.contains(x) {
            lemma_kind_notation(v, s, p, player, 3, st, x);
        } else {
            lemma_kind_notation(v, s, p, player, 4, m1, x);
        }
    }
}

/// The actions of a player for the cells below `n` read back from their notation.
proof fn lemma_actions_upto_notation(v: Seq<u64>, player: Player, n: int, x: Action)
    requires
        board_wf(v),
        player <= 1,
        n <= 45,
        player_actions_upto(v, player, n).contains(x),
    ensures
        notation_ok(v, x),
    decreases n,
{
    if n > 0 {
        let s = n - 1;
        let pre = player_actions_upto(v, player, s);
        let cur = if bit(same_colour_bits(v, player), s) {
            piece_actions(v, s, player)
        } else {
            seq![]
        };
        lemma_concat_contains(pre, cur, x);
        if pre.contains(x) {
            lemma_actions_upto_notation(v, player, s, x);
        } else {
            lemma_piece_notation(v, s, player, x);
        }
    }
}

/// Every action of a player reads back from its notation (see [`notation_ok`]).
pub proof fn lemma_actions_notation_ok(v: Seq<u64>, player: Player, x: Action)
    requires
        board_wf(v),
        player <= 1,
        player_actions(v, player).contains(x),
    ensures
        notation_ok(v, x),
{
    lemma_actions_upto_notation(v, player, 45, x);
}

impl Board {
    /// The end cells that follow a first step to `m` for the given kind.
    pub(crate) fn kind_ends(&self, s: CellIndex, p: Piece, player: Player, kind: u8, m: CellIndex) -> (r: u64)
        requires
            s < 64,
            m < 64,
            kind < 22,
        ensures
            r == kind_ends_spec(self@, s as int, p, player, kind as int, m as int),
    {
        let r = if kind == 0 || kind == 1 || kind == 6 || kind == 8 || kind == 12 || kind == 13
            || kind == 16 || kind == 18 {
            self.available_unstacks(m, p).0 | self.available_stacks(m, p).0
        } else if kind == 2 {
            self.available_moves2(m, p).0 | self.available_moves1(m, p).0
        } else if kind == 3 {
            self.available_moves2(m, p).0 | self.available_moves1(m, p).0 | (NEIGHBOURS2[m]
                & self.available_moves1(s, p).0)
        } else if kind == 5 || kind == 7 {
            self.available_captures_and_win1(m, p, player).0
        } else if kind == 9 {
            self.available_captures_and_win2(m, p, player).0 | self.available_captures_and_win1(
                m,
                p,
                player,
            ).0
        } else if kind == 15 || kind == 17 {
            self.available_captures1(m, p).0
        } else if kind == 19 {
            self.available_captures2(m, p).0 | self.available_captures1(m, p).0
        } else if kind == 20 {
            self.available_captures2(m, p).0 | self.available_captures1(m, p).0 | (NEIGHBOURS2[m]
                & self.available_captures1(s, p).0)
        } else {
            self.available_captures_and_win2(m, p, player).0 | self.available_captures_and_win1(
                m,
                p,
                player,
            ).0 | (NEIGHBOURS2[m] & self.available_captures_and_win1(s, p, player).0)
        };
        r
    }

    /// Pushes the actions that end on each cell of `ends`, from `s` through `m`.
    pub(crate) fn push_ends(actions: &mut Actions, s: CellIndex, m: CellIndex, ends: u64)
        requires
            s < 64,
            m < 64,
        ensures
            final(actions)@ == old(actions)@ + end_actions(s as int, m as int, ends),
    {
        let half_action: Action = Action::from_indices_half(s, m);
        let mut rest = ends;
        let ghost mut done: Seq<int> = seq![];
        let ghost start = actions@;
        while rest != 0
            invariant
                s < 64,
                m < 64,
                half_action == action_of(s as int, m as int, 0),
                done + bit_list(rest) == bit_list(ends),
                actions@ == start + done.map_values(|e: int| action_of(s as int, m as int, e)),
            decreases rest,
        {
            let ghost before = rest;
            let e = pop_lowest(&mut rest);
            actions.push(half_action.add_last_index(e));
            proof {
                let d2 = done.push(e as int);
                assert(d2 + bit_list(rest) =~= done + bit_list(before));
                assert(d2.map_values(|e: int| action_of(s as int, m as int, e)) =~= done.map_values(
                    |e: int| action_of(s as int, m as int, e),
                ).push(action_of(s as int, m as int, e as int)));
                done = d2;
            }
        }
        assert(done =~= bit_list(ends));
    }

    /// Pushes the actions of one kind that follow a first step to `m`.
    fn push_mid(
        &self,
        actions: &mut Actions,
        s: CellIndex,
        p: Piece,
        player: Player,
        kind: u8,
        m: CellIndex,
    )
        requires
            s < 64,
            m < 64,
            kind < 12 || 15 <= kind < 22,
        ensures
            final(actions)@ == old(actions)@ + mid_actions(
                self@,
                s as int,
                p,
                player,
                kind as int,
                m as int,
            ),
    {
        if kind == 4 || kind == 11 || kind == 21 {
            actions.push(Action::from_indices(s, INDEX_NULL, m));
            assert(actions@ =~= old(actions)@ + mid_actions(
                self@,
                s as int,
                p,
                player,
                kind as int,
                m as int,
            ));
            return ;
        }
        let ends = self.kind_ends(s, p, player, kind, m);
        Self::push_ends(actions, s, m, ends);
        if kind == 0 || kind == 6 || kind == 16 {
            actions.push(Action::from_indices(s, INDEX_NULL, m));
        } else if kind == 1 || kind == 8 || kind == 18 {
            actions.push(Action::from_indices(s, m, s));
            actions.push(Action::from_indices(s, INDEX_NULL, m));
            actions.push(Action::from_indices(s, s, m));
        } else if kind == 2 {
            actions.push(Action::from_indices(s, s, m));
        } else if kind == 3 {
            actions.push(Action::from_indices(s, m, s));
            actions.push(Action::from_indices(s, s, m));
        }
        assert(actions@ =~= old(actions)@ + mid_actions(
            self@,
            s as int,
            p,
            player,
            kind as int,
            m as int,
        ));
    }

    /// Pushes the actions of one kind for each cell of the bitboard `mids`.
    fn push_kind(
        &self,
        actions: &mut Actions,
        s: CellIndex,
        p: Piece,
        player: Player,
        kind: u8,
        mids: u64,
    )
        requires
            s < 64,
            kind < 12 || 15 <= kind < 22,
        ensures
            final(actions)@ == old(actions)@ + kind_actions(
                self@,
                s as int,
                p,
                player,
                kind as int,
                mids,
            ),
    {
        let mut rest = mids;
        let ghost mut done: Seq<int> = seq![];
        let ghost start = actions@;
        while rest != 0
            invariant
                s < 64,
                kind < 12 || 15 <= kind < 22,
                done + bit_list(rest) == bit_list(mids),
                actions@ == start + mids_actions(self@, s as int, p, player, kind as int, done),
            decreases rest,
        {
            let ghost before = rest;
            let m = pop_lowest(&mut rest);
            self.push_mid(actions, s, p, player, kind, m);
            proof {
                let d2 = done.push(m as int);
                assert(d2 + bit_list(rest) =~= done + bit_list(before));
                assert(d2.drop_last() =~= done);
                done = d2;
            }
        }
        assert(done =~= bit_list(mids));
    }

    /// Returns the possible actions for a player.
    /// The result is a `Actions` struct (a list of actions).
    #[inline(always)]
    pub fn available_player_actions(&self, current_player: Player) -> (r: Actions)
        ensures
            r@ == player_actions(self@, current_player),
    {
        let mut player_actions = Actions::new();
        let mut index: usize = 0;
        // Calculate possible player_actions
        while index < N_CELLS
            invariant
                index <= N_CELLS,
                player_actions@ == player_actions_upto(self@, current_player, index as int),
            decreases N_CELLS - index,
        {
            // Choose pieces of the current player's colour
            if self.same_colour(current_player).get(index) {
                self.available_piece_actions(index, current_player, &mut player_actions);
            }
            index += 1;
        }
        player_actions
    }

    /// Calculates the possible actions for a piece.
    /// The result is stored in a `Actions` struct.
    /// This list is passed in parameter and modified by this function.
    #[inline]
    pub fn available_piece_actions(
        &self,
        index_start: CellIndex,
        current_player: Player,
        player_actions: &mut Actions,
    )
        requires
            index_start < 64,
        ensures
            final(player_actions)@ == old(player_actions)@ + piece_actions(
                self@,
                index_start as int,
                current_player,
            ),
    {
        let piece_start = self.get_player_piece(index_start, current_player);
        let s = index_start;
        let p = piece_start;
        if piece_start.is_stack() {
            // 2-range first action, then 1-range first action, then stack
            self.push_kind(player_actions, s, p, current_player, 0, self.available_moves2(s, p).0);
            self.push_kind(player_actions, s, p, current_player, 1, self.available_moves1(s, p).0);
            self.push_kind(player_actions, s, p, current_player, 2, self.available_stacks(s, p).0);
        } else {
            // stack first, then 1-range move
            self.push_kind(player_actions, s, p, current_player, 3, self.available_stacks(s, p).0);
            self.push_kind(player_actions, s, p, current_player, 4, self.available_moves1(s, p).0);
        }
        assert(player_actions@ =~= old(player_actions)@ + piece_actions(
            self@,
            index_start as int,
            current_player,
        ));
    }

    /// Returns the possible captures for a player.
    /// The result is a `Actions` struct.
    pub fn available_player_captures(&self, current_player: Player) -> (r: ActionsLight)
        ensures
            r@ == player_captures(self@, current_player),
            forall|x: Action| #[trigger] r@.contains(x) ==> player_actions(self@, current_player).contains(x),
            forall|x: Action| #[trigger] r@.contains(x) ==> takes_piece(self@, current_player, x),
    {
        let r = self.available_player_captures_upto(current_player, false);
        proof {
            lemma_captures_are_actions(self@, current_player);
            lemma_captures_take(self@, current_player);
            assert forall|x: Action| #[trigger] r@.contains(x) implies player_actions(
                self@,
                current_player,
            ).contains(x) && takes_piece(self@, current_player, x) by {
                assert(player_captures(self@, current_player).contains(x));
            }
        }
        r
    }

    /// Returns the possible captures and the moves that reach the far row for a player.
    /// The result is a `Actions` struct.
    pub fn available_player_captures_and_wins(&self, current_player: Player) -> (r: ActionsLight)
        ensures
            r@ == player_captures_and_wins(self@, current_player),
    {
        self.available_player_captures_upto(current_player, true)
    }

    /// The captures of a player, with its moves that reach the far row when `wins` is set.
    fn available_player_captures_upto(&self, current_player: Player, wins: bool) -> (r: ActionsLight)
        ensures
            r@ == player_captures_upto(self@, current_player, 45, wins),
    {
        let mut player_actions = Actions::new();
        let mut index: usize = 0;
        while index < N_CELLS
            invariant
                index <= N_CELLS,
                player_actions@ == player_captures_upto(self@, current_player, index as int, wins),
            decreases N_CELLS - index,
        {
            // Choose pieces of the current player's colour
            if self.same_colour_not_wise(current_player).get(index) {
                self.available_piece_captures(index, current_player, wins, &mut player_actions);
            }
            index += 1;
        }
        player_actions
    }

    /// Calculates the possible captures for a piece, with its moves that reach
    /// the far row when `wins` is set.
    fn available_piece_captures(
        &self,
        index_start: CellIndex,
        current_player: Player,
        wins: bool,
        player_actions: &mut ActionsLight,
    )
        requires
            index_start < 64,
        ensures
            final(player_actions)@ == old(player_actions)@ + piece_captures_of(
                self@,
                index_start as int,
                player_piece_at(self@, index_start as int, current_player),
                current_player,
                wins,
            ),
    {
        let piece_start = self.get_player_piece(index_start, current_player);
        let s = index_start;
        let p = piece_start;
        let pl = current_player;
        let c: u8 = if wins {
            0
        } else {
            10
        };
        let targets1 = if wins {
            self.available_captures_and_win1(s, p, pl).0
        } else {
            self.available_captures1(s, p).0
        };
        if piece_start.is_stack() {
            let targets2 = if wins {
                self.available_captures_and_win2(s, p, pl).0
            } else {
                self.available_captures2(s, p).0
            };
            // 2-range move, capture on unstack
            self.push_kind(player_actions, s, p, pl, 5 + c, self.available_non_captures2(s).0);
            // 2-range capture
            self.push_kind(player_actions, s, p, pl, 6 + c, targets2);
            // 1-range move, capture on unstack
            self.push_kind(player_actions, s, p, pl, 7 + c, self.available_non_captures1(s).0);
            // 1-range capture
            self.push_kind(player_actions, s, p, pl, 8 + c, targets1);
            // stack, then capture
            self.push_kind(player_actions, s, p, pl, 9 + c, self.available_stacks(s, p).0);
        } else {
            // stack, then capture
            self.push_kind(player_actions, s, p, pl, 10 + c, self.available_stacks(s, p).0);
            // 1-range capture
            self.push_kind(player_actions, s, p, pl, 11 + c, targets1);
        }
        assert(player_actions@ =~= old(player_actions)@ + piece_captures_of(
            self@,
            index_start as int,
            p,
            current_player,
            wins,
        ));
    }
}

} // verus!
