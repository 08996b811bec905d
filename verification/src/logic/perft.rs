//! Implements perft, a debug function that calculates the number of leaf nodes at a given depth.
//! It is used to assert that the move generator is correct.
use vstd::prelude::*;
use vstd::std_specs::bits::u64_trailing_zeros;

use crate::bitboard::{
    bit, bit_list, clear_lowest, lemma_bit_list, lemma_clear_lowest, lemma_clear_lowest_decreases,
    piece_at, popcount, same_colour_bits,
    same_colour_not_wise_bits, count_ones, Board,
};
use crate::logic::actions::{
    action_end, action_fits, action_mid, action_of, action_start, board_wf,
    lemma_action_indices, lemma_play_wf, play_bits, Action, ActionTrait,
};
use crate::logic::index::{CellIndex, INDEX_NULL};
use crate::logic::lookup::lemma_neighbour_bits;
use crate::logic::movegen::{
    end_actions, kind_actions, kind_ends_spec, kind_extras, lemma_bit_list_range,
    lemma_kind_ends_near, lemma_masks_near, mid_actions, mids_actions, near, piece_actions,
    capture_targets1, capture_targets2, piece_captures_of, player_actions, player_actions_upto,
    player_captures_upto,
};
use crate::logic::rules::{
    captures_and_win1_bits, captures_and_win2_bits, is_action_win, is_action_win_spec,
    lemma_bit_list_bound, moves1_bits, moves2_bits, non_captures1_bits, non_captures2_bits, owner,
    pop_lowest, stacks_bits,
};
use crate::logic::translate::{action_string, action_to_string};
use crate::logic::Player;
use crate::piece::{Piece, PieceTrait};

verus! {

/// The number of actions of the pieces at the listed cells.
pub open spec fn count_list(v: Seq<u64>, player: Player, cells: Seq<int>) -> nat
    decreases cells.len(),
{
    if cells.len() == 0 {
        0
    } else {
        count_list(v, player, cells.drop_last()) + piece_actions(v, cells.last(), player).len()
    }
}

/// The number of actions of `player`, counted piece by piece over its bitboard.
pub open spec fn count_actions_spec(v: Seq<u64>, player: Player) -> nat {
    count_list(v, player, bit_list(same_colour_bits(v, player)))
}

/// The actions that perft enumerates for the piece at `s`: the same actions as
/// the move generator, in another order.
pub open spec fn perft_piece_seq(v: Seq<u64>, s: int, player: Player) -> Seq<Action> {
    let p = piece_at(v, s);
    if p >= 16 {
        kind_actions(v, s, p, player, 12, moves2_bits(v, s, p)) + kind_actions(
            v,
            s,
            p,
            player,
            13,
            moves1_bits(v, s, p),
        ) + kind_actions(v, s, p, player, 2, stacks_bits(v, s, p)) + kind_actions(
            v,
            s,
            p,
            player,
            14,
            moves1_bits(v, s, p),
        )
    } else {
        kind_actions(v, s, p, player, 3, stacks_bits(v, s, p)) + kind_actions(
            v,
            s,
            p,
            player,
            4,
            moves1_bits(v, s, p),
        )
    }
}

/// The actions that perft enumerates for the pieces at the listed cells.
pub open spec fn perft_list_seq(v: Seq<u64>, player: Player, cells: Seq<int>) -> Seq<Action>
    decreases cells.len(),
{
    if cells.len() == 0 {
        seq![]
    } else {
        perft_list_seq(v, player, cells.drop_last()) + perft_piece_seq(v, cells.last(), player)
    }
}

/// The actions that perft enumerates for `player`.
pub open spec fn perft_player_seq(v: Seq<u64>, player: Player) -> Seq<Action> {
    perft_list_seq(v, player, bit_list(same_colour_bits(v, player)))
}

/// The number of leaf nodes `depth` plies below the position, counted as
/// `perft_player_actions` does: at depth 1 the number of actions, deeper the sum
/// over the actions that do not win of the count after them.
pub open spec fn perft_player_spec(v: Seq<u64>, player: Player, depth: nat) -> nat
    decreases depth, 1nat, 0nat,
{
    if depth == 0 {
        1
    } else if depth == 1 {
        count_actions_spec(v, player)
    } else {
        sum_children(v, player, depth, perft_player_seq(v, player))
    }
}

/// The leaf nodes below the listed actions: none after a winning action,
/// otherwise those `depth - 1` plies below the position it leads to.
pub open spec fn sum_children(v: Seq<u64>, player: Player, depth: nat, actions: Seq<Action>) -> nat
    decreases depth, 0nat, actions.len(),
{
    if actions.len() == 0 || depth == 0 {
        0
    } else {
        let a = actions.last();
        sum_children(v, player, depth, actions.drop_last()) + if is_action_win_spec(
            v,
            a,
            owner(piece_at(v, action_start(a))),
        ) {
            0
        } else {
            perft_player_spec(play_bits(v, a), (1 - player) as Player, (depth - 1) as nat)
        }
    }
}

/// The leaf nodes below one action.
pub open spec fn child_count(v: Seq<u64>, player: Player, depth: nat, a: Action) -> nat {
    sum_children(v, player, depth, seq![a])
}

/// The number of leaf nodes at the given depth, as `perft` counts them: at
/// depth 1 or 2 as `perft_player_actions`, deeper over the actions of the move
/// generator.
pub open spec fn perft_spec(v: Seq<u64>, player: Player, depth: nat) -> nat {
    if depth <= 2 {
        perft_player_spec(v, player, depth)
    } else {
        sum_children(v, player, depth, player_actions(v, player))
    }
}

/// The leaf count of a concatenation is the sum of the leaf counts.
pub proof fn lemma_sum_children_concat(
    v: Seq<u64>,
    player: Player,
    depth: nat,
    a: Seq<Action>,
    b: Seq<Action>,
)
    ensures
        sum_children(v, player, depth, a + b) == sum_children(v, player, depth, a) + sum_children(
            v,
            player,
            depth,
            b,
        ),
    decreases b.len(),
{
    if b.len() > 0 {
        lemma_sum_children_concat(v, player, depth, a, b.drop_last());
        assert((a + b).drop_last() =~= a + b.drop_last());
    } else {
        assert(a + b =~= a);
    }
}

/// The leaf count of a list with one more action.
pub proof fn lemma_sum_children_push(
    v: Seq<u64>,
    player: Player,
    depth: nat,
    a: Seq<Action>,
    x: Action,
)
    ensures
        sum_children(v, player, depth, a.push(x)) == sum_children(v, player, depth, a)
            + child_count(v, player, depth, x),
{
    assert(a.push(x).drop_last() =~= a);
    assert(a.push(x).last() == x);
    lemma_child_count(v, player, depth, x);
}

/// The leaf nodes below one action: none for a winning action, otherwise those
/// `depth - 1` plies below the position it leads to.
pub proof fn lemma_child_count(v: Seq<u64>, player: Player, depth: nat, a: Action)
    ensures
        child_count(v, player, depth, a) == if depth == 0 || is_action_win_spec(
            v,
            a,
            owner(piece_at(v, action_start(a))),
        ) {
            0
        } else {
            perft_player_spec(play_bits(v, a), (1 - player) as Player, (depth - 1) as nat)
        },
{
    let s = seq![a];
    assert(s.drop_last() =~= Seq::<Action>::empty());
    assert(s.last() == a);
    assert(sum_children(v, player, depth, Seq::<Action>::empty()) == 0);
}

/// The actions of one kind over a concatenation of first steps.
pub proof fn lemma_mids_actions_concat(
    v: Seq<u64>,
    s: int,
    p: u8,
    player: Player,
    kind: int,
    a: Seq<int>,
    b: Seq<int>,
)
    ensures
        mids_actions(v, s, p, player, kind, a + b) == mids_actions(v, s, p, player, kind, a)
            + mids_actions(v, s, p, player, kind, b),
    decreases b.len(),
{
    if b.len() > 0 {
        lemma_mids_actions_concat(v, s, p, player, kind, a, b.drop_last());
        assert((a + b).drop_last() =~= a + b.drop_last());
        assert((a + b).last() == b.last());
    } else {
        assert(a + b =~= a);
    }
}

/// The actions of one kind for a single first step.
pub proof fn lemma_mids_actions_single(v: Seq<u64>, s: int, p: u8, player: Player, kind: int, m: int)
    ensures
        mids_actions(v, s, p, player, kind, seq![m]) == mid_actions(v, s, p, player, kind, m),
{
    let l = seq![m];
    assert(l.drop_last() =~= Seq::<int>::empty());
    assert(l.last() == m);
    assert(mids_actions(v, s, p, player, kind, Seq::<int>::empty()) == Seq::<Action>::empty());
    assert(Seq::<Action>::empty() + mid_actions(v, s, p, player, kind, m) =~= mid_actions(
        v,
        s,
        p,
        player,
        kind,
        m,
    ));
}

/// The number of actions of each kind for one first step.
pub proof fn lemma_mid_actions_len(v: Seq<u64>, s: int, p: u8, player: Player, kind: int, m: int)
    requires
        0 <= kind < 4,
    ensures
        mid_actions(v, s, p, player, kind, m).len() == popcount(
            kind_ends_spec(v, s, p, player, kind, m),
        ) + kind_extras(s, m, kind).len(),
{
    lemma_bit_list(kind_ends_spec(v, s, p, player, kind, m));
}

/// Sums the leaf counts after the actions that end on each cell of `ends`, from `s` through `m`.
fn perft_ends(
    board: &Board,
    s: CellIndex,
    m: CellIndex,
    ends: u64,
    player: Player,
    depth: u64,
) -> (r: u64)
    requires
        s < 64,
        m < 64 || m == 255,
        player <= 1,
        depth >= 1,
        sum_children(board@, player, depth as nat, end_actions(s as int, m as int, ends))
            <= u64::MAX,
    ensures
        r == sum_children(board@, player, depth as nat, end_actions(s as int, m as int, ends)),
    decreases depth, 2nat,
{
    let ghost v = board@;
    let ghost d = depth as nat;
    let ghost total = end_actions(s as int, m as int, ends);
    let half_action: Action = Action::from_indices_half(s, m);
    let mut rest = ends;
    let mut count: u64 = 0;
    let ghost mut done: Seq<int> = seq![];
    proof {
        lemma_bit_list_range(ends);
    }
    while rest != 0
        invariant
            s < 64,
            m < 64 || m == 255,
            player <= 1,
            depth >= 1,
            v == board@,
            d == depth as nat,
            half_action == action_of(s as int, m as int, 0),
            done + bit_list(rest) == bit_list(ends),
            total == end_actions(s as int, m as int, ends),
            total == done.map_values(|e: int| action_of(s as int, m as int, e))
                + bit_list(rest).map_values(|e: int| action_of(s as int, m as int, e)),
            count == sum_children(
                v,
                player,
                d,
                done.map_values(|e: int| action_of(s as int, m as int, e)),
            ),
            sum_children(v, player, d, total) <= u64::MAX,
        decreases rest,
    {
        let ghost before = rest;
        let e = pop_lowest(&mut rest);
        let action = half_action.add_last_index(e);
        let ghost f = |e: int| action_of(s as int, m as int, e);
        proof {
            lemma_action_indices(s as int, m as int, e as int);
            let d2 = done.push(e as int);
            assert(d2 + bit_list(rest) =~= done + bit_list(before));
            assert(d2.map_values(f) =~= done.map_values(f).push(action));
            assert(bit_list(before).map_values(f) =~= seq![action] + bit_list(rest).map_values(f));
            assert(total =~= d2.map_values(f) + bit_list(rest).map_values(f));
            lemma_sum_children_push(v, player, d, done.map_values(f), action);
            lemma_sum_children_concat(v, player, d, d2.map_values(f), bit_list(rest).map_values(f));
        }
        let c = perft_count_after_action(board, action, player, depth);
        count = count + c;
        proof {
            done = done.push(e as int);
        }
    }
    proof {
        assert(done =~= bit_list(ends));
        assert(bit_list(rest).map_values(|e: int| action_of(s as int, m as int, e)) =~= seq![]);
        assert(total =~= done.map_values(|e: int| action_of(s as int, m as int, e)));
    }
    count
}

/// Sums the leaf counts after the actions of one kind that follow a first step to `m`.
fn perft_mid(
    board: &Board,
    s: CellIndex,
    p: Piece,
    player: Player,
    kind: u8,
    m: CellIndex,
    depth: u64,
) -> (r: u64)
    requires
        s < 64,
        m < 64,
        player <= 1,
        depth >= 1,
        kind == 2 || kind == 3 || kind == 4 || kind == 12 || kind == 13 || kind == 14,
        sum_children(
            board@,
            player,
            depth as nat,
            mid_actions(board@, s as int, p, player, kind as int, m as int),
        ) <= u64::MAX,
    ensures
        r == sum_children(
            board@,
            player,
            depth as nat,
            mid_actions(board@, s as int, p, player, kind as int, m as int),
        ),
    decreases depth, 3nat,
{
    let ghost v = board@;
    let ghost d = depth as nat;
    let ghost total = mid_actions(v, s as int, p, player, kind as int, m as int);
    proof {
        lemma_action_indices(s as int, 255, m as int);
        lemma_action_indices(s as int, m as int, s as int);
        lemma_action_indices(s as int, s as int, m as int);
    }
    if kind == 4 || kind == 14 {
        let action = if kind == 4 {
            Action::from_indices(s, INDEX_NULL, m)
        } else {
            Action::from_indices(s, s, m)
        };
        assert(total =~= seq![action]);
        return perft_count_after_action(board, action, player, depth);
    }
    let ends = board.kind_ends(s, p, player, kind, m);
    let ghost ea = end_actions(s as int, m as int, ends);
    if kind == 12 {
        let first = Action::from_indices(s, INDEX_NULL, m);
        proof {
            assert(total =~= seq![first] + ea);
            lemma_sum_children_concat(v, player, d, seq![first], ea);
        }
        let c1 = perft_count_after_action(board, first, player, depth);
        let c2 = perft_ends(board, s, m, ends, player, depth);
        return c1 + c2;
    }
    let ghost extras = kind_extras(s as int, m as int, kind as int);
    proof {
        assert(total =~= ea + extras);
        lemma_sum_children_concat(v, player, d, ea, extras);
    }
    let mut count = perft_ends(board, s, m, ends, player, depth);
    if kind == 13 {
        let a1 = Action::from_indices(s, m, s);
        let a2 = Action::from_indices(s, INDEX_NULL, m);
        proof {
            assert(extras =~= seq![a1].push(a2));
            lemma_sum_children_push(v, player, d, seq![a1], a2);
        }
        count = count + perft_count_after_action(board, a1, player, depth);
        count = count + perft_count_after_action(board, a2, player, depth);
    } else if kind == 2 {
        let a1 = Action::from_indices(s, s, m);
        assert(extras =~= seq![a1]);
        count = count + perft_count_after_action(board, a1, player, depth);
    } else {
        let a1 = Action::from_indices(s, m, s);
        let a2 = Action::from_indices(s, s, m);
        proof {
            assert(extras =~= seq![a1].push(a2));
            lemma_sum_children_push(v, player, d, seq![a1], a2);
        }
        count = count + perft_count_after_action(board, a1, player, depth);
        count = count + perft_count_after_action(board, a2, player, depth);
    }
    count
}

/// Sums the leaf counts after the actions of one kind for each cell of the bitboard `mids`.
fn perft_kind(
    board: &Board,
    s: CellIndex,
    p: Piece,
    player: Player,
    kind: u8,
    mids: u64,
    depth: u64,
) -> (r: u64)
    requires
        s < 64,
        player <= 1,
        depth >= 1,
        kind == 2 || kind == 3 || kind == 4 || kind == 12 || kind == 13 || kind == 14,
        sum_children(
            board@,
            player,
            depth as nat,
            kind_actions(board@, s as int, p, player, kind as int, mids),
        ) <= u64::MAX,
    ensures
        r == sum_children(
            board@,
            player,
            depth as nat,
            kind_actions(board@, s as int, p, player, kind as int, mids),
        ),
    decreases depth, 4nat,
{
    let ghost v = board@;
    let ghost d = depth as nat;
    let ghost k = kind as int;
    let ghost total = kind_actions(v, s as int, p, player, k, mids);
    let mut rest = mids;
    let mut count: u64 = 0;
    let ghost mut done: Seq<int> = seq![];
    while rest != 0
        invariant
            s < 64,
            player <= 1,
            depth >= 1,
            v == board@,
            d == depth as nat,
            k == kind as int,
            kind == 2 || kind == 3 || kind == 4 || kind == 12 || kind == 13 || kind == 14,
            done + bit_list(rest) == bit_list(mids),
            total == mids_actions(v, s as int, p, player, k, done) + mids_actions(
                v,
                s as int,
                p,
                player,
                k,
                bit_list(rest),
            ),
            count == sum_children(v, player, d, mids_actions(v, s as int, p, player, k, done)),
            sum_children(v, player, d, total) <= u64::MAX,
        decreases rest,
    {
        let ghost before = rest;
        let m = pop_lowest(&mut rest);
        proof {
            let d2 = done.push(m as int);
            assert(d2 + bit_list(rest) =~= done + bit_list(before));
            assert(d2.drop_last() =~= done);
            let cur = mid_actions(v, s as int, p, player, k, m as int);
            assert(mids_actions(v, s as int, p, player, k, d2) == mids_actions(
                v,
                s as int,
                p,
                player,
                k,
                done,
            ) + cur);
            assert(bit_list(before) =~= seq![m as int] + bit_list(rest));
            lemma_mids_actions_concat(v, s as int, p, player, k, seq![m as int], bit_list(rest));
            lemma_mids_actions_single(v, s as int, p, player, k, m as int);
            lemma_sum_children_concat(
                v,
                player,
                d,
                mids_actions(v, s as int, p, player, k, done),
                cur,
            );
            assert(total =~= mids_actions(v, s as int, p, player, k, d2) + mids_actions(
                v,
                s as int,
                p,
                player,
                k,
                bit_list(rest),
            ));
            lemma_sum_children_concat(
                v,
                player,
                d,
                mids_actions(v, s as int, p, player, k, d2),
                mids_actions(v, s as int, p, player, k, bit_list(rest)),
            );
        }
        let c = perft_mid(board, s, p, player, kind, m, depth);
        count = count + c;
        proof {
            done = done.push(m as int);
        }
    }
    proof {
        assert(done =~= bit_list(mids));
    }
    count
}

/// Returns the number of leaf nodes (possible actions) for a player at a given depth and position after an action.
#[inline]
fn perft_count_after_action(board: &Board, action: Action, player: Player, depth: u64) -> (r: u64)
    requires
        player <= 1,
        depth >= 1,
        action_start(action) < 64,
        action_end(action) < 64,
        action_mid(action) < 64 || action_mid(action) == 255,
        child_count(board@, player, depth as nat, action) <= u64::MAX,
    ensures
        r == child_count(board@, player, depth as nat, action),
    decreases depth, 0nat,
{
    proof {
        lemma_child_count(board@, player, depth as nat, action);
    }
    if is_action_win(board, action) {
        0
    } else {
        let mut new_board = *board;
        new_board.play_action(action);
        perft_player_actions(&new_board, 1 - player, depth - 1)
    }
}

/// Part of the perft debug function to measure the number of leaf nodes (possible actions) at a given depth. Is called by perft.
///
/// Recursively counts the number of leaf nodes at the chosen depth.
///
/// At depth 0, returns 1.
#[inline(always)]
pub fn perft_player_actions(board: &Board, current_player: Player, depth: u64) -> (r: u64)
    requires
        depth >= 2 ==> current_player <= 1,
        perft_player_spec(board@, current_player, depth as nat) <= u64::MAX,
    ensures
        r == perft_player_spec(board@, current_player, depth as nat),
    decreases depth, 6nat,
{
    if depth == 0 {
        1
    } else if depth == 1 {
        board.count_player_actions(current_player)
    } else {
        let ghost v = board@;
        let ghost d = depth as nat;
        let colour = board.same_colour(current_player).0;
        let ghost total = perft_player_seq(v, current_player);
        let mut rest = colour;
        let mut count: u64 = 0;
        let ghost mut done: Seq<int> = seq![];
        while rest != 0
            invariant
                current_player <= 1,
                depth >= 2,
                v == board@,
                d == depth as nat,
                colour == same_colour_bits(v, current_player),
                done + bit_list(rest) == bit_list(colour),
                total == perft_list_seq(v, current_player, done) + perft_list_seq(
                    v,
                    current_player,
                    bit_list(rest),
                ),
                count == sum_children(v, current_player, d, perft_list_seq(v, current_player, done)),
                sum_children(v, current_player, d, total) <= u64::MAX,
            decreases rest,
        {
            let ghost before = rest;
            let index = pop_lowest(&mut rest);
            proof {
                let d2 = done.push(index as int);
                assert(d2 + bit_list(rest) =~= done + bit_list(before));
                assert(d2.drop_last() =~= done);
                lemma_list_seq_concat(v, current_player, seq![index as int], bit_list(rest));
                assert(bit_list(before) =~= seq![index as int] + bit_list(rest));
                let cur = perft_piece_seq(v, index as int, current_player);
                lemma_list_seq_single(v, current_player, index as int);
                lemma_sum_children_concat(
                    v,
                    current_player,
                    d,
                    perft_list_seq(v, current_player, done),
                    cur,
                );
                assert(total =~= perft_list_seq(v, current_player, d2) + perft_list_seq(
                    v,
                    current_player,
                    bit_list(rest),
                ));
                lemma_sum_children_concat(
                    v,
                    current_player,
                    d,
                    perft_list_seq(v, current_player, d2),
                    perft_list_seq(v, current_player, bit_list(rest)),
                );
            }
            let c = perft_piece_actions(board, index, current_player, depth);
            count = count + c;
            proof {
                done = done.push(index as int);
            }
        }
        proof {
            assert(done =~= bit_list(colour));
        }
        count
    }
}

/// The perft actions of a single cell.
pub proof fn lemma_list_seq_single(v: Seq<u64>, player: Player, i: int)
    ensures
        perft_list_seq(v, player, seq![i]) == perft_piece_seq(v, i, player),
{
    let l = seq![i];
    assert(l.drop_last() =~= Seq::<int>::empty());
    assert(l.last() == i);
    assert(perft_list_seq(v, player, Seq::<int>::empty()) == Seq::<Action>::empty());
    assert(Seq::<Action>::empty() + perft_piece_seq(v, i, player) =~= perft_piece_seq(v, i, player));
}

/// The perft actions of a concatenation of cells.
pub proof fn lemma_list_seq_concat(v: Seq<u64>, player: Player, a: Seq<int>, b: Seq<int>)
    ensures
        perft_list_seq(v, player, a + b) == perft_list_seq(v, player, a) + perft_list_seq(
            v,
            player,
            b,
        ),
    decreases b.len(),
{
    if b.len() > 0 {
        lemma_list_seq_concat(v, player, a, b.drop_last());
        assert((a + b).drop_last() =~= a + b.drop_last());
        assert((a + b).last() == b.last());
    } else {
        assert(a + b =~= a);
    }
}

/// Returns the number of leaf nodes (possible actions) for a player at a given depth and position.
#[inline]
fn perft_piece_actions(
    board: &Board,
    index_start: CellIndex,
    current_player: Player,
    depth: u64,
) -> (r: u64)
    requires
        index_start < 64,
        current_player <= 1,
        depth >= 1,
        sum_children(
            board@,
            current_player,
            depth as nat,
            perft_piece_seq(board@, index_start as int, current_player),
        ) <= u64::MAX,
    ensures
        r == sum_children(
            board@,
            current_player,
            depth as nat,
            perft_piece_seq(board@, index_start as int, current_player),
        ),
    decreases depth, 5nat,
{
    let ghost v = board@;
    let ghost d = depth as nat;
    let pl = current_player;
    let s = index_start;
    let piece_start = board.get_piece(index_start);
    let p = piece_start;
    if piece_start.is_stack() {
        let m2 = board.available_moves2(s, p).0;
        let m1 = board.available_moves1(s, p).0;
        let st = board.available_stacks(s, p).0;
        let ghost a = kind_actions(v, s as int, p, pl, 12, m2);
        let ghost b = kind_actions(v, s as int, p, pl, 13, m1);
        let ghost c = kind_actions(v, s as int, p, pl, 2, st);
        let ghost e = kind_actions(v, s as int, p, pl, 14, m1);
        proof {
            lemma_sum_children_concat(v, pl, d, a + b + c, e);
            lemma_sum_children_concat(v, pl, d, a + b, c);
            lemma_sum_children_concat(v, pl, d, a, b);
        }
        // 2-range first action, then 1-range first action, then stack, then unstack
        let c1 = perft_kind(board, s, p, pl, 12, m2, depth);
        let c2 = perft_kind(board, s, p, pl, 13, m1, depth);
        let c3 = perft_kind(board, s, p, pl, 2, st, depth);
        let c4 = perft_kind(board, s, p, pl, 14, board.available_unstacks(s, p).0, depth);
        c1 + c2 + c3 + c4
    } else {
        let st = board.available_stacks(s, p).0;
        let m1 = board.available_moves1(s, p).0;
        let ghost a = kind_actions(v, s as int, p, pl, 3, st);
        let ghost b = kind_actions(v, s as int, p, pl, 4, m1);
        proof {
            lemma_sum_children_concat(v, pl, d, a, b);
        }
        let c1 = perft_kind(board, s, p, pl, 3, st, depth);
        let c2 = perft_kind(board, s, p, pl, 4, m1, depth);
        c1 + c2
    }
}

/// Each first step of a single piece's move gives one action.
pub proof fn lemma_kind4_len(v: Seq<u64>, s: int, p: u8, player: Player, mids: Seq<int>)
    ensures
        mids_actions(v, s, p, player, 4, mids).len() == mids.len(),
    decreases mids.len(),
{
    if mids.len() > 0 {
        lemma_kind4_len(v, s, p, player, mids.drop_last());
    }
}

impl Board {
    /// Counts the actions of one kind for each cell of `mids`, each first step
    /// counting its second steps and one action less than its kind has for kind 1.
    fn count_kind(&self, s: CellIndex, p: Piece, player: Player, kind: u8, mids: u64) -> (r: u64)
        requires
            s < 64,
            kind < 4,
        ensures
            r + (if kind == 1 {
                popcount(mids)
            } else {
                0
            }) == kind_actions(self@, s as int, p, player, kind as int, mids).len(),
            r <= 67 * popcount(mids),
    {
        let ghost v = self@;
        let ghost k = kind as int;
        let per_mid: u64 = if kind == 0 || kind == 2 {
            1
        } else {
            2
        };
        let mut rest = mids;
        let mut count: u64 = 0;
        let ghost mut done: Seq<int> = seq![];
        proof {
            lemma_bit_list(mids);
            lemma_bit_list_bound(mids);
        }
        while rest != 0
            invariant
                s < 64,
                kind < 4,
                v == self@,
                k == kind as int,
                per_mid == (if kind == 0 || kind == 2 {
                    1u64
                } else {
                    2u64
                }),
                done + bit_list(rest) == bit_list(mids),
                bit_list(mids).len() == popcount(mids),
                popcount(mids) <= 64,
                count + (if kind == 1 {
                    done.len()
                } else {
                    0
                }) == mids_actions(v, s as int, p, player, k, done).len(),
                count <= 67 * done.len(),
            decreases rest,
        {
            let ghost before = rest;
            let m = pop_lowest(&mut rest);
            let ends = self.kind_ends(s, p, player, kind, m);
            let n = count_ones(ends) as u64;
            proof {
                lemma_bit_list_bound(ends);
                lemma_mid_actions_len(v, s as int, p, player, k, m as int);
                let d2 = done.push(m as int);
                assert(d2 + bit_list(rest) =~= done + bit_list(before));
                assert(d2.drop_last() =~= done);
                assert(d2.len() <= bit_list(mids).len());
            }
            count = count + n + per_mid;
            proof {
                done = done.push(m as int);
            }
        }
        proof {
            assert(done =~= bit_list(mids));
        }
        count
    }

    /// Returns the number of possible actions for a specific piece at a given position.
    ///
    /// Is used to speed up perft at depth=1 since it only needs the number of leaf nodes, not the actions.
    #[inline]
    fn count_piece_actions(&self, index_start: CellIndex, current_player: Player) -> (r: u64)
        requires
            index_start < 64,
        ensures
            r == piece_actions(self@, index_start as int, current_player).len(),
            r <= 13000,
    {
        let ghost v = self@;
        let s = index_start;
        let pl = current_player;
        let p = self.get_player_piece(index_start, current_player);
        if p.is_stack() {
            let m2 = self.available_moves2(s, p).0;
            let m1 = self.available_moves1(s, p).0;
            let st = self.available_stacks(s, p).0;
            proof {
                lemma_bit_list_bound(m2);
                lemma_bit_list_bound(m1);
                lemma_bit_list_bound(st);
            }
            // 2-range first action, 1-range first action and stack
            let c1 = self.count_kind(s, p, pl, 0, m2);
            let c2 = self.count_kind(s, p, pl, 1, m1);
            let c3 = self.count_kind(s, p, pl, 2, st);
            // unstack
            let c4 = count_ones(self.available_unstacks(s, p).0) as u64;
            c1 + c2 + c3 + c4
        } else {
            let st = self.available_stacks(s, p).0;
            let m1 = self.available_moves1(s, p).0;
            proof {
                lemma_bit_list_bound(st);
                lemma_bit_list_bound(m1);
                lemma_bit_list(m1);
                lemma_kind4_len(v, s as int, p, pl, bit_list(m1));
            }
            // stack first
            let c1 = self.count_kind(s, p, pl, 3, st);
            // 1-range move
            let c2 = count_ones(m1) as u64;
            c1 + c2
        }
    }

    /// Returns the number of possible actions for a player at a given position.
    ///
    /// Is used to speed up perft at depth=1 since it only needs the number of leaf nodes, not the actions.
    #[inline]
    pub fn count_player_actions(&self, current_player: Player) -> (r: u64)
        ensures
            r == count_actions_spec(self@, current_player),
    {
        let ghost v = self@;
        let colour = self.same_colour(current_player).0;
        let mut rest = colour;
        let mut count: u64 = 0;
        let ghost mut done: Seq<int> = seq![];
        proof {
            lemma_bit_list(colour);
            lemma_bit_list_bound(colour);
        }
        while rest != 0
            invariant
                v == self@,
                colour == same_colour_bits(v, current_player),
                done + bit_list(rest) == bit_list(colour),
                bit_list(colour).len() <= 64,
                count == count_list(v, current_player, done),
                count <= 13000 * done.len(),
            decreases rest,
        {
            let ghost before = rest;
            let index = pop_lowest(&mut rest);
            proof {
                let d2 = done.push(index as int);
                assert(d2 + bit_list(rest) =~= done + bit_list(before));
                assert(d2.drop_last() =~= done);
                assert(d2.len() <= bit_list(colour).len());
            }
            let c = self.count_piece_actions(index, current_player);
            count = count + c;
            proof {
                done = done.push(index as int);
            }
        }
        proof {
            assert(done =~= bit_list(colour));
        }
        count
    }
}

/// The indices of an action are those of a real action: start and end on
/// cells of the board, the middle on a cell or null, and each step goes to
/// another cell.
pub open spec fn action_ok(a: Action) -> bool {
    let s = action_start(a);
    let m = action_mid(a);
    let e = action_end(a);
    s < 45 && e < 45 && (m < 45 || m == 255) && if m == 255 {
        s != e
    } else {
        m != e
    }
}

/// Every listed action is a real action.
pub open spec fn all_ok(s: Seq<Action>) -> bool {
    forall|k: int| 0 <= k < s.len() ==> action_ok(#[trigger] s[k])
}

proof fn lemma_all_ok_concat(a: Seq<Action>, b: Seq<Action>)
    requires
        all_ok(a),
        all_ok(b),
    ensures
        all_ok(a + b),
{
    assert forall|k: int| 0 <= k < (a + b).len() implies action_ok(#[trigger] (a + b)[k]) by {
        if k < a.len() {
            assert((a + b)[k] == a[k]);
        } else {
            assert((a + b)[k] == b[k - a.len()]);
        }
    }
}

proof fn lemma_mid_ok(v: Seq<u64>, s: int, p: u8, player: Player, kind: int, m: int)
    requires
        0 <= s < 45,
        0 <= m < 45,
        s != m,
    ensures
        all_ok(mid_actions(v, s, p, player, kind, m)),
{
    lemma_action_indices(s, 255, m);
    lemma_action_indices(s, m, s);
    lemma_action_indices(s, s, m);
    let ends = kind_ends_spec(v, s, p, player, kind, m);
    lemma_bit_list(ends);
    let ea = end_actions(s, m, ends);
    assert forall|k: int| 0 <= k < ea.len() implies action_ok(#[trigger] ea[k]) by {
        let e = bit_list(ends)[k];
        assert(bit_list(ends).contains(e));
        lemma_kind_ends_near(v, s, p, player, kind, m, e);
        lemma_neighbour_bits(m, e);
        lemma_action_indices(s, m, e);
    }
    let ex = kind_extras(s, m, kind);
    assert(all_ok(ex));
    lemma_all_ok_concat(ea, ex);
    lemma_all_ok_concat(seq![action_of(s, 255, m)], ea);
}

proof fn lemma_mids_ok(v: Seq<u64>, s: int, p: u8, player: Player, kind: int, mids: Seq<int>)
    requires
        0 <= s < 45,
        forall|k: int| 0 <= k < mids.len() ==> 0 <= #[trigger] mids[k] < 45 && mids[k] != s,
    ensures
        all_ok(mids_actions(v, s, p, player, kind, mids)),
    decreases mids.len(),
{
    if mids.len() > 0 {
        let rest = mids.drop_last();
        assert forall|k: int| 0 <= k < rest.len() implies 0 <= #[trigger] rest[k] < 45 && rest[k]
            != s by {
            assert(rest[k] == mids[k]);
        }
        lemma_mids_ok(v, s, p, player, kind, rest);
        lemma_mid_ok(v, s, p, player, kind, mids.last());
        lemma_all_ok_concat(
            mids_actions(v, s, p, player, kind, rest),
            mid_actions(v, s, p, player, kind, mids.last()),
        );
    }
}

proof fn lemma_kind_ok(v: Seq<u64>, s: int, p: u8, player: Player, kind: int, mids: u64)
    requires
        0 <= s < 45,
        forall|j: int| bit(mids, j) ==> #[trigger] near(s, j),
    ensures
        all_ok(kind_actions(v, s, p, player, kind, mids)),
{
    lemma_bit_list(mids);
    let l = bit_list(mids);
    assert forall|k: int| 0 <= k < l.len() implies 0 <= #[trigger] l[k] < 45 && l[k] != s by {
        assert(l.contains(l[k]));
        assert(near(s, l[k]));
        lemma_neighbour_bits(s, l[k]);
    }
    lemma_mids_ok(v, s, p, player, kind, l);
}

/// Every action of the move generator is a real action.
pub proof fn lemma_player_actions_ok(v: Seq<u64>, player: Player, n: int)
    requires
        n <= 45,
    ensures
        all_ok(player_actions_upto(v, player, n)),
    decreases n,
{
    if n > 0 {
        lemma_player_actions_ok(v, player, n - 1);
        let s = n - 1;
        let p = crate::bitboard::player_piece_at(v, s, player);
        assert forall|j: int|
            bit(moves2_bits(v, s, p), j) || bit(moves1_bits(v, s, p), j) || bit(
                stacks_bits(v, s, p),
                j,
            ) implies #[trigger] near(s, j) by {
            lemma_masks_near(v, s, p, player, j);
        }
        lemma_kind_ok(v, s, p, player, 0, moves2_bits(v, s, p));
        lemma_kind_ok(v, s, p, player, 1, moves1_bits(v, s, p));
        lemma_kind_ok(v, s, p, player, 2, stacks_bits(v, s, p));
        lemma_kind_ok(v, s, p, player, 3, stacks_bits(v, s, p));
        lemma_kind_ok(v, s, p, player, 4, moves1_bits(v, s, p));
        let k0 = kind_actions(v, s, p, player, 0, moves2_bits(v, s, p));
        let k1 = kind_actions(v, s, p, player, 1, moves1_bits(v, s, p));
        let k2 = kind_actions(v, s, p, player, 2, stacks_bits(v, s, p));
        let k3 = kind_actions(v, s, p, player, 3, stacks_bits(v, s, p));
        let k4 = kind_actions(v, s, p, player, 4, moves1_bits(v, s, p));
        lemma_all_ok_concat(k0, k1);
        lemma_all_ok_concat(k0 + k1, k2);
        lemma_all_ok_concat(k3, k4);
        let cur = if bit(same_colour_bits(v, player), s) {
            piece_actions(v, s, player)
        } else {
            seq![]
        };
        assert(all_ok(cur));
        lemma_all_ok_concat(player_actions_upto(v, player, n - 1), cur);
    }
}

/// Every capture of the move generator is a real action.
pub proof fn lemma_player_captures_ok(v: Seq<u64>, player: Player, n: int, wins: bool)
    requires
        n <= 45,
    ensures
        all_ok(player_captures_upto(v, player, n, wins)),
    decreases n,
{
    if n > 0 {
        lemma_player_captures_ok(v, player, n - 1, wins);
        let s = n - 1;
        let p = crate::bitboard::player_piece_at(v, s, player);
        let c: int = if wins { 0 } else { 10 };
        let m5 = non_captures2_bits(v, s);
        let m6 = capture_targets2(v, s, p, player, wins);
        let m7 = non_captures1_bits(v, s);
        let m8 = capture_targets1(v, s, p, player, wins);
        let m9 = stacks_bits(v, s, p);
        assert forall|j: int|
            bit(m5, j) || bit(m6, j) || bit(m7, j) || bit(m8, j) || bit(m9, j) implies #[trigger] near(
            s,
            j,
        ) by {
            lemma_masks_near(v, s, p, player, j);
        }
        lemma_kind_ok(v, s, p, player, 5 + c, m5);
        lemma_kind_ok(v, s, p, player, 6 + c, m6);
        lemma_kind_ok(v, s, p, player, 7 + c, m7);
        lemma_kind_ok(v, s, p, player, 8 + c, m8);
        lemma_kind_ok(v, s, p, player, 9 + c, m9);
        lemma_kind_ok(v, s, p, player, 10 + c, m9);
        lemma_kind_ok(v, s, p, player, 11 + c, m8);
        let k5 = kind_actions(v, s, p, player, 5 + c, m5);
        let k6 = kind_actions(v, s, p, player, 6 + c, m6);
        let k7 = kind_actions(v, s, p, player, 7 + c, m7);
        let k8 = kind_actions(v, s, p, player, 8 + c, m8);
        let k9 = kind_actions(v, s, p, player, 9 + c, m9);
        let k10 = kind_actions(v, s, p, player, 10 + c, m9);
        let k11 = kind_actions(v, s, p, player, 11 + c, m8);
        lemma_all_ok_concat(k5, k6);
        lemma_all_ok_concat(k5 + k6, k7);
        lemma_all_ok_concat(k5 + k6 + k7, k8);
        lemma_all_ok_concat(k5 + k6 + k7 + k8, k9);
        lemma_all_ok_concat(k10, k11);
        let cur = if bit(same_colour_not_wise_bits(v, player), s) {
            piece_captures_of(v, s, p, player, wins)
        } else {
            seq![]
        };
        assert(all_ok(cur));
        lemma_all_ok_concat(player_captures_upto(v, player, n - 1, wins), cur);
    }
}

/// Debug function to measure the number of leaf nodes (possible actions) at a given depth.
///
/// Recursively counts the number of leaf nodes at the chosen depth.
///
/// At depth 0, returns 1.
pub fn perft(board: &Board, current_player: Player, depth: u64) -> (r: u64)
    requires
        depth >= 2 ==> current_player <= 1,
        perft_spec(board@, current_player, depth as nat) <= u64::MAX,
    ensures
        r == perft_spec(board@, current_player, depth as nat),
{
    if depth <= 2 {
        perft_player_actions(board, current_player, depth)
    } else {
        let ghost v = board@;
        let ghost d = depth as nat;
        let available_actions = board.available_player_actions(current_player);
        let ghost all = player_actions(v, current_player);
        proof {
            lemma_player_actions_ok(v, current_player, 45);
        }
        let n = available_actions.len();
        let mut count: u64 = 0;
        let mut i: usize = 0;
        while i < n
            invariant
                current_player <= 1,
                depth >= 3,
                v == board@,
                d == depth as nat,
                available_actions@ == all,
                all == player_actions(v, current_player),
                all_ok(all),
                n == all.len(),
                i <= n,
                count == sum_children(v, current_player, d, all.take(i as int)),
                sum_children(v, current_player, d, all) <= u64::MAX,
            decreases n - i,
        {
            let action = available_actions.get(i);
            proof {
                assert(action_ok(all[i as int]));
                assert(all.take(i + 1) =~= all.take(i as int).push(action));
                lemma_sum_children_push(v, current_player, d, all.take(i as int), action);
                assert(all =~= all.take(i + 1) + all.skip(i + 1));
                lemma_sum_children_concat(v, current_player, d, all.take(i + 1), all.skip(i + 1));
            }
            let c = perft_count_after_action(board, action, current_player, depth);
            count = count + c;
            i += 1;
        }
        proof {
            assert(all.take(n as int) =~= all);
        }
        count
    }
}

/// The indices of an action are those of the action without its extra data.
pub proof fn lemma_masked_indices(a: Action)
    ensures
        action_start((a as int % 16777216) as u32) == action_start(a),
        action_mid((a as int % 16777216) as u32) == action_mid(a),
        action_end((a as int % 16777216) as u32) == action_end(a),
{
    let m = (a as int % 16777216) as u32;
    assert(action_start(m) == action_start(a) && action_mid(m) == action_mid(a) && action_end(m)
        == action_end(a)) by (bit_vector)
        requires
            m == a % 16777216,
    ;
}

/// An action whose indices are those of an action of the move generator can be played.
pub proof fn lemma_legal_fits(v: Seq<u64>, player: Player, a: Action)
    requires
        player_actions(v, player).contains((a as int % 16777216) as u32),
    ensures
        action_fits(v, a),
        action_ok((a as int % 16777216) as u32),
{
    lemma_player_actions_ok(v, player, 45);
    let m = (a as int % 16777216) as u32;
    let all = player_actions(v, player);
    let k = choose|k: int| 0 <= k < all.len() && all[k] == m;
    assert(action_ok(all[k]));
    lemma_masked_indices(a);
}

/// Law: playing an action of the move generator keeps a well-formed board well formed.
pub proof fn lemma_legal_wf(v: Seq<u64>, player: Player, a: Action)
    requires
        board_wf(v),
        player_actions(v, player).contains((a as int % 16777216) as u32),
    ensures
        board_wf(play_bits(v, a)),
{
    lemma_legal_fits(v, player, a);
    lemma_masked_indices(a);
    lemma_play_wf(v, a);
}

/// For each listed action that does not win, the action and the number of leaf
/// nodes `depth - 1` plies below the position it leads to, in order.
pub open spec fn split_counts(v: Seq<u64>, player: Player, depth: nat, actions: Seq<Action>) -> Seq<
    (Action, nat),
>
    decreases actions.len(),
{
    if actions.len() == 0 {
        seq![]
    } else {
        let rest = split_counts(v, player, depth, actions.drop_last());
        let a = actions.last();
        if is_action_win_spec(v, a, owner(piece_at(v, action_start(a)))) {
            rest
        } else {
            rest.push((a, perft_player_spec(play_bits(v, a), (1 - player) as Player, (depth - 1) as nat)))
        }
    }
}

/// The sum of the counts of a split.
pub open spec fn split_total(split: Seq<(Action, nat)>) -> nat
    decreases split.len(),
{
    if split.len() == 0 {
        0
    } else {
        split_total(split.drop_last()) + split.last().1
    }
}

/// Law: the counts of a split add up to the leaf nodes below the listed actions.
pub proof fn lemma_split_total(v: Seq<u64>, player: Player, depth: nat, actions: Seq<Action>)
    requires
        depth >= 1,
    ensures
        split_total(split_counts(v, player, depth, actions)) == sum_children(v, player, depth, actions),
    decreases actions.len(),
{
    if actions.len() > 0 {
        lemma_split_total(v, player, depth, actions.drop_last());
        let rest = split_counts(v, player, depth, actions.drop_last());
        let a = actions.last();
        if !is_action_win_spec(v, a, owner(piece_at(v, action_start(a)))) {
            let e = (a, perft_player_spec(play_bits(v, a), (1 - player) as Player, (depth - 1) as nat));
            assert(rest.push(e).drop_last() =~= rest);
        }
    }
}

/// Debug function that splits the leaf nodes at a given depth by the first
/// action: for each action that does not win, its string representation, the
/// action and the number of leaf nodes below it.
pub fn perft_split(board: &Board, current_player: Player, depth: u64) -> (r: Vec<(String, Action, u64)>)
    requires
        current_player <= 1,
        sum_children(board@, current_player, depth as nat, player_actions(board@, current_player))
            <= u64::MAX,
    ensures
        depth == 0 ==> r@.len() == 0,
        depth > 0 ==> r@.map_values(|e: (String, Action, u64)| (e.1, e.2 as nat)) == split_counts(
            board@,
            current_player,
            depth as nat,
            player_actions(board@, current_player),
        ),
        forall|k: int| 0 <= k < r@.len() ==> #[trigger] r@[k].0@ == action_string(board@, r@[k].1),
{
    let mut result: Vec<(String, Action, u64)> = Vec::new();
    if depth == 0 {
        return result;
    }
    let ghost v = board@;
    let ghost d = depth as nat;
    let available_actions = board.available_player_actions(current_player);
    let ghost all = player_actions(v, current_player);
    proof {
        lemma_player_actions_ok(v, current_player, 45);
    }
    let n = available_actions.len();
    let mut i: usize = 0;
    while i < n
        invariant
            current_player <= 1,
            depth >= 1,
            v == board@,
            d == depth as nat,
            available_actions@ == all,
            all == player_actions(v, current_player),
            all_ok(all),
            n == all.len(),
            i <= n,
            result@.map_values(|e: (String, Action, u64)| (e.1, e.2 as nat)) == split_counts(
                v,
                current_player,
                d,
                all.take(i as int),
            ),
            forall|k: int| 0 <= k < result@.len() ==> #[trigger] result@[k].0@ == action_string(v, result@[k].1),
            sum_children(v, current_player, d, all) <= u64::MAX,
        decreases n - i,
    {
        let action = available_actions.get(i);
        proof {
            assert(action_ok(all[i as int]));
            assert(all.take(i + 1) =~= all.take(i as int).push(action));
            assert(all.take(i + 1).drop_last() =~= all.take(i as int));
            lemma_sum_children_push(v, current_player, d, all.take(i as int), action);
            assert(all =~= all.take(i + 1) + all.skip(i + 1));
            lemma_sum_children_concat(v, current_player, d, all.take(i + 1), all.skip(i + 1));
            lemma_child_count(v, current_player, d, action);
        }
        if !is_action_win(board, action) {
            let mut new_board = *board;
            new_board.play_action(action);
            let count = perft_player_actions(&new_board, 1 - current_player, depth - 1);
            let ghost before = result@;
            result.push((action_to_string(board, action), action, count));
            proof {
                assert(result@.map_values(|e: (String, Action, u64)| (e.1, e.2 as nat)) =~= before.map_values(
                    |e: (String, Action, u64)| (e.1, e.2 as nat),
                ).push((action, count as nat)));
            }
        }
        i += 1;
    }
    proof {
        assert(all.take(n as int) =~= all);
    }
    result
}

/// The number of actions of the pieces of `player` at the cells of `x` below `n`.
pub open spec fn count_below(v: Seq<u64>, player: Player, x: u64, n: int) -> nat
    decreases n,
{
    if n <= 0 {
        0
    } else {
        count_below(v, player, x, n - 1) + if bit(x, n - 1) {
            piece_actions(v, n - 1, player).len()
        } else {
            0
        }
    }
}

proof fn lemma_count_list_concat(v: Seq<u64>, player: Player, a: Seq<int>, b: Seq<int>)
    ensures
        count_list(v, player, a + b) == count_list(v, player, a) + count_list(v, player, b),
    decreases b.len(),
{
    if b.len() > 0 {
        lemma_count_list_concat(v, player, a, b.drop_last());
        assert((a + b).drop_last() =~= a + b.drop_last());
    } else {
        assert(a + b =~= a);
    }
}

proof fn lemma_count_below_clear(v: Seq<u64>, player: Player, x: u64, n: int)
    requires
        x != 0,
        0 <= n <= 64,
    ensures
        count_below(v, player, x, n) == count_below(v, player, clear_lowest(x), n) + if u64_trailing_zeros(
            x,
        ) < n {
            piece_actions(v, u64_trailing_zeros(x) as int, player).len()
        } else {
            0
        },
    decreases n,
{
    lemma_clear_lowest(x);
    if n > 0 {
        lemma_count_below_clear(v, player, x, n - 1);
        assert(bit(clear_lowest(x), n - 1) == (bit(x, n - 1) && n - 1 != u64_trailing_zeros(x)));
    }
}

proof fn lemma_count_list_bits(v: Seq<u64>, player: Player, x: u64)
    ensures
        count_list(v, player, bit_list(x)) == count_below(v, player, x, 64),
    decreases x,
{
    if x == 0 {
        lemma_count_below_zero(v, player, 64);
        assert(bit_list(x) =~= Seq::<int>::empty());
    } else {
        lemma_clear_lowest(x);
        lemma_clear_lowest_decreases(x);
        let t = u64_trailing_zeros(x) as int;
        lemma_count_list_bits(v, player, clear_lowest(x));
        assert(bit_list(x) == seq![t] + bit_list(clear_lowest(x)));
        lemma_count_list_concat(v, player, seq![t], bit_list(clear_lowest(x)));
        assert(seq![t].drop_last() =~= Seq::<int>::empty());
        assert(seq![t].last() == t);
        assert(count_list(v, player, Seq::<int>::empty()) == 0);
        assert(count_list(v, player, seq![t]) == piece_actions(v, t, player).len());
        lemma_count_below_clear(v, player, x, 64);
    }
}

proof fn lemma_count_below_zero(v: Seq<u64>, player: Player, n: int)
    ensures
        count_below(v, player, 0, n) == 0,
    decreases n,
{
    if n > 0 {
        lemma_count_below_zero(v, player, n - 1);
        crate::bitboard::lemma_bit_ops(0u64, 0u64, n - 1);
    }
}

proof fn lemma_count_below_high(v: Seq<u64>, player: Player, x: u64, n: int)
    requires
        45 <= n <= 64,
        forall|j: int| 45 <= j < 64 ==> !#[trigger] bit(x, j),
    ensures
        count_below(v, player, x, n) == count_below(v, player, x, 45),
    decreases n,
{
    if n > 45 {
        lemma_count_below_high(v, player, x, n - 1);
    }
}

proof fn lemma_actions_upto_len(v: Seq<u64>, player: Player, n: int)
    ensures
        player_actions_upto(v, player, n).len() == count_below(v, player, same_colour_bits(v, player), n),
    decreases n,
{
    if n > 0 {
        lemma_actions_upto_len(v, player, n - 1);
    }
}

/// Law: the number of actions that the counter finds is the number of actions
/// that the move generator lists, when the pieces of the player are on cells of
/// the board.
pub proof fn lemma_count_matches_generator(v: Seq<u64>, player: Player)
    requires
        forall|j: int| 45 <= j < 64 ==> !#[trigger] bit(same_colour_bits(v, player), j),
    ensures
        count_actions_spec(v, player) == player_actions(v, player).len(),
{
    let x = same_colour_bits(v, player);
    lemma_count_list_bits(v, player, x);
    lemma_count_below_high(v, player, x, 64);
    lemma_actions_upto_len(v, player, 45);
}

} // verus!
