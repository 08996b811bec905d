//! This module implements the evaluation functions: evaluates the score of a current position or evaluates the best score at a given depth.
//!
//! A cell is scored from the pieces it holds and how far its owner has
//! advanced them: each scissors, paper or rock is worth 10 and each wise 8,
//! plus one per row advanced towards the opponent's home row. White pieces
//! count positively and black pieces negatively.
use vstd::prelude::*;

use crate::bitboard::{bit, opposite_stacks_bits, piece_at, Board};
use crate::logic::actions::{
    action_end, action_mid, action_start, board_wf, lemma_multiset_contains, lemma_play_wf,
    lemma_swap_multiset, play_bits, Action, ActionTrait, ActionsLight,
};
use crate::logic::index::CellIndexTrait;
use crate::logic::movegen::player_captures_and_wins;
use crate::logic::perft::{action_ok, all_ok, lemma_player_captures_ok};
use crate::logic::rules::{capturable_bits, count_pieces_spec, is_action_win_spec};
use crate::logic::index::CellIndex;
use crate::logic::translate::{index_coords, index_to_coords};
use crate::logic::{Player, N_CELLS};
use crate::piece::Piece;

use super::Score;

verus! {

/// The max score (is reached on winning position)
pub const MAX_SCORE: Score = 16_384;

/// The greatest absolute value of a static evaluation or search score: close
/// to the greatest `i16`, leaving room for the changes of cell scores that an
/// action brings (at most 6 cells of at most 26 each) and for negation.
pub const SCORE_BOUND: Score = 32_600;

/// The value of the piece held in 4 bits: 10 for a scissors, paper or rock,
/// 8 for a wise, 0 for none.
pub open spec fn unit_value(nibble: u8) -> int {
    if nibble & 8u8 == 0 {
        0
    } else if nibble & 3u8 == 3u8 {
        8
    } else {
        10
    }
}

/// The score of a cell holding `piece`: the value of its pieces plus the rows
/// advanced by its owner, positive for white and negative for black.
pub open spec fn cell_score(piece: u8, index: int) -> int {
    if piece == 0 {
        0
    } else {
        let row = index_coords(index).0;
        let value = unit_value(piece % 16) + unit_value(piece / 16) + if piece & 4u8 == 0 {
            6 - row
        } else {
            row
        };
        if piece & 4u8 == 0 {
            value
        } else {
            -value
        }
    }
}

/// The sum of the scores of the cells below `n`.
pub open spec fn score_upto(v: Seq<u64>, n: int) -> int
    decreases n,
{
    if n <= 0 {
        0
    } else {
        score_upto(v, n - 1) + cell_score(piece_at(v, n - 1), n - 1)
    }
}

/// The score of a board: the sum of the scores of its cells.
pub open spec fn position_score(v: Seq<u64>) -> int {
    score_upto(v, 45)
}

/// A cell's score is at most 26 in absolute value.
pub proof fn lemma_cell_score_bound(piece: u8, index: int)
    requires
        0 <= index < 45,
    ensures
        -26 <= cell_score(piece, index) <= 26,
{
}

/// The partial sums of the cells' scores are bounded.
pub proof fn lemma_score_upto_bound(v: Seq<u64>, n: int)
    requires
        0 <= n <= 45,
    ensures
        -26 * n <= score_upto(v, n) <= 26 * n,
    decreases n,
{
    if n > 0 {
        lemma_score_upto_bound(v, n - 1);
        lemma_cell_score_bound(piece_at(v, n - 1), n - 1);
    }
}

fn unit_score(nibble: u8) -> (r: Score)
    ensures
        r == unit_value(nibble),
{
    if nibble & 8 == 0 {
        0
    } else if nibble & 3 == 3 {
        8
    } else {
        10
    }
}

/// Returns the score of a single cell given its content and index.
pub fn evaluate_cell(piece: Piece, index: CellIndex) -> (r: Score)
    requires
        index < 45,
    ensures
        r == cell_score(piece, index as int),
{
    if piece == 0 {
        return 0;
    }
    let (row, _column) = index_to_coords(index);
    let row = row as Score;
    let value = unit_score(piece % 16) + unit_score(piece / 16) + if piece & 4 == 0 {
        6 - row
    } else {
        row
    };
    if piece & 4 == 0 {
        value
    } else {
        -value
    }
}

/// Returns the score of a board.
///
/// If the score is positive, the position favours the white player.
/// If the score is negative, the position favours the black player.
pub fn evaluate_position(board: &Board) -> (r: Score)
    ensures
        r == position_score(board@),
        -1170 <= r <= 1170,
{
    let mut score: Score = 0;
    let mut index: usize = 0;
    while index < N_CELLS
        invariant
            index <= 45,
            score == score_upto(board@, index as int),
        decreases N_CELLS - index,
    {
        proof {
            lemma_score_upto_bound(board@, index + 1);
        }
        score = score + evaluate_cell(board.get_piece(index), index);
        index += 1;
    }
    proof {
        lemma_score_upto_bound(board@, 45);
    }
    score
}

/// The score of a board from the point of view of `player`.
pub open spec fn player_score(v: Seq<u64>, player: Player) -> int {
    if player == 0 {
        position_score(v)
    } else {
        -position_score(v)
    }
}

/// Returns the score of a board from the point of view of the chosen player.
///
/// The higher the score, the better the position.
pub fn evaluate_position_for_player(board: &Board, current_player: Player) -> (r: Score)
    ensures
        r == player_score(board@, current_player),
{
    let eval = evaluate_position(board);
    if current_player == 0 {
        eval
    } else {
        -eval
    }
}

/// The score after an action, from the score before it and the cells that the
/// action changed: the start and end cells of a one-step action (the start cell
/// being left empty), and the start, middle and end cells otherwise.
pub open spec fn incremental_score(old: Seq<u64>, new: Seq<u64>, a: u32, previous: int) -> int {
    let s = action_start(a);
    let m = action_mid(a);
    let e = action_end(a);
    if m > 44 {
        previous - cell_score(piece_at(old, s), s) - cell_score(piece_at(old, e), e) + cell_score(
            piece_at(new, e),
            e,
        )
    } else {
        previous - cell_score(piece_at(old, s), s) + cell_score(piece_at(new, s), s) + (if m
            != s {
            cell_score(piece_at(new, m), m) - cell_score(piece_at(old, m), m)
        } else {
            0
        }) + (if e != s {
            cell_score(piece_at(new, e), e) - cell_score(piece_at(old, e), e)
        } else {
            0
        })
    }
}

/// Evaluates the score of a position after an action.
///
/// Efficient method that only calculates the cells of the board that changed and compares it to the current score.
pub fn evaluate_position_incremental(
    old_board: &Board,
    new_board: &Board,
    action: Action,
    previous_score: Score,
) -> (r: Score)
    requires
        action_start(action) < 45,
        action_end(action) < 45,
        -SCORE_BOUND <= previous_score <= SCORE_BOUND,
    ensures
        r == incremental_score(old_board@, new_board@, action, previous_score as int),
{
    let (index_start, index_mid, index_end) = action.to_indices();
    let mut score = previous_score;
    let old_start_piece = old_board.get_piece(index_start);
    proof {
        lemma_cell_score_bound(old_start_piece, index_start as int);
        lemma_cell_score_bound(piece_at(old_board@, index_end as int), index_end as int);
        lemma_cell_score_bound(piece_at(new_board@, index_end as int), index_end as int);
        lemma_cell_score_bound(piece_at(new_board@, index_start as int), index_start as int);
    }
    if index_mid > 44 {
        let old_end_piece = old_board.get_piece(index_end);
        let new_end_piece = new_board.get_piece(index_end);

        score = score - evaluate_cell(old_start_piece, index_start);

        score = score - evaluate_cell(old_end_piece, index_end);
        score = score + evaluate_cell(new_end_piece, index_end);
    } else {
        let new_start_piece = new_board.get_piece(index_start);
        score = score - evaluate_cell(old_start_piece, index_start);
        score = score + evaluate_cell(new_start_piece, index_start);
        if index_mid != index_start {
            let old_mid_piece = old_board.get_piece(index_mid);
            let new_mid_piece = new_board.get_piece(index_mid);
            proof {
                lemma_cell_score_bound(old_mid_piece, index_mid as int);
                lemma_cell_score_bound(new_mid_piece, index_mid as int);
            }
            score = score - evaluate_cell(old_mid_piece, index_mid);
            score = score + evaluate_cell(new_mid_piece, index_mid);
        }
        if index_end != index_start {
            let old_end_piece = old_board.get_piece(index_end);
            let new_end_piece = new_board.get_piece(index_end);
            score = score - evaluate_cell(old_end_piece, index_end);
            score = score + evaluate_cell(new_end_piece, index_end);
        }
    }
    score
}

/// The change of score over the cells below `n` when only the cells `x`, `y`
/// and `z` may change (each counted once).
pub open spec fn changed_score(v: Seq<u64>, w: Seq<u64>, x: int, y: int, z: int, n: int) -> int {
    (if 0 <= x < n {
        cell_score(piece_at(w, x), x) - cell_score(piece_at(v, x), x)
    } else {
        0
    }) + (if 0 <= y < n && y != x {
        cell_score(piece_at(w, y), y) - cell_score(piece_at(v, y), y)
    } else {
        0
    }) + (if 0 <= z < n && z != x && z != y {
        cell_score(piece_at(w, z), z) - cell_score(piece_at(v, z), z)
    } else {
        0
    })
}

/// When only the cells `x`, `y` and `z` differ, the score changes by the change of these cells.
proof fn lemma_score_diff(v: Seq<u64>, w: Seq<u64>, x: int, y: int, z: int, n: int)
    requires
        0 <= n <= 45,
        forall|j: int|
            0 <= j < 45 && j != x && j != y && j != z ==> #[trigger] piece_at(w, j) == piece_at(v, j),
    ensures
        score_upto(w, n) - score_upto(v, n) == changed_score(v, w, x, y, z, n),
    decreases n,
{
    if n > 0 {
        lemma_score_diff(v, w, x, y, z, n - 1);
        let j = n - 1;
        if j != x && j != y && j != z {
            assert(piece_at(w, j) == piece_at(v, j));
        }
    }
}

/// Law: after an action of the move generator, the score computed from the
/// changed cells is the score of the new board.
pub proof fn lemma_incremental_score(old: Seq<u64>, a: Action)
    requires
        board_wf(old),
        action_ok(a),
    ensures
        incremental_score(old, play_bits(old, a), a, position_score(old)) == position_score(
            play_bits(old, a),
        ),
{
    let new = play_bits(old, a);
    let s = action_start(a);
    let m = action_mid(a);
    let e = action_end(a);
    lemma_play_wf(old, a);
    if m == 255 {
        lemma_score_diff(old, new, s, s, e, 45);
    } else {
        lemma_score_diff(old, new, s, m, e, 45);
    }
}

/// The action captures a stack of the opponent of `player` (at its middle or end cell).
pub open spec fn captures_stack(v: Seq<u64>, player: Player, a: Action) -> bool {
    (action_mid(a) != 255 && bit(opposite_stacks_bits(v, player), action_mid(a))) || bit(
        opposite_stacks_bits(v, player),
        action_end(a),
    )
}

/// The action captures non-wise pieces of the opponent of `player` at both its
/// middle and end cells.
pub open spec fn captures_twice(v: Seq<u64>, player: Player, a: Action) -> bool {
    (action_mid(a) != 255 && bit(capturable_bits(v, player), action_mid(a))) && bit(
        capturable_bits(v, player),
        action_end(a),
    )
}

/// Some listed action is a winning action of `player`.
pub open spec fn has_win(v: Seq<u64>, player: Player, s: Seq<Action>) -> bool {
    exists|k: int| 0 <= k < s.len() && is_action_win_spec(v, #[trigger] s[k], player)
}

/// The actions below `i1` are those that capture a stack, and those from `i1`
/// to `i2` are those of the others that capture twice.
pub open spec fn captures_sorted(v: Seq<u64>, player: Player, s: Seq<Action>, i1: int, i2: int) -> bool {
    &&& 0 <= i1 <= i2 <= s.len()
    &&& forall|k: int|
        0 <= k < s.len() ==> (k < i1 <==> captures_stack(v, player, #[trigger] s[k]))
    &&& forall|k: int| i1 <= k < s.len() ==> (k < i2 <==> captures_twice(v, player, #[trigger] s[k]))
}

/// Sorts the captures: those that capture a stack first, then those that
/// capture twice, then the others; returns a winning capture if there is one.
fn sort_captures(
    board: &Board,
    current_player: Player,
    available_captures: &mut ActionsLight,
) -> (r: Option<Action>)
    requires
        all_ok(old(available_captures)@),
    ensures
        final(available_captures)@.to_multiset() == old(available_captures)@.to_multiset(),
        final(available_captures)@.len() == old(available_captures)@.len(),
        r.is_some() == has_win(board@, current_player, old(available_captures)@),
        r matches Some(a) ==> old(available_captures)@.contains(a) && is_action_win_spec(
            board@,
            a,
            current_player,
        ),
        r is None ==> exists|i1: int, i2: int|
            #[trigger] captures_sorted(board@, current_player, final(available_captures)@, i1, i2),
{
    let ghost old_list = available_captures@;
    let ghost v = board@;
    let mut index_sorted: usize = 0;
    let n_actions = available_captures.len();
    let stacks = board.opposite_stacks(current_player);
    let mut i: usize = 0;
    while i < n_actions
        invariant
            v == board@,
            old_list == old(available_captures)@,
            stacks.0 == opposite_stacks_bits(v, current_player),
            n_actions == old_list.len(),
            all_ok(old_list),
            available_captures@.len() == n_actions,
            available_captures@.to_multiset() == old_list.to_multiset(),
            index_sorted <= i <= n_actions,
            forall|k: int| i <= k < n_actions ==> #[trigger] available_captures@[k] == old_list[k],
            forall|k: int| 0 <= k < i ==> !is_action_win_spec(v, #[trigger] available_captures@[k], current_player),
            forall|k: int| 0 <= k < i ==> (k < index_sorted <==> captures_stack(v, current_player, #[trigger] available_captures@[k])),
        decreases n_actions - i,
    {
        let action = available_captures.get(i);
        proof {
            assert(action_ok(old_list[i as int]));
        }
        if board.is_action_win(action, current_player) {
            proof {
                assert(old_list.contains(action));
            }
            return Some(action);
        }
        let (_index_start, index_mid, index_end) = action.to_indices();
        if (!index_mid.is_null() && stacks.get(index_mid)) || stacks.get(index_end) {
            let ghost before = available_captures@;
            let other = available_captures.get(index_sorted);
            available_captures.set(i, other);
            available_captures.set(index_sorted, action);
            proof {
                lemma_swap_multiset(before, i as int, index_sorted as int);
                assert(available_captures@ == before.update(i as int, before[index_sorted as int]).update(index_sorted as int, before[i as int]));
            }
            index_sorted += 1;
        }
        i += 1;
    }
    proof {
        if has_win(v, current_player, old_list) {
            let k = choose|k: int| 0 <= k < old_list.len() && is_action_win_spec(v, #[trigger] old_list[k], current_player);
            lemma_multiset_contains(old_list, available_captures@, k);
        }
    }
    let ghost i1 = index_sorted as int;
    let capturable = board.capturable(current_player);
    let index_start = index_sorted;
    let mut i: usize = index_start;
    while i < n_actions
        invariant
            v == board@,
            old_list == old(available_captures)@,
            capturable.0 == capturable_bits(v, current_player),
            n_actions == old_list.len(),
            all_ok(old_list),
            !has_win(v, current_player, old_list),
            available_captures@.len() == n_actions,
            available_captures@.to_multiset() == old_list.to_multiset(),
            i1 == index_start,
            i1 <= index_sorted <= i <= n_actions,
            forall|k: int| 0 <= k < n_actions ==> (k < i1 <==> captures_stack(v, current_player, #[trigger] available_captures@[k])),
            forall|k: int| i1 <= k < i ==> (k < index_sorted <==> captures_twice(v, current_player, #[trigger] available_captures@[k])),
        decreases n_actions - i,
    {
        let action = available_captures.get(i);
        proof {
            lemma_multiset_contains(available_captures@, old_list, i as int);
            let k = choose|k: int| 0 <= k < old_list.len() && old_list[k] == action;
            assert(action_ok(old_list[k]));
        }
        if board.is_action_win(action, current_player) {
            proof {
                lemma_multiset_contains(available_captures@, old_list, i as int);
                let k = choose|k: int| 0 <= k < old_list.len() && old_list[k] == action;
                assert(is_action_win_spec(v, old_list[k], current_player));
            }
            return Some(action);
        }
        let (_index_start, index_mid, index_end) = action.to_indices();
        if (!index_mid.is_null() && capturable.get(index_mid)) && capturable.get(index_end) {
            let ghost before = available_captures@;
            let other = available_captures.get(index_sorted);
            available_captures.set(i, other);
            available_captures.set(index_sorted, action);
            proof {
                lemma_swap_multiset(before, i as int, index_sorted as int);
                assert(available_captures@ == before.update(i as int, before[index_sorted as int]).update(index_sorted as int, before[i as int]));
            }
            index_sorted += 1;
        }
        i += 1;
    }
    proof {
        let fin = available_captures@;
        let i2 = index_sorted as int;
        assert(captures_sorted(v, current_player, fin, i1, i2));
    }
    None
}

/// The static evaluation passed along with a board differs from the board's
/// score by at most `SCORE_BOUND` less the greatest absolute score of a board
/// (45 cells of at most 26 each); the actions keep that difference, so that the
/// evaluation stays within `SCORE_BOUND` and adding up cell scores cannot overflow.
pub open spec fn eval_in_range(v: Seq<u64>, static_eval: int) -> bool {
    -31430 <= static_eval - position_score(v) <= 31430
}

/// A static evaluation within 8192 of the board's score, as the search passes
/// it along from a root evaluated exactly: scores then stay within `MAX_SCORE`,
/// and the search results are bounds of the values below.
pub open spec fn eval_moderate(v: Seq<u64>, static_eval: int) -> bool {
    -8192 <= static_eval - position_score(v) <= 8192
}

/// The static evaluation from the point of view of `player`.
pub open spec fn stand_pat_of(player: Player, static_eval: int) -> int {
    if player == 0 {
        static_eval
    } else {
        -static_eval
    }
}

/// After an action of the move generator, the evaluation computed from the
/// changed cells is as far from the new board's score as the previous one was
/// from the old board's score.
pub proof fn lemma_incremental_in_range(old: Seq<u64>, a: Action, previous: int)
    requires
        board_wf(old),
        action_ok(a),
    ensures
        incremental_score(old, play_bits(old, a), a, previous) - position_score(play_bits(old, a))
            == previous - position_score(old),
        board_wf(play_bits(old, a)),
{
    lemma_incremental_score(old, a);
    lemma_play_wf(old, a);
}

/// The greatest of `base` and of the values of `s`.
pub open spec fn max_from(s: Seq<int>, base: int) -> int
    decreases s.len(),
{
    if s.len() == 0 {
        base
    } else {
        let m = max_from(s.drop_last(), base);
        if s.last() > m {
            s.last()
        } else {
            m
        }
    }
}

/// `max_from` is at least `base` and every value, and at most any bound of them.
pub proof fn lemma_max_from(s: Seq<int>, base: int, bound: int)
    ensures
        base <= max_from(s, base),
        forall|k: int| 0 <= k < s.len() ==> #[trigger] s[k] <= max_from(s, base),
        base <= bound && (forall|k: int| 0 <= k < s.len() ==> #[trigger] s[k] <= bound) ==> max_from(
            s,
            base,
        ) <= bound,
    decreases s.len(),
{
    if s.len() > 0 {
        let t = s.drop_last();
        lemma_max_from(t, base, bound);
        assert(s[s.len() - 1] == s.last());
        assert forall|k: int| 0 <= k < s.len() implies #[trigger] s[k] <= max_from(s, base) by {
            if k < t.len() {
                assert(t[k] == s[k]);
            }
        }
        if base <= bound && (forall|k: int| 0 <= k < s.len() ==> #[trigger] s[k] <= bound) {
            assert forall|k: int| 0 <= k < t.len() implies #[trigger] t[k] <= bound by {
                assert(t[k] == s[k]);
            }
        }
    }
}

/// A fail-soft search result `r` for the window from `alpha` to `beta`: below
/// beta it bounds the exact value from above, above alpha from below, so that
/// strictly inside the window it is the exact value.
pub open spec fn fail_soft(r: int, value: int, alpha: int, beta: int) -> bool {
    (r < beta ==> value <= r) && (r > alpha ==> value >= r)
}

/// The number of capture steps that the quiescence search follows from a board:
/// one more than its pieces, each capture removing at least one.
pub open spec fn capture_fuel(v: Seq<u64>) -> nat {
    count_pieces_spec(v) + 1
}

/// The value of the position after the capture `a` for the player who made it,
/// searched with `fuel` capture steps.
pub open spec fn capture_value(v: Seq<u64>, player: Player, static_eval: int, fuel: nat, a: Action) -> int
    decreases fuel, 0int,
{
    if fuel == 0 {
        0
    } else {
        -quiescence_value(
            play_bits(v, a),
            (1 - player) as Player,
            incremental_score(v, play_bits(v, a), a, static_eval),
            (fuel - 1) as nat,
        )
    }
}

/// The values after each capture of `player`.
pub open spec fn capture_values(v: Seq<u64>, player: Player, static_eval: int, fuel: nat) -> Seq<int>
    decreases fuel, 1int,
{
    let caps = player_captures_and_wins(v, player);
    Seq::new(caps.len(), |k: int| capture_value(v, player, static_eval, fuel, caps[k]))
}

/// The value that the quiescence search finds for `player` with a window that
/// lets every capture be searched: the stand-pat score where there is no
/// capture or no capture step is left, the greatest score where a capture
/// wins, otherwise the best of the stand-pat score and of the values after
/// each capture.
pub open spec fn quiescence_value(v: Seq<u64>, player: Player, static_eval: int, fuel: nat) -> int
    decreases fuel, 2int,
{
    let caps = player_captures_and_wins(v, player);
    let stand_pat = stand_pat_of(player, static_eval);
    if caps.len() == 0 {
        stand_pat
    } else if has_win(v, player, caps) {
        MAX_SCORE as int
    } else if fuel == 0 {
        stand_pat
    } else {
        max_from(capture_values(v, player, static_eval, fuel), stand_pat)
    }
}

fn quiescence(
    board: &Board,
    current_player: Player,
    window: (Score, Score),
    static_eval: Score,
    fuel: u64,
) -> (r: Score)
    requires
        board_wf(board@),
        current_player <= 1,
        eval_in_range(board@, static_eval as int),
    ensures
        -SCORE_BOUND <= r <= SCORE_BOUND,
        eval_moderate(board@, static_eval as int) ==> -MAX_SCORE <= r <= MAX_SCORE,
        stand_pat_of(current_player, static_eval as int) <= MAX_SCORE ==> stand_pat_of(
            current_player,
            static_eval as int,
        ) <= r,
        player_captures_and_wins(board@, current_player).len() == 0 || stand_pat_of(current_player, static_eval as int) > window.1 ==> r == stand_pat_of(current_player, static_eval as int),
        !(player_captures_and_wins(board@, current_player).len() == 0 || stand_pat_of(current_player, static_eval as int) > window.1) && has_win(board@, current_player, player_captures_and_wins(board@, current_player)) ==> r == MAX_SCORE,
        window.0 <= window.1 && eval_moderate(board@, static_eval as int) ==> fail_soft(
            r as int,
            quiescence_value(board@, current_player, static_eval as int, fuel as nat),
            window.0 as int,
            window.1 as int,
        ),
    decreases fuel,
{
    let (alpha, beta) = window;
    let ghost v = board@;
    let ghost moderate = eval_moderate(board@, static_eval as int);
    let ghost ordered = alpha <= beta && moderate;
    let ghost value = quiescence_value(v, current_player, static_eval as int, fuel as nat);
    proof {
        lemma_score_upto_bound(v, 45);
    }
    let mut available_captures = board.available_player_captures_and_wins(current_player);
    let ghost caps = available_captures@;
    let n_actions = available_captures.len();

    // Heuristic to return early
    let stand_pat = if current_player == 0 {
        static_eval
    } else {
        -static_eval
    };

    if n_actions == 0 || stand_pat > beta {
        proof {
            if n_actions > 0 && fuel > 0 && !has_win(v, current_player, caps) {
                lemma_max_from(
                    capture_values(v, current_player, static_eval as int, fuel as nat),
                    stand_pat as int,
                    stand_pat as int,
                );
            }
        }
        return stand_pat;
    }
    proof {
        lemma_player_captures_ok(v, current_player, 45, true);
    }
    let winning_action = sort_captures(board, current_player, &mut available_captures);

    if winning_action.is_some() {
        return MAX_SCORE;
    }
    if fuel == 0 {
        return stand_pat;
    }
    let ghost children = capture_values(v, current_player, static_eval as int, fuel as nat);
    let mut score = stand_pat;
    let mut alpha = if alpha > stand_pat {
        alpha
    } else {
        stand_pat
    };
    let mut i: usize = 0;
    while i < n_actions
        invariant_except_break
            ordered ==> alpha <= beta,
        invariant
            v == board@,
            board_wf(v),
            current_player <= 1,
            eval_in_range(v, static_eval as int),
            -SCORE_BOUND <= beta,
            all_ok(caps),
            caps == player_captures_and_wins(v, current_player),
            available_captures@.to_multiset() == caps.to_multiset(),
            available_captures@.len() == n_actions,
            !has_win(v, current_player, caps),
            fuel > 0,
            i <= n_actions,
            stand_pat == stand_pat_of(current_player, static_eval as int),
            -SCORE_BOUND <= stand_pat <= SCORE_BOUND,
            stand_pat <= score <= SCORE_BOUND,
            -SCORE_BOUND <= alpha,
            alpha == window.0 || alpha == score,
            alpha >= window.0 && alpha >= score,
            moderate == eval_moderate(v, static_eval as int),
            ordered == (window.0 <= beta && moderate),
            moderate ==> score <= MAX_SCORE,
            ordered && score < beta ==> forall|j: int|
                0 <= j < i ==> #[trigger] capture_value(
                    v,
                    current_player,
                    static_eval as int,
                    fuel as nat,
                    available_captures@[j],
                ) <= score,
            ordered && score > window.0 ==> score == stand_pat || exists|j: int|
                0 <= j < i && #[trigger] capture_value(
                    v,
                    current_player,
                    static_eval as int,
                    fuel as nat,
                    available_captures@[j],
                ) >= score,
        ensures
            i >= n_actions || alpha > beta,
        decreases n_actions - i,
    {
        let action = available_captures.get(i);
        proof {
            lemma_multiset_contains(available_captures@, caps, i as int);
            let k = choose|k: int| 0 <= k < caps.len() && caps[k] == action;
            assert(action_ok(caps[k]));
        }
        if board.is_action_win(action, current_player) {
            proof {
                lemma_multiset_contains(available_captures@, caps, i as int);
                let k = choose|k: int| 0 <= k < caps.len() && caps[k] == action;
                assert(is_action_win_spec(v, caps[k], current_player));
            }
            return MAX_SCORE;
        }
        let mut new_board = *board;
        new_board.play_action(action);
        proof {
            lemma_incremental_in_range(v, action, static_eval as int);
            lemma_score_upto_bound(v, 45);
        }
        let new_static_eval = evaluate_position_incremental(board, &new_board, action, static_eval);
        let child = quiescence(&new_board, 1 - current_player, (-beta, -alpha), new_static_eval, fuel - 1);
        let negated = -child;
        let ghost child_value = capture_value(v, current_player, static_eval as int, fuel as nat, action);
        assert(ordered ==> (negated > alpha ==> child_value >= negated) && (negated < beta
            ==> child_value <= negated));
        let eval = if score > negated {
            score
        } else {
            negated
        };
        score = if score > eval {
            score
        } else {
            eval
        };
        alpha = if alpha > eval {
            alpha
        } else {
            eval
        };
        i += 1;

        // Beta-cutoff, stop the search
        if alpha > beta {
            break;
        }
    }
    proof {
        if ordered {
            let l = available_captures@;
            if score < beta {
                assert forall|k: int| 0 <= k < caps.len() implies #[trigger] children[k] <= score by {
                    lemma_multiset_contains(caps, l, k);
                    let j = choose|j: int| 0 <= j < l.len() && l[j] == caps[k];
                    assert(capture_value(v, current_player, static_eval as int, fuel as nat, l[j]) <= score);
                }
            }
            lemma_max_from(children, stand_pat as int, score as int);
            if score > window.0 && score != stand_pat {
                let j = choose|j: int|
                    0 <= j < i && #[trigger] capture_value(
                        v,
                        current_player,
                        static_eval as int,
                        fuel as nat,
                        l[j],
                    ) >= score;
                lemma_multiset_contains(l, caps, j);
                let k = choose|k: int| 0 <= k < caps.len() && caps[k] == l[j];
                assert(children[k] >= score);
            }
        }
    }
    score
}

/// Evaluates a position using quiescence search.
///
/// Resolves all capture chains before evaluating positions and returns the best score using alphabeta.
/// A capture removes at least one piece, so no chain of captures is longer
/// than the number of pieces on the board; the search follows chains up to that length.
pub fn quiescence_search(
    board: &Board,
    current_player: Player,
    window: (Score, Score),
    static_eval: Score,
) -> (r: Score)
    requires
        board_wf(board@),
        current_player <= 1,
        eval_in_range(board@, static_eval as int),
    ensures
        -SCORE_BOUND <= r <= SCORE_BOUND,
        eval_moderate(board@, static_eval as int) ==> -MAX_SCORE <= r <= MAX_SCORE,
        stand_pat_of(current_player, static_eval as int) <= MAX_SCORE ==> stand_pat_of(
            current_player,
            static_eval as int,
        ) <= r,
        player_captures_and_wins(board@, current_player).len() == 0 || stand_pat_of(current_player, static_eval as int) > window.1 ==> r == stand_pat_of(current_player, static_eval as int),
        !(player_captures_and_wins(board@, current_player).len() == 0 || stand_pat_of(current_player, static_eval as int) > window.1) && has_win(board@, current_player, player_captures_and_wins(board@, current_player)) ==> r == MAX_SCORE,
        window.0 <= window.1 && eval_moderate(board@, static_eval as int) ==> fail_soft(
            r as int,
            quiescence_value(board@, current_player, static_eval as int, capture_fuel(board@)),
            window.0 as int,
            window.1 as int,
        ),
{
    let pieces = board.count_pieces();
    quiescence(board, current_player, window, static_eval, pieces + 1)
}

} // verus!
