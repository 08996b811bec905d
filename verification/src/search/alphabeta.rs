//! This module implements the alphabeta search that chooses the best move
//!
//! The actions of a node are searched one after the other: the first with the
//! full window, the others with a null window first and again with the full
//! window when they fail high (principal variation search).
use vstd::prelude::*;

use std::time::{Duration, Instant};

use crate::bitboard::{bit, piece_at, Board};
use crate::hash::position::{position_hash, HashTrait};
use crate::hash::search::{
    bucket_index, bucket_insert, bucket_read, entry_of, kept, lemma_bucket_insert_entries,
    lemma_insert_other, lemma_insert_unique, lemma_read_after_insert, lemma_scores_bounded,
    unpack_entry, bucket_unique, table_unique,
    scores_bounded, SearchTable, BUCKET_SIZE,
};
use crate::logic::actions::{
    action_end, action_mid, action_start, board_wf, play_bits, indices_fit, lemma_multiset_contains,
    lemma_swap_multiset, Action, ActionTrait, Actions,
};
use crate::logic::index::CellIndexTrait;
use crate::logic::movegen::player_actions;
use crate::logic::perft::{action_ok, lemma_player_actions_ok};
use crate::logic::rules::{capturable_bits, is_action_win, is_action_win_spec, owner};
use crate::logic::translate::{
    action_to_string, decimal_chars, push_decimal, push_signed, push_text, signed_decimal_chars,
};
use crate::logic::Player;
use crate::utils::{argsort, is_order, lemma_unsorted_at, lemma_unsorted_len, reverse_argsort, unsorted};

use super::eval::{
    capture_fuel, eval_in_range, eval_moderate, position_score, evaluate_position, evaluate_position_incremental, fail_soft,
    incremental_score, lemma_incremental_in_range, lemma_max_from, lemma_score_upto_bound,
    max_from, quiescence_search, quiescence_value, stand_pat_of, MAX_SCORE, SCORE_BOUND,
};
use super::{NodeType, Score};

verus! {

/// Starting beta value for the alphabeta search (starting alpha is equal to -beta)
pub const BASE_BETA: Score = 8_192;

/// Starting alpha value for the alphabeta search (starting alpha is equal to -beta)
pub const BASE_ALPHA: Score = -8_192;

/// Declares the standard library's point in time.
#[verifier::external_type_specification]
#[verifier::external_body]
pub struct ExInstant(std::time::Instant);

/// Reads the clock.
///
/// Calls `Instant::now`; what time it returns is not stated.
#[verifier::external_body]
pub(crate) fn now() -> (r: Instant) {
    Instant::now()
}

/// Compares two points in time.
///
/// Calls `>` on `Instant`: whether `a` is later than `b`. Points in time are
/// opaque here, so nothing is stated of the answer.
#[verifier::external_body]
pub(crate) fn is_later(a: &Instant, b: &Instant) -> (r: bool) {
    *a > *b
}

/// The time elapsed since `start`.
///
/// Calls `Instant::elapsed`, which reads the clock; nothing is stated of the result.
#[verifier::external_body]
pub(crate) fn elapsed(start: &Instant) -> (r: Duration) {
    start.elapsed()
}

/// The whole number of milliseconds of a duration.
///
/// Calls `Duration::as_millis`; durations are opaque here, so nothing is stated of the result.
#[verifier::external_body]
pub(crate) fn as_millis(duration: &Duration) -> (r: u128) {
    duration.as_millis()
}

/// A duration of `millis` milliseconds.
///
/// Calls `Duration::from_millis`; durations are opaque here.
#[verifier::external_body]
pub(crate) fn from_millis(millis: u64) -> (r: Duration) {
    Duration::from_millis(millis)
}

/// The point in time a duration after another, if it can be represented.
///
/// Calls `Instant::checked_add`; nothing is stated of the result.
#[verifier::external_body]
pub(crate) fn checked_add(time: &Instant, duration: Duration) -> (r: Option<Instant>) {
    time.checked_add(duration)
}

/// The time is up: the deadline, if there is one, has passed.
fn time_is_up(end_time: &Option<Instant>) -> (r: bool)
    ensures
        end_time.is_none() ==> !r,
{
    match end_time {
        Some(end_time) => {
            let current = now();
            is_later(&current, end_time)
        },
        None => false,
    }
}

/// Checks the clock: the time is up, which `fired` then records.
fn check_clock(end_time: &Option<Instant>, fired: &mut bool) -> (r: bool)
    ensures
        end_time.is_none() ==> !r,
        *final(fired) == (*old(fired) || r),
{
    let r = time_is_up(end_time);
    if r {
        *fired = true;
    }
    r
}

/// The table can be read and written: it has buckets of `BUCKET_SIZE` entries.
pub open spec fn table_shape(table: Option<SearchTable>) -> bool {
    match table {
        None => true,
        Some(t) => t@.len() > 0 && forall|i: int|
            0 <= i < t@.len() ==> #[trigger] t@[i].len() == BUCKET_SIZE,
    }
}

/// The table as the search keeps it: buckets of `BUCKET_SIZE` entries of
/// distinct positions whose scores are between the lowest and the highest
/// score, so that the search can negate any score it reads.
pub open spec fn table_ok(table: Option<SearchTable>) -> bool {
    &&& table_shape(table)
    &&& match table {
        None => true,
        Some(t) => scores_bounded(t@) && table_unique(t@),
    }
}

/// The entry of the table for a hash: action, depth, score and node type.
pub open spec fn table_read(table: Option<SearchTable>, hash: usize) -> Option<(Action, u64, Score, NodeType)> {
    match table {
        None => None,
        Some(t) => match bucket_read(t@[bucket_index(hash, t@.len())], hash) {
            Some(e) => Some((e.1, e.0, e.2, e.3)),
            None => None,
        },
    }
}

/// Reads the transposition table and returns its entry (action, depth, score, node type) if it exists.
#[inline]
pub fn read_transposition_table(
    cells_hash: usize,
    transposition_table: &Option<SearchTable>,
) -> (r: Option<(Action, u64, Score, NodeType)>)
    requires
        table_shape(*transposition_table),
    ensures
        r == table_read(*transposition_table, cells_hash),
        table_ok(*transposition_table) ==> (r matches Some(e) ==> -SCORE_BOUND <= e.2 <= SCORE_BOUND),
{
    match transposition_table {
        Some(table) => {
            proof {
                let i = bucket_index(cells_hash, table@.len());
                if scores_bounded(table@) {
                    lemma_scores_bounded(table@, i, table@[i][0], cells_hash);
                }
            }
            match table.read(cells_hash) {
                Some((table_depth, table_action, table_score, table_node_type)) => {
                    Some((table_action, table_depth, table_score, table_node_type))
                },
                None => None,
            }
        },
        None => None,
    }
}

/// Write the transposition table and store an entry (action, depth, score, node type).
///
/// Replaces the stored entry if the new entry has a higher depth or is the same depth and is a PV node.
#[inline]
pub fn write_transposition_table(
    cells_hash: usize,
    action: Action,
    depth: u64,
    score: Score,
    node_type: NodeType,
    transposition_table: &mut Option<SearchTable>,
)
    requires
        table_shape(*old(transposition_table)),
    ensures
        table_shape(*final(transposition_table)),
        table_ok(*old(transposition_table)) && -SCORE_BOUND <= score <= SCORE_BOUND ==> table_ok(
            *final(transposition_table),
        ),
        table_ok(*old(transposition_table)) ==> forall|k: usize|
            k != cells_hash ==> #[trigger] table_read(*final(transposition_table), k) == table_read(
                *old(transposition_table),
                k,
            ) || table_read(*final(transposition_table), k) is None,
        match *old(transposition_table) {
            None => final(transposition_table).is_none(),
            Some(t) => *final(transposition_table) matches Some(t2) && t2@ == t@.update(
                bucket_index(cells_hash, t@.len()),
                bucket_insert(
                    t@[bucket_index(cells_hash, t@.len())],
                    entry_of(depth, cells_hash, action, score, node_type),
                ),
            ),
        },
        *old(transposition_table) matches Some(t) ==> (depth as u8 != 0 ==> table_read(
            *final(transposition_table),
            cells_hash,
        ) == if kept(bucket_read(t@[bucket_index(cells_hash, t@.len())], cells_hash), depth, node_type) {
            table_read(Some(t), cells_hash)
        } else {
            let u = unpack_entry(entry_of(depth, cells_hash, action, score, node_type));
            Some((u.1, u.0, u.2, u.3))
        }),
{
    if let Some(table) = transposition_table.as_mut() {
        let ghost before = table@;
        proof {
            let i = bucket_index(cells_hash, before.len());
            if scores_bounded(before) && -SCORE_BOUND <= score <= SCORE_BOUND {
                lemma_scores_bounded(before, i, entry_of(depth, cells_hash, action, score, node_type), cells_hash);
            }
            lemma_bucket_insert_entries(before[i], entry_of(depth, cells_hash, action, score, node_type));
            if depth as u8 != 0 {
                lemma_read_after_insert(before[i], cells_hash, depth, action, score, node_type);
            }
        }
        table.insert(cells_hash, depth, action, score, node_type);
        proof {
            let i = bucket_index(cells_hash, before.len());
            let after = table@;
            let e = entry_of(depth, cells_hash, action, score, node_type);
            assert forall|k: int| 0 <= k < after.len() implies #[trigger] after[k].len() == BUCKET_SIZE by {
                if k != i {
                    assert(after[k] == before[k]);
                }
            }
            if table_unique(before) {
                assert forall|k: int| 0 <= k < after.len() implies #[trigger] bucket_unique(after[k]) by {
                    if k != i {
                        assert(after[k] == before[k]);
                    } else {
                        lemma_insert_unique(before[i], e);
                    }
                }
                assert forall|k: usize| k != cells_hash implies #[trigger] bucket_read(
                    after[bucket_index(k, after.len())],
                    k,
                ) == bucket_read(before[bucket_index(k, before.len())], k) || bucket_read(
                    after[bucket_index(k, after.len())],
                    k,
                ) is None by {
                    let ik = bucket_index(k, before.len());
                    if ik != i {
                        assert(after[ik] == before[ik]);
                    } else {
                        assert(bucket_unique(before[i]));
                        lemma_insert_other(before[i], e, k);
                    }
                }
            }
        }
    }
}

/// The action wins for the owner of its start piece (see [`is_action_win_spec`]).
pub open spec fn wins(v: Seq<u64>, a: Action) -> bool {
    is_action_win_spec(v, a, owner(piece_at(v, action_start(a))))
}

/// Some listed action wins.
pub open spec fn has_winning_action(v: Seq<u64>, s: Seq<Action>) -> bool {
    exists|k: int| 0 <= k < s.len() && wins(v, #[trigger] s[k])
}

/// The action ends its middle or last step on a non-wise piece of the opponent of `player`.
pub open spec fn attacks(v: Seq<u64>, player: Player, a: Action) -> bool {
    (action_mid(a) != 255 && bit(capturable_bits(v, player), action_mid(a))) || bit(
        capturable_bits(v, player),
        action_end(a),
    )
}

/// From `start` on, the actions below `idx` are the attacks.
pub open spec fn attacks_first(v: Seq<u64>, player: Player, s: Seq<Action>, start: int, idx: int) -> bool {
    &&& 0 <= start <= idx <= s.len()
    &&& forall|k: int| start <= k < s.len() ==> (k < idx <==> attacks(v, player, #[trigger] s[k]))
}

/// The number of actions put first: one when the table's action is listed.
pub open spec fn table_first(table_action: Option<Action>, s: Seq<Action>) -> int {
    match table_action {
        Some(a) => if s.contains(a) {
            1
        } else {
            0
        },
        None => 0,
    }
}

/// Sorts the available actions based on how good they are estimated to be (in descending order -> best actions first).
///
/// The action of the transposition table comes first, then the attacks. A
/// winning action is returned as soon as it is found.
#[inline]
pub fn sort_actions(
    board: &Board,
    current_player: Player,
    table_action: Option<Action>,
    available_actions: &mut Actions,
) -> (r: Option<Action>)
    requires
        forall|k: int| 0 <= k < old(available_actions)@.len() ==> #[trigger] indices_fit(old(available_actions)@[k]),
    ensures
        final(available_actions)@.to_multiset() == old(available_actions)@.to_multiset(),
        final(available_actions)@.len() == old(available_actions)@.len(),
        r.is_some() == has_winning_action(board@, old(available_actions)@),
        r matches Some(a) ==> old(available_actions)@.contains(a) && wins(board@, a),
        r is None && table_first(table_action, old(available_actions)@) == 1 ==> final(available_actions)@[0] == table_action->0,
        r is None ==> exists|idx: int| #[trigger] attacks_first(board@, current_player, final(available_actions)@, table_first(table_action, old(available_actions)@), idx),
{
    let ghost old_list = available_actions@;
    let ghost v = board@;
    let n_actions = available_actions.len();
    let mut index_sorted: usize = 0;

    // If there is a TT action and it is part of the available actions, move it first
    if let Some(table_action) = table_action {
        let mut i: usize = 0;
        while i < n_actions && index_sorted == 0
            invariant
                n_actions == old_list.len(),
                available_actions@.len() == n_actions,
                i <= n_actions,
                v == board@,
                old_list == old(available_actions)@,
                forall|k: int| 0 <= k < n_actions ==> #[trigger] indices_fit(old_list[k]),
                index_sorted == 0 ==> available_actions@ == old_list,
                index_sorted == 0 ==> forall|k: int| 0 <= k < i ==> #[trigger] old_list[k] != table_action,
                index_sorted == 1 ==> old_list.contains(table_action) && available_actions@[0] == table_action && !wins(v, table_action),
                index_sorted == 1 ==> available_actions@.to_multiset() == old_list.to_multiset(),
                index_sorted <= 1,
            decreases n_actions - i + 1 - index_sorted,
        {
            if available_actions.get(i) == table_action {
                proof {
                    assert(indices_fit(old_list[i as int]));
                }
                // Immediately returns if action is win
                if is_action_win(board, table_action) {
                    return Some(table_action);
                }
                let ghost before = available_actions@;
                let first = available_actions.get(0);
                available_actions.set(i, first);
                available_actions.set(0, table_action);
                proof {
                    lemma_swap_multiset(before, i as int, 0);
                    assert(available_actions@ == before.update(i as int, before[0]).update(0, before[i as int]));
                }
                index_sorted = 1;
            } else {
                i += 1;
            }
        }
        proof {
            if index_sorted == 0 {
                assert forall|k: int| 0 <= k < old_list.len() implies old_list[k] != table_action by {}
                assert(!old_list.contains(table_action));
            }
        }
    }
    let ghost start = index_sorted as int;
    assert(start == table_first(table_action, old_list));
    let capturable = board.capturable(current_player);
    // Skip sorting the first action if there is a TT action
    let index_start = index_sorted;
    // Find all the captures and put them at the beginning
    let mut i: usize = index_start;
    while i < n_actions
        invariant
            v == board@,
            old_list == old(available_actions)@,
            capturable.0 == capturable_bits(v, current_player),
            n_actions == old_list.len(),
            forall|k: int| 0 <= k < n_actions ==> #[trigger] indices_fit(old_list[k]),
            available_actions@.len() == n_actions,
            available_actions@.to_multiset() == old_list.to_multiset(),
            start == index_start,
            start == table_first(table_action, old_list),
            start == 1 ==> available_actions@[0] == table_action->0 && !wins(v, table_action->0),
            start <= index_sorted <= i <= n_actions,
            forall|k: int| 0 <= k < i ==> !wins(v, #[trigger] available_actions@[k]),
            forall|k: int| start <= k < i ==> (k < index_sorted <==> attacks(v, current_player, #[trigger] available_actions@[k])),
        decreases n_actions - i,
    {
        let action = available_actions.get(i);
        proof {
            lemma_multiset_contains(available_actions@, old_list, i as int);
            let k = choose|k: int| 0 <= k < old_list.len() && old_list[k] == action;
            assert(indices_fit(old_list[k]));
        }
        let (_index_start, index_mid, index_end) = action.to_indices();
        // Immediately return if the action is a win
        if is_action_win(board, action) {
            proof {
                lemma_multiset_contains(available_actions@, old_list, i as int);
            }
            return Some(action);
        }
        if (!index_mid.is_null() && capturable.get(index_mid)) || capturable.get(index_end) {
            let ghost before = available_actions@;
            let other = available_actions.get(index_sorted);
            available_actions.set(i, other);
            available_actions.set(index_sorted, action);
            proof {
                lemma_swap_multiset(before, i as int, index_sorted as int);
                assert(available_actions@ == before.update(i as int, before[index_sorted as int]).update(index_sorted as int, before[i as int]));
            }
            index_sorted += 1;
        }
        i += 1;
    }
    proof {
        if has_winning_action(v, old_list) {
            let k = choose|k: int| 0 <= k < old_list.len() && wins(v, #[trigger] old_list[k]);
            lemma_multiset_contains(old_list, available_actions@, k);
        }
        assert(attacks_first(v, current_player, available_actions@, start, index_sorted as int));
    }
    None
}

/// Every generated action can be played, and from a well-formed board leads to
/// a well-formed board whose evaluation stays in range.
proof fn lemma_child(v: Seq<u64>, player: Player, k: int, static_eval: int)
    requires
        board_wf(v),
        0 <= k < player_actions(v, player).len(),
        eval_in_range(v, static_eval),
    ensures
        action_ok(player_actions(v, player)[k]),
        eval_in_range(
            play_bits(v, player_actions(v, player)[k]),
            incremental_score(
                v,
                play_bits(v, player_actions(v, player)[k]),
                player_actions(v, player)[k],
                static_eval,
            ),
        ),
        board_wf(play_bits(v, player_actions(v, player)[k])),
        -SCORE_BOUND <= static_eval <= SCORE_BOUND,
        eval_moderate(v, static_eval) ==> eval_moderate(
            play_bits(v, player_actions(v, player)[k]),
            incremental_score(
                v,
                play_bits(v, player_actions(v, player)[k]),
                player_actions(v, player)[k],
                static_eval,
            ),
        ),
{
    lemma_player_actions_ok(v, player, 45);
    lemma_incremental_in_range(v, player_actions(v, player)[k], static_eval);
    lemma_score_upto_bound(v, 45);
}

/// The value of the position after the action `a` for the player who made it,
/// searched `depth - 1` moves deeper.
pub open spec fn action_value(v: Seq<u64>, player: Player, depth: nat, static_eval: int, a: Action) -> int
    decreases depth, 0int,
{
    if depth == 0 {
        0
    } else {
        -search_value(
            play_bits(v, a),
            (1 - player) as Player,
            (depth - 1) as nat,
            incremental_score(v, play_bits(v, a), a, static_eval),
        )
    }
}

/// The values after each action of `player`.
pub open spec fn action_values(v: Seq<u64>, player: Player, depth: nat, static_eval: int) -> Seq<int>
    decreases depth, 1int,
{
    let actions = player_actions(v, player);
    Seq::new(actions.len(), |k: int| action_value(v, player, depth, static_eval, actions[k]))
}

/// The value of a position for `player` searched `depth` moves deep (negamax):
/// the quiescence value at depth 0, the lowest score without any action, the
/// greatest score with a winning action, otherwise the best value after an action.
pub open spec fn search_value(v: Seq<u64>, player: Player, depth: nat, static_eval: int) -> int
    decreases depth, 2int,
{
    let actions = player_actions(v, player);
    if depth == 0 {
        quiescence_value(v, player, static_eval, capture_fuel(v))
    } else if actions.len() == 0 {
        -MAX_SCORE as int
    } else if has_winning_action(v, actions) {
        MAX_SCORE as int
    } else {
        max_from(action_values(v, player, depth, static_eval), -MAX_SCORE as int)
    }
}

/// Where no action wins, the value of a position is at least the value after each action.
proof fn lemma_value_of_action(v: Seq<u64>, player: Player, depth: nat, static_eval: int, k: int)
    requires
        depth > 0,
        0 <= k < player_actions(v, player).len(),
        !has_winning_action(v, player_actions(v, player)),
    ensures
        search_value(v, player, depth, static_eval) >= action_value(
            v,
            player,
            depth,
            static_eval,
            player_actions(v, player)[k],
        ),
{
    lemma_max_from(action_values(v, player, depth, static_eval), -MAX_SCORE as int, 0);
    assert(action_values(v, player, depth, static_eval)[k] == action_value(
        v,
        player,
        depth,
        static_eval,
        player_actions(v, player)[k],
    ));
}

/// From `before` to `after`, the table changed no result but by removing it or
/// by storing one of a search at most `depth` moves deep.
pub open spec fn table_frame(before: Option<SearchTable>, after: Option<SearchTable>, depth: u64) -> bool {
    forall|k: usize|
        #[trigger] table_read(after, k) == table_read(before, k) || table_read(after, k) is None || (
        table_read(after, k) matches Some(e) && 1 <= e.1 <= depth)
}

/// The changes of two searches at most `depth` moves deep, one after the other,
/// are those of a search at most `depth` moves deep.
proof fn lemma_frame_trans(a: Option<SearchTable>, b: Option<SearchTable>, c: Option<SearchTable>, depth: u64)
    requires
        table_frame(a, b, depth),
        table_frame(b, c, depth),
    ensures
        table_frame(a, c, depth),
{
    assert forall|k: usize|
        #[trigger] table_read(c, k) == table_read(a, k) || table_read(c, k) is None || (table_read(
            c,
            k,
        ) matches Some(e) && 1 <= e.1 <= depth) by {
        assert(table_read(b, k) == table_read(a, k) || table_read(b, k) is None || (table_read(b, k) matches Some(
            e,
        ) && 1 <= e.1 <= depth));
    }
}

/// A frame for a shallower search is one for a deeper search.
proof fn lemma_frame_deeper(a: Option<SearchTable>, b: Option<SearchTable>, d1: u64, d2: u64)
    requires
        table_frame(a, b, d1),
        d1 <= d2,
    ensures
        table_frame(a, b, d2),
{
    assert forall|k: usize|
        #[trigger] table_read(b, k) == table_read(a, k) || table_read(b, k) is None || (table_read(
            b,
            k,
        ) matches Some(e) && 1 <= e.1 <= d2) by {
        assert(table_read(b, k) == table_read(a, k) || table_read(b, k) is None || (table_read(b, k) matches Some(
            e,
        ) && 1 <= e.1 <= d1));
    }
}

/// The entry that a search `depth` moves deep leaves for its position `hash`:
/// the one stored before it, or one of that depth that holds the score found.
pub open spec fn own_entry(before: Option<SearchTable>, after: Option<SearchTable>, hash: usize, depth: u64, score: Score) -> bool {
    table_read(after, hash) == table_read(before, hash) || (table_read(after, hash) matches Some(e)
        && e.1 == depth && e.2 == score)
}

/// Storing the result of a search `depth` moves deep, after searches at most
/// `depth - 1` moves deep since `before`: the table changes as in a search
/// `depth` moves deep, and holds for the position either its entry from
/// `before` or the stored result.
proof fn lemma_store_result(
    before: Option<SearchTable>,
    mid: Option<SearchTable>,
    after: Option<SearchTable>,
    hash: usize,
    depth: u64,
    action: Action,
    score: Score,
    node_type: NodeType,
)
    requires
        1 <= depth < 256,
        table_frame(before, mid, (depth - 1) as u64),
        forall|k: usize|
            k != hash ==> #[trigger] table_read(after, k) == table_read(mid, k) || table_read(after, k) is None,
        mid is None ==> after is None && before is None,
        mid matches Some(t) ==> table_read(after, hash) == if kept(
            bucket_read(t@[bucket_index(hash, t@.len())], hash),
            depth,
            node_type,
        ) {
            table_read(Some(t), hash)
        } else {
            let u = unpack_entry(entry_of(depth, hash, action, score, node_type));
            Some((u.1, u.0, u.2, u.3))
        },
    ensures
        table_frame(before, after, depth),
        own_entry(before, after, hash, depth, score),
{
    assert((depth as u8) as u64 == depth);
    if let Some(t) = mid {
        let prior = bucket_read(t@[bucket_index(hash, t@.len())], hash);
        if kept(prior, depth, node_type) {
            let o = prior->0;
            assert(table_read(mid, hash) == Some((o.1, o.0, o.2, o.3)));
            assert(o.0 >= depth);
        } else {
            let u = unpack_entry(entry_of(depth, hash, action, score, node_type));
            assert(u.0 == depth && u.2 == score);
        }
    }
    assert(table_read(mid, hash) == table_read(before, hash) || table_read(mid, hash) is None || (table_read(
        mid,
        hash,
    ) matches Some(e) && 1 <= e.1 <= depth - 1));
    assert forall|k: usize|
        #[trigger] table_read(after, k) == table_read(before, k) || table_read(after, k) is None || (
        table_read(after, k) matches Some(e) && 1 <= e.1 <= depth) by {
        assert(table_read(mid, k) == table_read(before, k) || table_read(mid, k) is None || (table_read(
            mid,
            k,
        ) matches Some(e) && 1 <= e.1 <= depth - 1));
    }
}

/// A search window that the search at `depth` can negate, and every window it
/// leads to: any window at depth 0 (the quiescence search); from depth 1,
/// neither bound is the lowest `i16`; from depth 2, alpha is not the greatest,
/// whose null window above would start at the lowest; from depth 3, beta is
/// not the opposite of the greatest, which would be that alpha one move below.
pub open spec fn window_ok(depth: u64, alpha: Score, beta: Score) -> bool {
    &&& depth >= 1 ==> alpha > i16::MIN && beta > i16::MIN
    &&& depth >= 2 ==> alpha < i16::MAX
    &&& depth >= 3 ==> beta > -i16::MAX
}

/// Evaluates the score of a given action by searching at a given depth.
///
/// Recursively calculates the best score using the alphabeta search to the chosen depth.
pub fn search_node(
    board: &Board,
    current_player: Player,
    depth: u64,
    window: (Score, Score),
    end_time: &Option<Instant>,
    node_type: NodeType,
    transposition_table: &mut Option<SearchTable>,
    static_eval: Score,
) -> (r: Score)
    requires
        board_wf(board@),
        current_player <= 1,
        eval_in_range(board@, static_eval as int),
        window_ok(depth, window.0, window.1),
        table_ok(*old(transposition_table)),
    ensures
        -SCORE_BOUND <= r <= SCORE_BOUND,
        eval_moderate(board@, static_eval as int) && (depth == 0 || end_time.is_none() && old(
            transposition_table,
        ).is_none()) ==> -MAX_SCORE <= r <= MAX_SCORE,
        table_ok(*final(transposition_table)),
        final(transposition_table).is_some() == old(transposition_table).is_some(),
        depth == 0 && stand_pat_of(current_player, static_eval as int) <= MAX_SCORE ==> stand_pat_of(
            current_player,
            static_eval as int,
        ) <= r,
        depth > 0 && end_time.is_none() && player_actions(board@, current_player).len() == 0
            ==> r == -MAX_SCORE,
        depth > 0 && end_time.is_none() && old(transposition_table).is_none()
            && has_winning_action(board@, player_actions(board@, current_player)) ==> r == MAX_SCORE,
        window.0 <= window.1 && end_time.is_none() && old(transposition_table).is_none()
            && eval_moderate(board@, static_eval as int) ==> fail_soft(
            r as int,
            search_value(board@, current_player, depth as nat, static_eval as int),
            window.0 as int,
            window.1 as int,
        ),
        depth < 256 ==> table_frame(*old(transposition_table), *final(transposition_table), depth),
        1 <= depth < 256 ==> own_entry(
            *old(transposition_table),
            *final(transposition_table),
            position_hash(board@, current_player) as usize,
            depth,
            r,
        ),
{
    let mut fired = false;
    search_node_clocked(
        board,
        current_player,
        depth,
        window,
        end_time,
        node_type,
        transposition_table,
        static_eval,
        &mut fired,
    )
}

/// The search of [`search_node`], which records in `fired` whether a check of
/// the clock found the time up; the results are exact where none did (and no
/// table was given).
#[verifier::rlimit(60)]
pub fn search_node_clocked(
    board: &Board,
    current_player: Player,
    depth: u64,
    window: (Score, Score),
    end_time: &Option<Instant>,
    node_type: NodeType,
    transposition_table: &mut Option<SearchTable>,
    static_eval: Score,
    fired: &mut bool,
) -> (r: Score)
    requires
        board_wf(board@),
        current_player <= 1,
        eval_in_range(board@, static_eval as int),
        window_ok(depth, window.0, window.1),
        table_ok(*old(transposition_table)),
    ensures
        -SCORE_BOUND <= r <= SCORE_BOUND,
        eval_moderate(board@, static_eval as int) && (depth == 0 || !*final(fired) && old(
            transposition_table,
        ).is_none()) ==> -MAX_SCORE <= r <= MAX_SCORE,
        table_ok(*final(transposition_table)),
        final(transposition_table).is_some() == old(transposition_table).is_some(),
        depth == 0 && stand_pat_of(current_player, static_eval as int) <= MAX_SCORE ==> stand_pat_of(
            current_player,
            static_eval as int,
        ) <= r,
        depth > 0 && !*final(fired) && player_actions(board@, current_player).len() == 0
            ==> r == -MAX_SCORE,
        depth > 0 && !*final(fired) && old(transposition_table).is_none()
            && has_winning_action(board@, player_actions(board@, current_player)) ==> r == MAX_SCORE,
        window.0 <= window.1 && !*final(fired) && old(transposition_table).is_none()
            && eval_moderate(board@, static_eval as int) ==> fail_soft(
            r as int,
            search_value(board@, current_player, depth as nat, static_eval as int),
            window.0 as int,
            window.1 as int,
        ),
        *old(fired) ==> *final(fired),
        end_time.is_none() ==> *final(fired) == *old(fired),
        depth < 256 ==> table_frame(*old(transposition_table), *final(transposition_table), depth),
        1 <= depth < 256 ==> own_entry(
            *old(transposition_table),
            *final(transposition_table),
            position_hash(board@, current_player) as usize,
            depth,
            r,
        ),
    decreases depth,
{
    let ghost v = board@;
    let ghost exact_base = window.0 <= window.1 && old(transposition_table).is_none() && eval_moderate(
        board@,
        static_eval as int,
    );
    let ghost moderate_base = old(transposition_table).is_none() && eval_moderate(board@, static_eval as int);
    if depth == 0 {
        return quiescence_search(board, current_player, window, static_eval);
    }
    // Stop searching if the allocated time is up (if there are time controls)
    if check_clock(end_time, fired) {
        return -MAX_SCORE;
    }

    let mut available_actions = board.available_player_actions(current_player);
    let ghost all = available_actions@;
    let n_actions = available_actions.len();

    // If there are no actions available, the player has lost
    if n_actions == 0 {
        return -MAX_SCORE;
    }
    proof {
        lemma_player_actions_ok(v, current_player, 45);
        assert forall|k: int| 0 <= k < all.len() implies #[trigger] indices_fit(all[k]) by {
            assert(action_ok(all[k]));
        }
    }

    let mut score: Score = -MAX_SCORE;
    let (mut alpha, mut beta) = window;
    // Read the transposition table
    let cells_hash = (board, current_player).hash();
    let table_action = match read_transposition_table(cells_hash, transposition_table) {
        Some((table_action, table_depth, table_score, table_node_type)) => {
            // If the table has a match with the same depth, a cutoff may be possible depending on the node type
            if table_depth == depth {
                match table_node_type {
                    NodeType::PV => {
                        return table_score;
                    },
                    NodeType::Cut => {
                        if table_score > beta {
                            return table_score;
                        }
                        alpha = table_score;
                    },
                    NodeType::All => {
                        if table_score < alpha {
                            return table_score;
                        }
                        beta = table_score;
                    },
                }
            }
            Some(table_action)
        },
        None => None,
    };

    // Sort actions to improve alphabeta search
    let winning_action = sort_actions(board, current_player, table_action, &mut available_actions);

    // Return if one of the available actions is an immediate win
    if let Some(winning_action) = winning_action {
        let ghost t_mid = *transposition_table;
        write_transposition_table(
            cells_hash,
            winning_action,
            depth,
            MAX_SCORE,
            NodeType::PV,
            transposition_table,
        );
        proof {
            if depth < 256 {
                assert(depth as u8 != 0);
                assert(table_frame(*old(transposition_table), t_mid, (depth - 1) as u64));
                lemma_store_result(
                    *old(transposition_table),
                    t_mid,
                    *transposition_table,
                    cells_hash,
                    depth,
                    winning_action,
                    MAX_SCORE,
                    NodeType::PV,
                );
            }
        }
        return MAX_SCORE;
    }
    // Evaluate first action
    let first_action = available_actions.get(0);
    proof {
        lemma_multiset_contains(available_actions@, all, 0);
        let k = choose|k: int| 0 <= k < all.len() && all[k] == first_action;
        lemma_child(v, current_player, k, static_eval as int);
    }
    let mut new_board = *board;
    new_board.play_action(first_action);
    let new_static_eval = evaluate_position_incremental(board, &new_board, first_action, static_eval);
    let ghost t_first = *transposition_table;
    let eval = -search_node_clocked(
        &new_board,
        1 - current_player,
        depth - 1,
        (-beta, -alpha),
        end_time,
        match node_type {
            NodeType::PV => NodeType::PV,
            NodeType::Cut => NodeType::All,
            NodeType::All => NodeType::Cut,
        },
        transposition_table,
        new_static_eval,
        fired,
    );
    proof {
        if depth < 256 {
            assert(t_first == *old(transposition_table));
        }
    }
    let ghost first_value = action_value(v, current_player, depth as nat, static_eval as int, first_action);
    assert(exact_base && !*fired ==> (eval > alpha ==> first_value >= eval) && (eval < beta ==> first_value <= eval));
    alpha = if alpha > eval {
        alpha
    } else {
        eval
    };
    // Beta-cutoff, stop the search
    if alpha > beta {
        let ghost t_mid = *transposition_table;
        write_transposition_table(cells_hash, first_action, depth, eval, node_type, transposition_table);
        proof {
            if depth < 256 {
                assert(depth as u8 != 0);
                lemma_store_result(
                    *old(transposition_table),
                    t_mid,
                    *transposition_table,
                    cells_hash,
                    depth,
                    first_action,
                    eval,
                    node_type,
                );
            }
            if exact_base && !*fired {
                lemma_multiset_contains(available_actions@, all, 0);
                let k = choose|k: int| 0 <= k < all.len() && all[k] == first_action;
                lemma_max_from(action_values(v, current_player, depth as nat, static_eval as int), -MAX_SCORE as int, 0);
                assert(action_values(v, current_player, depth as nat, static_eval as int)[k] == first_value);
            }
        }
        return eval;
    }
    score = if score > eval {
        score
    } else {
        eval
    };
    let mut best_action = first_action;

    // Evaluate the rest of the actions
    let mut i: usize = 1;
    while i < n_actions
        invariant_except_break
            exact_base && !*fired ==> alpha <= beta,
        invariant
            v == board@,
            board_wf(v),
            current_player <= 1,
            depth > 0,
            exact_base == (window.0 <= window.1 && old(transposition_table).is_none() && eval_moderate(
                v,
                static_eval as int,
            )),
            moderate_base == (old(transposition_table).is_none() && eval_moderate(v, static_eval as int)),
            *old(fired) ==> *fired,
            end_time.is_none() ==> *fired == *old(fired),
            depth < 256 ==> table_frame(*old(transposition_table), *transposition_table, (depth - 1) as u64),
            cells_hash == position_hash(v, current_player) as usize,
            moderate_base && !*fired ==> score <= MAX_SCORE,
            exact_base && !*fired ==> window.1 == beta && (alpha == window.0 || alpha == score) && alpha
                >= window.0 && alpha >= score,
            exact_base && !*fired && score < beta ==> forall|j: int|
                0 <= j < i ==> #[trigger] action_value(
                    v,
                    current_player,
                    depth as nat,
                    static_eval as int,
                    available_actions@[j],
                ) <= score,
            exact_base && !*fired && score > window.0 ==> exists|j: int|
                0 <= j < i && #[trigger] action_value(
                    v,
                    current_player,
                    depth as nat,
                    static_eval as int,
                    available_actions@[j],
                ) >= score,
            eval_in_range(v, static_eval as int),
            all == player_actions(v, current_player),
            available_actions@.to_multiset() == all.to_multiset(),
            available_actions@.len() == n_actions,
            n_actions == all.len(),
            1 <= i <= n_actions,
            -MAX_SCORE <= score <= SCORE_BOUND,
            window_ok(depth, alpha, beta),
            table_ok(*transposition_table),
            transposition_table.is_some() == old(transposition_table).is_some(),
        ensures
            i >= n_actions || alpha > beta,
        decreases n_actions - i,
    {
        let action = available_actions.get(i);
        proof {
            lemma_multiset_contains(available_actions@, all, i as int);
            let k = choose|k: int| 0 <= k < all.len() && all[k] == action;
            lemma_child(v, current_player, k, static_eval as int);
        }
        let a = alpha;
        let mut new_board = *board;
        new_board.play_action(action);
        let new_static_eval = evaluate_position_incremental(board, &new_board, action, static_eval);
        // Search with a null window
        let ghost t_null = *transposition_table;
        let eval_null_window = -search_node_clocked(
            &new_board,
            1 - current_player,
            depth - 1,
            (-a - 1, -a),
            end_time,
            NodeType::Cut,
            transposition_table,
            new_static_eval,
            fired,
        );
        proof {
            if depth < 256 {
                lemma_frame_trans(*old(transposition_table), t_null, *transposition_table, (depth - 1) as u64);
            }
        }
        let ghost t_full = *transposition_table;
        // If fail high, do the search with the full window
        let eval = if a < eval_null_window && eval_null_window < beta {
            -search_node_clocked(
                &new_board,
                1 - current_player,
                depth - 1,
                (-beta, -a),
                end_time,
                match node_type {
                    NodeType::PV => NodeType::PV,
                    NodeType::Cut => NodeType::Cut,
                    NodeType::All => NodeType::Cut,
                },
                transposition_table,
                new_static_eval,
                fired,
            )
        } else {
            eval_null_window
        };
        proof {
            if depth < 256 && t_full != *transposition_table {
                lemma_frame_trans(*old(transposition_table), t_full, *transposition_table, (depth - 1) as u64);
            }
        }
        let ghost value = action_value(v, current_player, depth as nat, static_eval as int, action);
        assert(exact_base && !*fired ==> (eval > a ==> value >= eval) && (eval < beta ==> value <= eval));
        if eval > score {
            score = eval;
            best_action = action;
        }
        alpha = if alpha > eval {
            alpha
        } else {
            eval
        };
        i += 1;
        // Beta-cutoff, stop the search
        if eval > beta {
            break;
        }
    }
    let ghost t_mid = *transposition_table;
    write_transposition_table(cells_hash, best_action, depth, score, node_type, transposition_table);
    proof {
        if depth < 256 {
            assert(depth as u8 != 0);
            lemma_store_result(
                *old(transposition_table),
                t_mid,
                *transposition_table,
                cells_hash,
                depth,
                best_action,
                score,
                node_type,
            );
        }
        if exact_base && !*fired {
            let l = available_actions@;
            let values = action_values(v, current_player, depth as nat, static_eval as int);
            if score < beta {
                assert forall|k: int| 0 <= k < all.len() implies #[trigger] values[k] <= score by {
                    lemma_multiset_contains(all, l, k);
                    let j = choose|j: int| 0 <= j < l.len() && l[j] == all[k];
                    assert(action_value(v, current_player, depth as nat, static_eval as int, l[j]) <= score);
                }
            }
            lemma_max_from(values, -MAX_SCORE as int, score as int);
            if score > window.0 {
                let j = choose|j: int|
                    0 <= j < i && #[trigger] action_value(
                        v,
                        current_player,
                        depth as nat,
                        static_eval as int,
                        l[j],
                    ) >= score;
                lemma_multiset_contains(l, all, j);
                let k = choose|k: int| 0 <= k < all.len() && all[k] == l[j];
                assert(values[k] >= score);
            }
        }
    }
    score
}

/// The score of a root action: the greatest score for a winning action;
/// otherwise, for the first action, searched with the window from `alpha` to
/// the base beta; for the others, searched with a null window above `alpha`, and
/// again with the window up to the base beta when that search fails high.
fn search_root_action(
    board: &Board,
    current_player: Player,
    depth: u64,
    action: Action,
    alpha: Score,
    first: bool,
    end_time: &Option<Instant>,
    transposition_table: &mut Option<SearchTable>,
    static_eval: Score,
    fired: &mut bool,
) -> (r: Score)
    requires
        board_wf(board@),
        current_player <= 1,
        depth > 0,
        action_ok(action),
        player_actions(board@, current_player).contains(action),
        eval_in_range(board@, static_eval as int),
        eval_moderate(board@, static_eval as int),
        eval_in_range(
            play_bits(board@, action),
            incremental_score(board@, play_bits(board@, action), action, static_eval as int),
        ),
        eval_moderate(
            play_bits(board@, action),
            incremental_score(board@, play_bits(board@, action), action, static_eval as int),
        ),
        board_wf(play_bits(board@, action)),
        -SCORE_BOUND <= static_eval <= SCORE_BOUND,
        -SCORE_BOUND <= alpha <= BASE_BETA,
        table_ok(*old(transposition_table)),
    ensures
        -SCORE_BOUND <= r <= SCORE_BOUND,
        table_ok(*final(transposition_table)),
        final(transposition_table).is_some() == old(transposition_table).is_some(),
        root_eval_ok(
            board@,
            current_player,
            depth as nat,
            static_eval as int,
            action,
            alpha,
            r,
            !*final(fired) && old(transposition_table).is_none(),
        ),
        *old(fired) ==> *final(fired),
        end_time.is_none() ==> *final(fired) == *old(fired),
{
    let beta = BASE_BETA;
    if is_action_win(board, action) {
        return MAX_SCORE;
    }
    let mut new_board = *board;
    new_board.play_action(action);
    let new_static_eval = evaluate_position_incremental(board, &new_board, action, static_eval);
    if first {
        return -search_node_clocked(
            &new_board,
            1 - current_player,
            depth - 1,
            (-beta, -alpha),
            end_time,
            NodeType::PV,
            transposition_table,
            new_static_eval,
            fired,
        );
    }
    let a = alpha;
    // Search with a null window
    let eval_null_window = -search_node_clocked(
        &new_board,
        1 - current_player,
        depth - 1,
        (-a - 1, -a),
        end_time,
        NodeType::Cut,
        transposition_table,
        new_static_eval,
        fired,
    );
    // If fail high, do the search with the full window
    if a < eval_null_window && eval_null_window < beta {
        -search_node_clocked(
            &new_board,
            1 - current_player,
            depth - 1,
            (-beta, -a),
            end_time,
            NodeType::PV,
            transposition_table,
            new_static_eval,
            fired,
        )
    } else {
        eval_null_window
    }
}

/// The reverse of an ordering of the indices of `data` is one too.
proof fn lemma_reversed_order(data: Seq<Score>, order: Seq<usize>)
    requires
        is_order(data, order.reverse()),
    ensures
        is_order(data, order),
{
    let rev = order.reverse();
    let n = order.len() as int;
    assert forall|k: int| 0 <= k < n implies #[trigger] order[k] < data.len() by {
        assert(order[k] == rev[n - 1 - k]);
    }
    assert forall|a: int, b: int| 0 <= a < b < n implies order[a] != order[b] by {
        assert(order[a] == rev[n - 1 - a]);
        assert(order[b] == rev[n - 1 - b]);
    }
    assert forall|i: int| 0 <= i < data.len() implies #[trigger] order.contains(i as usize) by {
        assert(rev.contains(i as usize));
        let m = choose|m: int| 0 <= m < rev.len() && rev[m] == i as usize;
        assert(order[n - 1 - m] == i as usize);
    }
}

/// What the scores searched so far at the root give, in the order of the
/// search: `best` is the greatest of them, first reached at `best_at`; and
/// where the search is exact, every score below the base beta bounds its
/// action's value from above, the best score inside the base window is reached
/// by its action, a best score above the base alpha is reached by the position,
/// and a best score below the base beta bounds every searched action from above.
#[verifier::opaque]
spec fn root_state(
    v: Seq<u64>,
    player: Player,
    depth: nat,
    static_eval: int,
    order: Seq<usize>,
    sorted: Seq<Score>,
    best: int,
    best_at: int,
    exact: bool,
) -> bool {
    let all = player_actions(v, player);
    &&& -SCORE_BOUND <= best <= SCORE_BOUND
    &&& exact ==> -MAX_SCORE <= best <= MAX_SCORE
    &&& 0 <= best_at < sorted.len() && sorted[best_at] == best
    &&& forall|j: int| 0 <= j < sorted.len() ==> #[trigger] sorted[j] <= best
    &&& exact ==> forall|j: int|
        0 <= j < sorted.len() ==> #[trigger] upper_ok(
            v,
            player,
            depth,
            static_eval,
            all[order[j] as int],
            sorted[j],
        )
    &&& exact && BASE_ALPHA < best < BASE_BETA ==> action_value(
        v,
        player,
        depth,
        static_eval,
        all[order[best_at] as int],
    ) >= best
    &&& exact && best > BASE_ALPHA ==> search_value(v, player, depth, static_eval) >= best
    &&& exact && best < BASE_BETA ==> forall|j: int|
        0 <= j < sorted.len() ==> #[trigger] action_value(
            v,
            player,
            depth,
            static_eval,
            all[order[j] as int],
        ) <= best && !wins(v, all[order[j] as int])
}

/// What a root action's score gives, searched above `alpha`.
spec fn root_eval_ok(
    v: Seq<u64>,
    player: Player,
    depth: nat,
    static_eval: int,
    action: Action,
    alpha: Score,
    eval: Score,
    exact: bool,
) -> bool {
    &&& -SCORE_BOUND <= eval <= SCORE_BOUND
    &&& wins(v, action) ==> eval == MAX_SCORE
    &&& exact && !wins(v, action) ==> {
        let value = action_value(v, player, depth, static_eval, action);
        &&& -MAX_SCORE <= eval <= MAX_SCORE
        &&& (eval > alpha ==> value >= eval)
        &&& (eval < BASE_BETA ==> value <= eval)
    }
}

/// The state after the first action's score, searched above the base alpha.
proof fn lemma_root_first(
    v: Seq<u64>,
    player: Player,
    depth: nat,
    static_eval: int,
    order: Seq<usize>,
    eval: Score,
    exact: bool,
)
    requires
        depth > 0,
        order.len() > 0,
        0 <= order[0] < player_actions(v, player).len(),
        root_eval_ok(v, player, depth, static_eval, player_actions(v, player)[order[0] as int], BASE_ALPHA, eval, exact),
    ensures
        root_state(v, player, depth, static_eval, order, Seq::<Score>::empty().push(eval), eval as int, 0, exact),
{
    reveal(root_state);
    let all = player_actions(v, player);
    let action = all[order[0] as int];
    let sorted = Seq::<Score>::empty().push(eval);
    if exact && !wins(v, action) && !has_winning_action(v, all) {
        lemma_value_of_action(v, player, depth, static_eval, order[0] as int);
    }
    if exact && wins(v, action) {
        assert(has_winning_action(v, all));
    }
    assert forall|j: int| 0 <= j < sorted.len() implies #[trigger] sorted[j] <= eval by {}
}

/// What the scores give where the search is exact holds where it is not.
proof fn lemma_root_state_weaken(
    v: Seq<u64>,
    player: Player,
    depth: nat,
    static_eval: int,
    order: Seq<usize>,
    sorted: Seq<Score>,
    best: int,
    best_at: int,
)
    requires
        root_state(v, player, depth, static_eval, order, sorted, best, best_at, true),
    ensures
        root_state(v, player, depth, static_eval, order, sorted, best, best_at, false),
{
    reveal(root_state);
}

/// The state after an action left unsearched after a cutoff.
proof fn lemma_root_skip(
    v: Seq<u64>,
    player: Player,
    depth: nat,
    static_eval: int,
    order: Seq<usize>,
    sorted: Seq<Score>,
    best: int,
    best_at: int,
    exact: bool,
)
    requires
        root_state(v, player, depth, static_eval, order, sorted, best, best_at, exact),
        best > BASE_BETA,
    ensures
        root_state(v, player, depth, static_eval, order, sorted.push(i16::MIN), best, best_at, exact),
{
    reveal(root_state);
    let s2 = sorted.push(i16::MIN);
    assert forall|j: int| 0 <= j < s2.len() implies #[trigger] s2[j] <= best by {
        if j < sorted.len() {
            assert(s2[j] == sorted[j]);
        }
    }
    if exact {
        let all = player_actions(v, player);
        assert forall|j: int| 0 <= j < s2.len() implies #[trigger] upper_ok(
            v,
            player,
            depth,
            static_eval,
            all[order[j] as int],
            s2[j],
        ) by {
            if j < sorted.len() {
                assert(s2[j] == sorted[j]);
            }
        }
    }
}

/// The state after the score `eval` of the next action, searched above
/// `alpha_current`: the new best score and where it is first reached.
proof fn lemma_root_step(
    v: Seq<u64>,
    player: Player,
    depth: nat,
    static_eval: int,
    order: Seq<usize>,
    sorted: Seq<Score>,
    best: int,
    best_at: int,
    exact: bool,
    eval: Score,
    alpha_current: Score,
) -> (res: (int, int))
    requires
        depth > 0,
        root_state(v, player, depth, static_eval, order, sorted, best, best_at, exact),
        sorted.len() < order.len(),
        0 <= order[sorted.len() as int] < player_actions(v, player).len(),
        best <= BASE_BETA,
        alpha_current >= BASE_ALPHA && alpha_current >= best,
        alpha_current == BASE_ALPHA || alpha_current == best,
        root_eval_ok(
            v,
            player,
            depth,
            static_eval,
            player_actions(v, player)[order[sorted.len() as int] as int],
            alpha_current,
            eval,
            exact,
        ),
    ensures
        res.0 == (if eval > best { eval as int } else { best }),
        res.1 == (if eval > best { sorted.len() as int } else { best_at }),
        root_state(v, player, depth, static_eval, order, sorted.push(eval), res.0, res.1, exact),
{
    reveal(root_state);
    let all = player_actions(v, player);
    let k = sorted.len() as int;
    let action = all[order[k] as int];
    let s2 = sorted.push(eval);
    let nb = if eval > best { eval as int } else { best };
    let nba = if eval > best { k } else { best_at };
    if exact && !wins(v, action) && !has_winning_action(v, all) {
        lemma_value_of_action(v, player, depth, static_eval, order[k] as int);
    }
    if exact && wins(v, action) {
        assert(has_winning_action(v, all));
    }
    assert(s2[k] == eval);
    assert forall|j: int| 0 <= j < s2.len() implies #[trigger] s2[j] <= nb by {
        if j < k {
            assert(s2[j] == sorted[j]);
        }
    }
    if exact {
        assert forall|j: int| 0 <= j < s2.len() implies #[trigger] upper_ok(
            v,
            player,
            depth,
            static_eval,
            all[order[j] as int],
            s2[j],
        ) by {
            if j < k {
                assert(s2[j] == sorted[j]);
            }
        }
        if nb < BASE_BETA {
            assert forall|j: int| 0 <= j < s2.len() implies #[trigger] action_value(
                v,
                player,
                depth,
                static_eval,
                all[order[j] as int],
            ) <= nb && !wins(v, all[order[j] as int]) by {
                if j < k {
                    assert(best < BASE_BETA);
                }
            }
        }
    }
    (nb, nba)
}

/// The score `e` found for the action `a` at the root bounds its value from
/// above when it is below the base beta (and is not the mark of an action left
/// unsearched after a cutoff).
pub open spec fn upper_ok(v: Seq<u64>, player: Player, depth: nat, static_eval: int, a: Action, e: Score) -> bool {
    e < BASE_BETA && e != i16::MIN ==> action_value(v, player, depth, static_eval, a) <= e
}

/// `score` is the greatest of `scores`, first reached at the position of `action` among `actions`.
pub open spec fn best_of(actions: Seq<Action>, scores: Seq<Score>, action: Action, score: Score) -> bool {
    exists|i: int|
        0 <= i < actions.len() && i < scores.len() && #[trigger] actions[i] == action && scores[i]
            == score && (forall|j: int| 0 <= j < scores.len() ==> #[trigger] scores[j] <= score)
            && (forall|j: int| 0 <= j < i ==> #[trigger] scores[j] < score)
}

/// Returns the best move at a given depth
///
/// `scores` are the scores of the available actions at the previous depth, if
/// any: the actions are searched from the best to the worst of them. Returns
/// the best action with its score and the scores of all the available actions.
pub fn search_root(
    board: &Board,
    current_player: Player,
    depth: u64,
    end_time: &Option<Instant>,
    scores: &Option<Vec<Score>>,
    transposition_table: &mut Option<SearchTable>,
) -> (r: Option<(Action, Score, Vec<Score>)>)
    requires
        board_wf(board@),
        current_player <= 1,
        table_ok(*old(transposition_table)),
        scores matches Some(s) ==> s@.len() == player_actions(board@, current_player).len(),
    ensures
        table_ok(*final(transposition_table)),
        final(transposition_table).is_some() == old(transposition_table).is_some(),
        depth == 0 || player_actions(board@, current_player).len() == 0 ==> r is None,
        depth > 0 && end_time.is_none() && player_actions(board@, current_player).len() > 0
            ==> r is Some,
        r matches Some(res) ==> res.2@.len() == player_actions(board@, current_player).len()
            && best_of(player_actions(board@, current_player), res.2@, res.0, res.1),
        end_time.is_none() && old(transposition_table).is_none() ==> (r matches Some(res)
            ==> fail_soft(
            res.1 as int,
            search_value(board@, current_player, depth as nat, position_score(board@)),
            BASE_ALPHA as int,
            BASE_BETA as int,
        )),
        end_time.is_none() && old(transposition_table).is_none() ==> (r matches Some(res) ==> (
        forall|i: int|
            0 <= i < res.2@.len() ==> #[trigger] upper_ok(
                board@,
                current_player,
                depth as nat,
                position_score(board@),
                player_actions(board@, current_player)[i],
                res.2@[i],
            ))),
        end_time.is_none() && old(transposition_table).is_none() ==> (r matches Some(res) ==> (
        BASE_ALPHA < res.1 < BASE_BETA && (forall|i: int|
            0 <= i < res.2@.len() && res.2@[i] == res.1 ==> player_actions(board@, current_player)[i]
                == res.0) ==> action_value(
            board@,
            current_player,
            depth as nat,
            position_score(board@),
            res.0,
        ) == res.1)),
{
    let mut fired = false;
    search_root_clocked(board, current_player, depth, end_time, scores, transposition_table, &mut fired)
}

/// The search of [`search_root`], which records in `fired` whether a check of
/// the clock found the time up; the results are exact where none did (and no
/// table was given).
#[verifier::rlimit(100)]
#[verifier::spinoff_prover]
pub fn search_root_clocked(
    board: &Board,
    current_player: Player,
    depth: u64,
    end_time: &Option<Instant>,
    scores: &Option<Vec<Score>>,
    transposition_table: &mut Option<SearchTable>,
    fired: &mut bool,
) -> (r: Option<(Action, Score, Vec<Score>)>)
    requires
        board_wf(board@),
        current_player <= 1,
        table_ok(*old(transposition_table)),
        scores matches Some(s) ==> s@.len() == player_actions(board@, current_player).len(),
    ensures
        *old(fired) ==> *final(fired),
        end_time.is_none() ==> *final(fired) == *old(fired),
        table_ok(*final(transposition_table)),
        final(transposition_table).is_some() == old(transposition_table).is_some(),
        depth == 0 || player_actions(board@, current_player).len() == 0 ==> r is None,
        depth > 0 && !*final(fired) && player_actions(board@, current_player).len() > 0
            ==> r is Some,
        r matches Some(res) ==> res.2@.len() == player_actions(board@, current_player).len()
            && best_of(player_actions(board@, current_player), res.2@, res.0, res.1),
        !*final(fired) && old(transposition_table).is_none() ==> (r matches Some(res)
            ==> fail_soft(
            res.1 as int,
            search_value(board@, current_player, depth as nat, position_score(board@)),
            BASE_ALPHA as int,
            BASE_BETA as int,
        )),
        !*final(fired) && old(transposition_table).is_none() ==> (r matches Some(res) ==> (
        forall|i: int|
            0 <= i < res.2@.len() ==> #[trigger] upper_ok(
                board@,
                current_player,
                depth as nat,
                position_score(board@),
                player_actions(board@, current_player)[i],
                res.2@[i],
            ))),
        !*final(fired) && old(transposition_table).is_none() ==> (r matches Some(res) ==> (
        BASE_ALPHA < res.1 < BASE_BETA && (forall|i: int|
            0 <= i < res.2@.len() && res.2@[i] == res.1 ==> player_actions(board@, current_player)[i]
                == res.0) ==> action_value(
            board@,
            current_player,
            depth as nat,
            position_score(board@),
            res.0,
        ) == res.1)),
{
    if depth == 0 {
        return None;
    }
    if check_clock(end_time, fired) {
        return None;
    }
    let ghost v = board@;

    // Get an array of all the available moves for the current player
    let available_actions = board.available_player_actions(current_player);
    let ghost all = available_actions@;
    let n_actions = available_actions.len();

    let order: Vec<usize> = match scores {
        Some(scores) => argsort(scores.as_slice(), true),
        None => {
            let mut order: Vec<usize> = Vec::new();
            let mut k: usize = 0;
            while k < n_actions
                invariant
                    k <= n_actions,
                    order@.len() == k,
                    forall|j: int| 0 <= j < k ==> #[trigger] order@[j] == j,
                decreases n_actions - k,
            {
                order.push(k);
                k += 1;
            }
            order
        },
    };
    proof {
        match scores {
            Some(s) => {
                lemma_reversed_order(s@, order@);
            },
            None => {
                assert forall|i: int| 0 <= i < n_actions implies #[trigger] order@.contains(i as usize) by {
                    assert(order@[i] == i as usize);
                }
            },
        }
    }
    if n_actions == 0 {
        return None;
    }
    proof {
        lemma_player_actions_ok(v, current_player, 45);
    }
    assert(order@.len() == n_actions);
    let alpha = BASE_ALPHA;
    let beta = BASE_BETA;
    let static_eval = evaluate_position(board);

    let mut scores_sorted: Vec<Score> = Vec::new();
    let first_action = available_actions.get(order[0]);
    proof {
        lemma_child(v, current_player, order@[0] as int, static_eval as int);
        assert(all[order@[0] as int] == first_action);
        assert(all.contains(first_action));
    }
    // Principal Variation Search: search the first move with the full window, search subsequent moves with a null window first then if they fail high, search them with a full window
    let first_eval = search_root_action(
        board,
        current_player,
        depth,
        first_action,
        alpha,
        true,
        end_time,
        transposition_table,
        static_eval,
        fired,
    );
    let ghost table_none = old(transposition_table).is_none();
    let ghost exact = table_none && !*fired;
    scores_sorted.push(first_eval);
    proof {
        assert(scores_sorted@ == Seq::<Score>::empty().push(first_eval));
        lemma_root_first(v, current_player, depth as nat, static_eval as int, order@, first_eval, exact);
    }
    let ghost mut best: int = first_eval as int;
    let ghost mut best_at: int = 0;
    let mut alpha_current = if alpha > first_eval {
        alpha
    } else {
        first_eval
    };
    // This will stop iteration if there is a cutoff
    let mut cut = alpha_current > beta;
    let mut k: usize = 1;
    while k < n_actions
        invariant
            table_none == old(transposition_table).is_none(),
            *old(fired) ==> *fired,
            end_time.is_none() ==> *fired == *old(fired),
            forall|a: int, b: int| 0 <= a < b < order@.len() ==> order@[a] != order@[b],
            forall|i: int| 0 <= i < n_actions ==> #[trigger] order@.contains(i as usize),
            -SCORE_BOUND <= best <= SCORE_BOUND,
            eval_moderate(v, static_eval as int),
            root_state(
                v,
                current_player,
                depth as nat,
                static_eval as int,
                order@,
                scores_sorted@,
                best,
                best_at,
                table_none && !*fired,
            ),
            alpha_current >= BASE_ALPHA && alpha_current >= best,
            alpha_current == BASE_ALPHA || alpha_current == best,
            cut == (best > beta),
            v == board@,
            board_wf(v),
            current_player <= 1,
            depth > 0,
            static_eval == crate::search::eval::position_score(v),
            all == player_actions(v, current_player),
            available_actions@ == all,
            n_actions == all.len(),
            order@.len() == n_actions,
            forall|j: int| 0 <= j < n_actions ==> #[trigger] order@[j] < n_actions,
            1 <= k <= n_actions,
            scores_sorted@.len() == k,
            beta == BASE_BETA,
            -SCORE_BOUND <= alpha_current <= SCORE_BOUND,
            table_ok(*transposition_table),
            transposition_table.is_some() == old(transposition_table).is_some(),
        decreases n_actions - k,
    {
        if cut {
            proof {
                lemma_root_skip(
                    v,
                    current_player,
                    depth as nat,
                    static_eval as int,
                    order@,
                    scores_sorted@,
                    best,
                    best_at,
                    table_none && !*fired,
                );
            }
            scores_sorted.push(i16::MIN);
        } else {
            let action = available_actions.get(order[k]);
            proof {
                lemma_child(v, current_player, order@[k as int] as int, static_eval as int);
                assert(all[order@[k as int] as int] == action);
                assert(all.contains(action));
            }
            let ghost fired_before = *fired;
            let eval = search_root_action(
                board,
                current_player,
                depth,
                action,
                alpha_current,
                false,
                end_time,
                transposition_table,
                static_eval,
                fired,
            );
            proof {
                if table_none && !fired_before && *fired {
                    lemma_root_state_weaken(
                        v,
                        current_player,
                        depth as nat,
                        static_eval as int,
                        order@,
                        scores_sorted@,
                        best,
                        best_at,
                    );
                }
                let (nb, nba) = lemma_root_step(
                    v,
                    current_player,
                    depth as nat,
                    static_eval as int,
                    order@,
                    scores_sorted@,
                    best,
                    best_at,
                    table_none && !*fired,
                    eval,
                    alpha_current,
                );
                best = nb;
                best_at = nba;
            }
            alpha_current = if alpha_current > eval {
                alpha_current
            } else {
                eval
            };
            // Cutoff
            if eval > beta {
                cut = true;
            }
            scores_sorted.push(eval);
        }
        k += 1;
    }

    if check_clock(end_time, fired) {
        return None;
    }

    let scores_vec = reverse_argsort(scores_sorted.as_slice(), order.as_slice());
    proof {
        lemma_unsorted_len(scores_sorted@, order@, n_actions as int);
    }
    let mut best_index: usize = 0;
    let mut best_score = scores_vec[0];
    let mut i: usize = 1;
    while i < n_actions
        invariant
            scores_vec@.len() == n_actions,
            1 <= i <= n_actions,
            best_index < i,
            best_score == scores_vec@[best_index as int],
            forall|j: int| 0 <= j < i ==> #[trigger] scores_vec@[j] <= best_score,
            forall|j: int| 0 <= j < best_index ==> #[trigger] scores_vec@[j] < best_score,
        decreases n_actions - i,
    {
        if scores_vec[i] > best_score {
            best_score = scores_vec[i];
            best_index = i;
        }
        i += 1;
    }
    let best_action = available_actions.get(best_index);
    proof {
        assert(all[best_index as int] == best_action);
        assert(best_of(all, scores_vec@, best_action, best_score));
        lemma_root_result(
            v,
            current_player,
            depth as nat,
            static_eval as int,
            order@,
            scores_sorted@,
            scores_vec@,
            best,
            best_at,
            best_index as int,
            best_score,
            table_none && !*fired,
        );
    }
    Some((best_action, best_score, scores_vec))
}

/// What the scores found at the root give: the best score is the greatest
/// one searched, a fail-soft bound of the position's value; every score below
/// the base beta bounds its action's value from above; and the best score,
/// strictly inside the base window and reached by its action alone, is that
/// action's value.
proof fn lemma_root_result(
    v: Seq<u64>,
    player: Player,
    depth: nat,
    static_eval: int,
    order: Seq<usize>,
    sorted: Seq<Score>,
    scores: Seq<Score>,
    best: int,
    best_at: int,
    ib: int,
    best_score: Score,
    exact: bool,
)
    requires
        depth > 0,
        player_actions(v, player).len() > 0,
        order.len() == player_actions(v, player).len(),
        order.len() <= usize::MAX,
        sorted.len() == order.len(),
        forall|a: int, b: int| 0 <= a < b < order.len() ==> order[a] != order[b],
        forall|k: int| 0 <= k < order.len() ==> #[trigger] order[k] < order.len(),
        forall|i: int| 0 <= i < order.len() ==> #[trigger] order.contains(i as usize),
        scores == unsorted(sorted, order, order.len() as int),
        scores.len() == order.len(),
        0 <= ib < scores.len(),
        scores[ib] == best_score,
        forall|j: int| 0 <= j < scores.len() ==> #[trigger] scores[j] <= best_score,
        root_state(v, player, depth, static_eval, order, sorted, best, best_at, exact),
    ensures
        best_score == best,
        exact ==> fail_soft(
            best_score as int,
            search_value(v, player, depth, static_eval),
            BASE_ALPHA as int,
            BASE_BETA as int,
        ),
        exact ==> forall|w: int|
            0 <= w < scores.len() ==> #[trigger] upper_ok(
                v,
                player,
                depth,
                static_eval,
                player_actions(v, player)[w],
                scores[w],
            ),
        exact && BASE_ALPHA < best_score < BASE_BETA && (forall|w: int|
            0 <= w < scores.len() && scores[w] == best_score ==> player_actions(v, player)[w]
                == player_actions(v, player)[ib]) ==> action_value(
            v,
            player,
            depth,
            static_eval,
            player_actions(v, player)[ib],
        ) == best_score,
{
    reveal(root_state);
    let all = player_actions(v, player);
    let n = order.len() as int;
    assert forall|j: int| 0 <= j < n implies #[trigger] scores[order[j] as int] == sorted[j] by {
        lemma_unsorted_at(sorted, order, n, j);
    }
    assert(scores[order[best_at] as int] == best);
    assert(order.contains(ib as usize));
    let kb = choose|j: int| 0 <= j < n && #[trigger] order[j] == ib as usize;
    assert(order[kb] as int == ib);
    assert(scores[order[kb] as int] == sorted[kb]);
    assert(best_score == best);
    if exact && best < BASE_BETA {
        assert(!has_winning_action(v, all)) by {
            if has_winning_action(v, all) {
                let w = choose|w: int| 0 <= w < all.len() && wins(v, #[trigger] all[w]);
                assert(order.contains(w as usize));
                let j = choose|j: int| 0 <= j < n && #[trigger] order[j] == w;
                assert(action_value(v, player, depth, static_eval, all[order[j] as int]) <= best);
                assert(!wins(v, all[order[j] as int]));
            }
        }
        let values = action_values(v, player, depth, static_eval);
        assert forall|w: int| 0 <= w < all.len() implies #[trigger] values[w] <= best by {
            assert(order.contains(w as usize));
            let j = choose|j: int| 0 <= j < n && #[trigger] order[j] == w;
            assert(action_value(v, player, depth, static_eval, all[order[j] as int]) <= best);
        }
        lemma_max_from(values, -MAX_SCORE as int, best);
    }
    if exact {
        assert forall|w: int| 0 <= w < scores.len() implies #[trigger] upper_ok(
            v,
            player,
            depth,
            static_eval,
            all[w],
            scores[w],
        ) by {
            assert(order.contains(w as usize));
            let j = choose|j: int| 0 <= j < n && #[trigger] order[j] == w;
            assert(upper_ok(v, player, depth, static_eval, all[order[j] as int], sorted[j]));
        }
        if BASE_ALPHA < best_score < BASE_BETA && (forall|w: int|
            0 <= w < scores.len() && scores[w] == best_score ==> all[w] == all[ib]) {
            let w = order[best_at] as int;
            assert(scores[w] == best_score);
            assert(all[w] == all[ib]);
            assert(upper_ok(v, player, depth, static_eval, all[ib], scores[ib]));
        }
    }
}

/// The milliseconds elapsed since `start`, at most `u64::MAX`.
fn elapsed_millis(start: &Instant) -> u64 {
    let duration = elapsed(start);
    let millis = as_millis(&duration);
    if millis > u64::MAX as u128 {
        u64::MAX
    } else {
        millis as u64
    }
}

/// The information line on a search result: `info depth <depth> time <ms> score <score> pv <action>`.
pub open spec fn depth_info(depth: u64, millis: u64, score: Score, pv: Seq<char>) -> Seq<char> {
    "info depth "@ + decimal_chars(depth as nat) + " time "@ + decimal_chars(millis as nat)
        + " score "@ + signed_decimal_chars(score as int) + " pv "@ + pv
}

fn depth_info_line(depth: u64, millis: u64, score: Score, pv: &String) -> (r: String)
    ensures
        r@ == depth_info(depth, millis, score, pv@),
{
    let mut line = String::new();
    push_text(&mut line, "info depth ");
    push_decimal(&mut line, depth);
    push_text(&mut line, " time ");
    push_decimal(&mut line, millis);
    push_text(&mut line, " score ");
    push_signed(&mut line, score as i64);
    push_text(&mut line, " pv ");
    push_text(&mut line, pv.as_str());
    assert(line@ =~= depth_info(depth, millis, score, pv@));
    line
}

fn count_line(prefix: &str, n: u64) -> (r: String)
    ensures
        r@ == prefix@ + decimal_chars(n as nat),
{
    let mut line = String::new();
    push_text(&mut line, prefix);
    push_decimal(&mut line, n);
    line
}

/// `score` is what a search from the root `depth` moves deep may return: with
/// the base window, a fail-soft bound of the value of the position.
pub open spec fn root_bound(v: Seq<u64>, player: Player, score: Score, depth: nat) -> bool {
    fail_soft(
        score as int,
        search_value(v, player, depth, position_score(v)),
        BASE_ALPHA as int,
        BASE_BETA as int,
    )
}

/// The score found for the action `a` at the root bounds its value from above
/// when it is inside the base window.
pub open spec fn root_action_bound(v: Seq<u64>, player: Player, a: Action, score: Score, depth: nat) -> bool {
    BASE_ALPHA <= score < BASE_BETA ==> action_value(v, player, depth, position_score(v), a) <= score
}

/// Returns the best move by searching up to the chosen depth.
///
/// The search starts at depth 1 and the depth increases until the chosen depth is reached or a winning move is found.
/// The results at lower depths are used to sort the search order at higher depths.
pub fn search_iterative(
    board: &Board,
    current_player: Player,
    max_depth: u64,
    end_time: &Option<Instant>,
    verbose: bool,
    transposition_table: &mut Option<SearchTable>,
    info: &mut Vec<String>,
) -> (r: Option<(Action, Score)>)
    requires
        board_wf(board@),
        current_player <= 1,
        table_ok(*old(transposition_table)),
    ensures
        table_ok(*final(transposition_table)),
        final(transposition_table).is_some() == old(transposition_table).is_some(),
        !verbose ==> final(info)@ == old(info)@,
        r matches Some(res) ==> player_actions(board@, current_player).contains(res.0),
        max_depth > 0 && end_time.is_none() && player_actions(board@, current_player).len() > 0
            ==> r is Some,
        max_depth == 0 ==> r is None,
        end_time.is_none() && old(transposition_table).is_none() ==> (r matches Some(res) ==> (
        exists|d: nat| 1 <= d <= max_depth && #[trigger] root_bound(board@, current_player, res.1, d))
            && (BASE_ALPHA <= res.1 <= BASE_BETA ==> root_bound(
            board@,
            current_player,
            res.1,
            max_depth as nat,
        ) && root_action_bound(board@, current_player, res.0, res.1, max_depth as nat))),
{
    let mut depth_done: u64 = 0;
    search_iterative_clocked(
        board,
        current_player,
        max_depth,
        end_time,
        verbose,
        transposition_table,
        info,
        &mut depth_done,
    )
}

/// The search of [`search_iterative`], which sets `depth_done` to the last
/// depth whose search ended before the time was up: a depth whose search found
/// the time up ends the search, its incomplete result left aside. Without a
/// table, the result is that of the searches up to `depth_done`, whatever the
/// clock gave.
#[verifier::rlimit(60)]
pub fn search_iterative_clocked(
    board: &Board,
    current_player: Player,
    max_depth: u64,
    end_time: &Option<Instant>,
    verbose: bool,
    transposition_table: &mut Option<SearchTable>,
    info: &mut Vec<String>,
    depth_done: &mut u64,
) -> (r: Option<(Action, Score)>)
    requires
        board_wf(board@),
        current_player <= 1,
        table_ok(*old(transposition_table)),
    ensures
        table_ok(*final(transposition_table)),
        final(transposition_table).is_some() == old(transposition_table).is_some(),
        !verbose ==> final(info)@ == old(info)@,
        r matches Some(res) ==> player_actions(board@, current_player).contains(res.0),
        *final(depth_done) <= max_depth,
        r is Some ==> *final(depth_done) >= 1,
        *final(depth_done) >= 1 && player_actions(board@, current_player).len() > 0 ==> r is Some,
        max_depth > 0 && end_time.is_none() && player_actions(board@, current_player).len() > 0
            ==> r is Some,
        max_depth == 0 ==> r is None,
        end_time.is_none() ==> (r matches Some(res) && BASE_ALPHA <= res.1 <= BASE_BETA
            ==> *final(depth_done) == max_depth),
        old(transposition_table).is_none() ==> (r matches Some(res) ==> (exists|d: nat|
            1 <= d <= *final(depth_done) && #[trigger] root_bound(board@, current_player, res.1, d))
            && (BASE_ALPHA <= res.1 <= BASE_BETA ==> root_bound(
            board@,
            current_player,
            res.1,
            *final(depth_done) as nat,
        ) && root_action_bound(board@, current_player, res.0, res.1, *final(depth_done) as nat))),
{
    let ghost all = player_actions(board@, current_player);
    let ghost table_none = old(transposition_table).is_none();
    let mut best_result: Option<(Action, Score)> = None;
    let mut last_scores: Option<Vec<Score>> = None;
    let start_time = now();
    *depth_done = 0;
    if max_depth == 0 {
        return None;
    }
    let mut depth: u64 = 1;
    loop
        invariant_except_break
            end_time.is_none() ==> *depth_done == depth - 1,
        invariant
            board_wf(board@),
            current_player <= 1,
            all == player_actions(board@, current_player),
            1 <= depth <= max_depth,
            *depth_done <= depth,
            table_ok(*transposition_table),
            transposition_table.is_some() == old(transposition_table).is_some(),
            table_none == old(transposition_table).is_none(),
            !verbose ==> info@ == old(info)@,
            best_result matches Some(res) ==> all.contains(res.0),
            last_scores matches Some(s) ==> s@.len() == all.len(),
            best_result is Some ==> *depth_done >= 1,
            *depth_done >= 1 && all.len() > 0 ==> best_result is Some,
            table_none ==> (best_result matches Some(res) ==> (exists|d: nat|
                1 <= d <= *depth_done && #[trigger] root_bound(board@, current_player, res.1, d)) && (
            BASE_ALPHA <= res.1 <= BASE_BETA ==> root_bound(
                board@,
                current_player,
                res.1,
                *depth_done as nat,
            ) && root_action_bound(board@, current_player, res.0, res.1, *depth_done as nat))),
        ensures
            table_ok(*transposition_table),
            transposition_table.is_some() == old(transposition_table).is_some(),
            !verbose ==> info@ == old(info)@,
            *depth_done <= max_depth,
            best_result matches Some(res) ==> all.contains(res.0),
            best_result is Some ==> *depth_done >= 1,
            *depth_done >= 1 && all.len() > 0 ==> best_result is Some,
            end_time.is_none() && all.len() > 0 ==> best_result is Some,
            end_time.is_none() ==> (best_result matches Some(res) && BASE_ALPHA <= res.1 <= BASE_BETA
                ==> *depth_done == max_depth),
            table_none ==> (best_result matches Some(res) ==> (exists|d: nat|
                1 <= d <= *depth_done && #[trigger] root_bound(board@, current_player, res.1, d)) && (
            BASE_ALPHA <= res.1 <= BASE_BETA ==> root_bound(
                board@,
                current_player,
                res.1,
                *depth_done as nat,
            ) && root_action_bound(board@, current_player, res.0, res.1, *depth_done as nat))),
        decreases max_depth - depth,
    {
        let mut fired = false;
        if check_clock(end_time, &mut fired) {
            break;
        }
        let proposed_action = search_root_clocked(
            board,
            current_player,
            depth,
            end_time,
            &last_scores,
            transposition_table,
            &mut fired,
        );
        let duration_ms = elapsed_millis(&start_time);
        if fired {
            // The time ran out during this depth: its result is incomplete
            break;
        }
        *depth_done = depth;
        match proposed_action {
            None => {},
            Some((action, score, scores)) => {
                proof {
                    let i = choose|i: int|
                        0 <= i < all.len() && i < scores@.len() && #[trigger] all[i] == action
                            && scores@[i] == score && (forall|j: int|
                            0 <= j < scores@.len() ==> #[trigger] scores@[j] <= score) && (forall|
                            j: int,
                        |
                            0 <= j < i ==> #[trigger] scores@[j] < score);
                    assert(all.contains(action));
                    lemma_player_actions_ok(board@, current_player, 45);
                    assert(action_ok(all[i]));
                    if table_none {
                        assert(root_bound(board@, current_player, score, depth as nat));
                        assert(upper_ok(
                            board@,
                            current_player,
                            depth as nat,
                            position_score(board@),
                            all[i],
                            scores@[i],
                        ));
                        assert(root_action_bound(board@, current_player, action, score, depth as nat));
                    }
                }
                if verbose {
                    let action_string = action_to_string(board, action);
                    info.push(depth_info_line(depth, duration_ms, score, &action_string));
                }
                if score < BASE_ALPHA {
                    if verbose {
                        let moves = if depth / 2 < 1 {
                            depth / 2
                        } else {
                            1
                        };
                        info.push(count_line("info loss in ", moves));
                    }
                    best_result = match best_result {
                        Some((last_action, _last_score)) => Some((last_action, score)),
                        None => Some((action, score)),
                    };
                    proof {
                        if let Some(res) = best_result {
                            if table_none {
                                assert(root_bound(board@, current_player, res.1, depth as nat));
                            }
                        }
                    }
                    break;
                }
                best_result = Some((action, score));
                last_scores = Some(scores);
                proof {
                    if let Some(res) = best_result {
                        if table_none {
                            assert(root_bound(board@, current_player, res.1, depth as nat));
                        }
                    }
                }
                if score > BASE_BETA {
                    if verbose {
                        if depth > 1 {
                            info.push(count_line("info mate in ", depth / 2));
                        } else {
                            let mut line = String::new();
                            push_text(&mut line, "info mate");
                            info.push(line);
                        }
                    }
                    break;
                }
            },
        }
        if depth == max_depth {
            break;
        }
        depth += 1;
    }
    best_result
}

} // verus!
