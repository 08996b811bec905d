use pijersi_rs::bitboard::Board;
use pijersi_rs::hash::position::HashTrait;
use pijersi_rs::hash::search::SearchTable;
use pijersi_rs::logic::rules::is_action_win;
use pijersi_rs::search::alphabeta::{
    read_transposition_table, search_iterative, search_iterative_clocked, search_node,
    search_node_clocked, search_root, search_root_clocked, sort_actions, write_transposition_table,
};
use pijersi_rs::search::eval::{evaluate_position, MAX_SCORE};
use pijersi_rs::search::NodeType;

/// Cells state for testing
/// startpos > a6b7 g5f5d6 b6a5b6 d6c6c6
///  s- p- r- s- .  r-
/// p- r- s- ww .  s- p-
///  .  .  .  .  .  .
/// .  .  .  .  .  .  .
///  .  .  .  .  .  pr
/// P- S- R- WW S- RP SP
///  R- P- S- R- .  .
const TEST_BOARD_2_STR: &str =
    "s-p-r-s-..r-p-r-s-ww..s-p-....................................prP-S-R-WWS-RPSPR-P-S-R-....";

fn start() -> Board {
    let mut board = Board::empty();
    board.init();
    board
}

/// The best action found at each depth is an action of the move generator.
#[test]
fn test_search_iterative_legal() {
    let board = start();
    let actions = board.available_player_actions(0).to_vec();
    for depth in 1..4 {
        let mut table: Option<SearchTable> = None;
        let mut info = Vec::new();
        let (action, score) =
            search_iterative(&board, 0, depth, &None, false, &mut table, &mut info).unwrap();
        assert!(actions.contains(&action));
        assert!(score.abs() <= MAX_SCORE);
        assert!(info.is_empty());
    }
}

/// Without a deadline, the clock never stops a search: every depth is searched
/// and the results are those of the searches without a clock.
#[test]
fn test_clocked_searches_without_deadline() {
    let board = start();
    let mut info = Vec::new();
    let mut depth_done: u64 = 0;
    let result =
        search_iterative_clocked(&board, 0, 2, &None, false, &mut None, &mut info, &mut depth_done);
    assert_eq!(depth_done, 2);
    assert_eq!(result, search_iterative(&board, 0, 2, &None, false, &mut None, &mut info));

    let mut fired = false;
    let root = search_root_clocked(&board, 0, 2, &None, &None, &mut None, &mut fired);
    assert!(!fired);
    assert_eq!(root, search_root(&board, 0, 2, &None, &None, &mut None));

    let score = evaluate_position(&board);
    let mut fired = false;
    let node = search_node_clocked(
        &board,
        0,
        2,
        (-8192, 8192),
        &None,
        NodeType::PV,
        &mut None,
        score,
        &mut fired,
    );
    assert!(!fired);
    assert_eq!(node, search_node(&board, 0, 2, (-8192, 8192), &None, NodeType::PV, &mut None, score));
}

/// The search takes the widest windows that it can negate: any window at
/// depth 0, every bound but the lowest at depth 1.
#[test]
fn test_search_node_wide_windows() {
    let board = start();
    let score = evaluate_position(&board);
    let quiet = search_node(&board, 0, 0, (i16::MIN, i16::MIN), &None, NodeType::PV, &mut None, score);
    assert_eq!(quiet, score);
    let wide = search_node(&board, 0, 1, (-i16::MAX, i16::MAX), &None, NodeType::PV, &mut None, score);
    let base = search_node(&board, 0, 1, (-8192, 8192), &None, NodeType::PV, &mut None, score);
    assert_eq!(wide, base);
    let deep = search_node(&board, 0, 2, (-i16::MAX, i16::MAX - 1), &None, NodeType::PV, &mut None, score);
    let deep_base = search_node(&board, 0, 2, (-8192, 8192), &None, NodeType::PV, &mut None, score);
    assert_eq!(deep, deep_base);
}

/// The table's entries keep the node type the search expected, not the bound
/// the score turned out to be, so a search with the table can give another
/// score than the search without it: here 3 where the position's value is 4.
#[test]
fn test_table_search_can_differ() {
    let mut board = start();
    let actions = board.available_player_actions(0).to_vec();
    board.play_action(actions[5 % actions.len()]);
    let actions = board.available_player_actions(1).to_vec();
    board.play_action(actions[22 % actions.len()]);
    let mut info = Vec::new();
    let mut table: Option<SearchTable> = Some(SearchTable::with_buckets(1 << 14));
    let with_table = search_iterative(&board, 0, 2, &None, false, &mut table, &mut info);
    let without_table = search_iterative(&board, 0, 2, &None, false, &mut None, &mut info);
    assert_eq!(without_table, Some((1319465, 4)));
    assert_eq!(with_table, Some((1319465, 3)));
}

/// After a search, the table holds for the position the score found, at the
/// depth searched.
#[test]
fn test_search_node_stores_its_score() {
    let board = start();
    let score = evaluate_position(&board);
    let mut table: Option<SearchTable> = Some(SearchTable::with_buckets(1 << 14));
    let r = search_node(&board, 0, 2, (-8192, 8192), &None, NodeType::PV, &mut table, score);
    let hash = (&board, 0u8).hash();
    let entry = read_transposition_table(hash, &table).unwrap();
    assert_eq!((entry.1, entry.2), (2, r));
}

/// A deadline already passed stops the search before its first depth.
#[test]
fn test_clocked_search_past_deadline() {
    let board = start();
    let mut info = Vec::new();
    let mut depth_done: u64 = 7;
    let now = std::time::Instant::now();
    let deadline = Some(now.checked_sub(std::time::Duration::from_secs(1)).unwrap_or(now));
    let result =
        search_iterative_clocked(&board, 0, 3, &deadline, false, &mut None, &mut info, &mut depth_done);
    assert_eq!(depth_done, 0);
    assert_eq!(result, None);
}

/// With the verbose option, each depth gives an information line.
#[test]
fn test_search_iterative_info() {
    let board = start();
    let mut table: Option<SearchTable> = Some(SearchTable::with_buckets(1024));
    let mut info = Vec::new();
    let result = search_iterative(&board, 0, 2, &None, true, &mut table, &mut info);
    assert!(result.is_some());
    assert_eq!(info.len(), 2);
    assert!(info[0].starts_with("info depth 1 time "));
    assert!(info[1].starts_with("info depth 2 time "));
}

/// The search at the root gives the score of every action, and the best one.
#[test]
fn test_search_root_scores() {
    let board = start();
    let n = board.available_player_actions(0).len();
    let mut table: Option<SearchTable> = None;
    let (action, score, scores) = search_root(&board, 0, 1, &None, &None, &mut table).unwrap();
    assert_eq!(scores.len(), n);
    let best = *scores.iter().max().unwrap();
    assert_eq!(score, best);
    let index = scores.iter().position(|&s| s == best).unwrap();
    assert_eq!(board.available_player_actions(0).to_vec()[index], action);
    assert!(search_root(&board, 0, 0, &None, &None, &mut table).is_none());
    assert!(search_root(&Board::empty(), 0, 2, &None, &None, &mut table).is_none());
}

/// A position with a winning action is scored as a win.
#[test]
fn test_search_finds_win() {
    let board = Board::try_from(TEST_BOARD_2_STR).unwrap();
    let actions = board.available_player_actions(1).to_vec();
    let winning: Vec<u32> = actions
        .iter()
        .copied()
        .filter(|&a| is_action_win(&board, a))
        .collect();
    assert!(!winning.is_empty());
    let mut table: Option<SearchTable> = None;
    let score = search_node(
        &board,
        1,
        2,
        (-8192, 8192),
        &None,
        NodeType::PV,
        &mut table,
        evaluate_position(&board),
    );
    assert_eq!(score, MAX_SCORE);
    assert!(actions.contains(&2893087));
}

/// A player without actions has lost.
#[test]
fn test_search_node_no_actions() {
    let board = Board::empty();
    let mut table: Option<SearchTable> = None;
    let score = search_node(&board, 0, 3, (-8192, 8192), &None, NodeType::PV, &mut table, 0);
    assert_eq!(score, -MAX_SCORE);
}

/// Sorting keeps the actions, puts the table's action first and returns a winning action.
#[test]
fn test_sort_actions() {
    let board = start();
    let mut actions = board.available_player_actions(0);
    let before = actions.to_vec();
    let table_action = before[10];
    let result = sort_actions(&board, 0, Some(table_action), &mut actions);
    assert!(result.is_none());
    let after = actions.to_vec();
    assert_eq!(after[0], table_action);
    let mut a = before.clone();
    let mut b = after.clone();
    a.sort();
    b.sort();
    assert_eq!(a, b);

    let board2 = Board::try_from(TEST_BOARD_2_STR).unwrap();
    let mut actions2 = board2.available_player_actions(1);
    let found = sort_actions(&board2, 1, None, &mut actions2).unwrap();
    assert!(is_action_win(&board2, found));
}

/// The transposition table gives back what was written for a hash.
#[test]
fn test_transposition_table() {
    let mut table: Option<SearchTable> = Some(SearchTable::with_buckets(16));
    assert_eq!(read_transposition_table(12345, &table), None);
    write_transposition_table(12345, 1448995, 3, -42, NodeType::Cut, &mut table);
    assert_eq!(
        read_transposition_table(12345, &table),
        Some((1448995, 3, -42, NodeType::Cut))
    );
    let mut none: Option<SearchTable> = None;
    write_transposition_table(12345, 1448995, 3, -42, NodeType::Cut, &mut none);
    assert_eq!(read_transposition_table(12345, &none), None);
}

/// Any score can be stored and read back, the ends of the range included.
#[test]
fn test_transposition_table_extreme_scores() {
    let mut table: Option<SearchTable> = Some(SearchTable::with_buckets(16));
    write_transposition_table(777, 1448995, 2, i16::MIN, NodeType::All, &mut table);
    assert_eq!(read_transposition_table(777, &table), Some((1448995, 2, i16::MIN, NodeType::All)));
    write_transposition_table(777, 1769248, 3, i16::MAX, NodeType::PV, &mut table);
    assert_eq!(read_transposition_table(777, &table), Some((1769248, 3, i16::MAX, NodeType::PV)));
}

/// A search result inside its window is the value of the position: searching
/// again with a window around it or beside it gives it back or a bound next to it.
#[test]
fn test_search_node_window_bounds() {
    let middle_stack = Board::try_from(
        "s-p-r-s-..r-p-r-s-ww..s-p-......................pr..............P-S-R-WWS-R-SPR-P-S-R-P-..",
    )
    .unwrap();
    for (board, player) in [(start(), 0u8), (middle_stack, 0u8), (middle_stack, 1u8)] {
        let static_eval = evaluate_position(&board);
        let search = |window: (i16, i16)| {
            let mut table: Option<SearchTable> = None;
            search_node(&board, player, 2, window, &None, NodeType::PV, &mut table, static_eval)
        };
        let value = search((-8192, 8192));
        assert!(-8192 < value && value < 8192);
        assert_eq!(search((value - 1, value + 1)), value);
        let above = search((value + 1, value + 10));
        assert!(value <= above && above <= value + 1);
        let below = search((value - 10, value - 1));
        assert!(value - 1 <= below && below <= value);
    }
}

/// The score of the best action at the root is the value that a search of the
/// position itself finds.
#[test]
fn test_search_root_matches_node() {
    let board = start();
    for depth in 1..3 {
        let mut table: Option<SearchTable> = None;
        let (_action, score, _scores) =
            search_root(&board, 0, depth, &None, &None, &mut table).unwrap();
        let mut table: Option<SearchTable> = None;
        let value = search_node(
            &board,
            0,
            depth,
            (-8192, 8192),
            &None,
            NodeType::PV,
            &mut table,
            evaluate_position(&board),
        );
        assert_eq!(score, value);
    }
}

/// A second write for a position replaces the first only when it is deeper,
/// or as deep and of a PV node.
#[test]
fn test_transposition_table_replacement() {
    let mut table: Option<SearchTable> = Some(SearchTable::with_buckets(16));
    write_transposition_table(99, 1448995, 3, 7, NodeType::All, &mut table);
    write_transposition_table(99, 1769248, 2, 8, NodeType::PV, &mut table);
    assert_eq!(read_transposition_table(99, &table), Some((1448995, 3, 7, NodeType::All)));
    write_transposition_table(99, 1769248, 5, 9, NodeType::Cut, &mut table);
    assert_eq!(read_transposition_table(99, &table), Some((1769248, 5, 9, NodeType::Cut)));
    assert_eq!(read_transposition_table(0, &table), None);
}
