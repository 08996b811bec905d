use pijersi_rs::bitboard::Board;
use pijersi_rs::logic::perft::{perft, perft_player_actions, perft_split};

#[test]
fn test_count_player_actions() {
    let mut board = Board::empty();
    board.init();
    assert_eq!(board.count_player_actions(0), 186);
    assert_eq!(perft_player_actions(&board, 0, 2), 34054);
    assert_eq!(perft_player_actions(&board, 0, 3), 6_410_472);
}

#[test]
fn perft_test_perft() {
    let mut board = Board::empty();
    board.init();
    assert_eq!(perft(&board, 0, 1), 186);
    assert_eq!(perft(&board, 0, 2), 34054);
    assert_eq!(perft(&board, 0, 3), 6_410_472);
    assert_eq!(perft(&board, 0, 4), 1_181_445_032);
}

#[test]
fn test_perft_split() {
    let mut board = Board::empty();
    board.init();
    assert_eq!(
        perft_split(&board, 0, 1)
            .iter()
            .map(|result| result.2)
            .sum::<u64>(),
        186
    );
    assert_eq!(
        perft_split(&board, 0, 2)
            .iter()
            .map(|result| result.2)
            .sum::<u64>(),
        34054
    );
    assert_eq!(
        perft_split(&board, 0, 3)
            .iter()
            .map(|result| result.2)
            .sum::<u64>(),
        6_410_472
    );
    assert_eq!(
        perft_split(&board, 0, 4)
            .iter()
            .map(|result| result.2)
            .sum::<u64>(),
        1_181_445_032
    );
}

/// Perft at depth 0 counts the position itself; a split at depth 0 is empty.
#[test]
fn test_perft_depth_zero() {
    let mut board = Board::empty();
    board.init();
    assert_eq!(perft(&board, 0, 0), 1);
    assert!(perft_split(&board, 0, 0).is_empty());
    assert_eq!(perft(&Board::empty(), 0, 3), 0);
}

/// The split at depth 1 lists each action of the starting position once, with its notation.
#[test]
fn test_perft_split_entries() {
    let mut board = Board::empty();
    board.init();
    let split = perft_split(&board, 0, 1);
    assert_eq!(split.len(), 186);
    for (action_string, _action, count) in &split {
        assert_eq!(*count, 1);
        assert!(action_string.len() == 4 || action_string.len() == 6);
    }
}
