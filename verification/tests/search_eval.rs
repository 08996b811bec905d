use pijersi_rs::bitboard::Board;
use pijersi_rs::search::eval::{
    evaluate_cell, evaluate_position, evaluate_position_for_player,
    evaluate_position_incremental, quiescence_search, MAX_SCORE,
};
use pijersi_rs::piece::{BLACK_ROCK, BLACK_WISE, WHITE_PAPER, WHITE_ROCK, WHITE_WISE};

/// Cells state for testing
///  s- p- r- s- .  r-
/// p- r- s- ww .  s- p-
///  .  .  .  .  .  .
/// .  .  .  .  .  pr .
///  .  .  .  .  .  .
/// P- S- R- WW S- R- SP
///  R- P- S- R- P- .
const TEST_BOARD_STR: &str =
    "s-p-r-s-..r-p-r-s-ww..s-p-......................pr..............P-S-R-WWS-R-SPR-P-S-R-P-..";

/// A single piece is worth 10, a wise 8, plus the rows its owner advanced;
/// black pieces count negatively.
#[test]
fn test_evaluate_cell() {
    assert_eq!(evaluate_cell(0, 20), 0);
    assert_eq!(evaluate_cell(WHITE_ROCK, 39), 10);
    assert_eq!(evaluate_cell(WHITE_ROCK, 0), 16);
    assert_eq!(evaluate_cell(BLACK_ROCK, 0), -10);
    assert_eq!(evaluate_cell(BLACK_ROCK, 44), -16);
    assert_eq!(evaluate_cell(WHITE_WISE, 22), 11);
    assert_eq!(evaluate_cell(BLACK_WISE | (BLACK_WISE << 4), 9), -17);
    assert_eq!(evaluate_cell(WHITE_WISE | (WHITE_PAPER << 4), 35), 19);
}

/// The starting position is symmetric: its score is 0 for both players.
#[test]
fn test_evaluate_start() {
    let mut board = Board::empty();
    board.init();
    assert_eq!(evaluate_position(&board), 0);
    assert_eq!(evaluate_position_for_player(&board, 0), 0);
    assert_eq!(evaluate_position_for_player(&board, 1), 0);
    assert_eq!(evaluate_position(&Board::empty()), 0);
}

/// The score of a position is seen from each player with opposite signs.
#[test]
fn test_evaluate_for_player() {
    let board = Board::try_from(TEST_BOARD_STR).unwrap();
    let score = evaluate_position(&board);
    assert_eq!(evaluate_position_for_player(&board, 0), score);
    assert_eq!(evaluate_position_for_player(&board, 1), -score);
}

/// After every generated action, the score computed from the changed cells is
/// the score of the new board.
#[test]
fn test_incremental_matches_full_evaluation() {
    for board_string in [TEST_BOARD_STR] {
        let board = Board::try_from(board_string).unwrap();
        for player in 0..2u8 {
            let actions = board.available_player_actions(player).to_vec();
            assert!(!actions.is_empty());
            let score = evaluate_position(&board);
            for action in actions {
                let mut new_board = board;
                new_board.play_action(action);
                assert_eq!(
                    evaluate_position_incremental(&board, &new_board, action, score),
                    evaluate_position(&new_board)
                );
            }
        }
    }
}

/// Without captures, quiescence search returns the static evaluation of the player.
#[test]
fn test_quiescence_without_captures() {
    let mut board = Board::empty();
    board.init();
    assert!(board.available_player_captures(0).is_empty());
    assert!(board.available_player_captures_and_wins(0).is_empty());
    assert_eq!(quiescence_search(&board, 0, (-8192, 8192), 0), 0);
    assert_eq!(quiescence_search(&board, 1, (-8192, 8192), 5), -5);
    assert_eq!(quiescence_search(&board, 0, (i16::MIN, i16::MAX), 0), 0);
    assert_eq!(quiescence_search(&board, 1, (i16::MIN, i16::MIN), 5), -5);
}

/// With a capture that reaches the opposite home row, quiescence search finds the win.
#[test]
fn test_quiescence_winning_capture() {
    let board = Board::try_from("..........p-..........S-..................................................................").unwrap();
    assert!(!board.available_player_captures(0).is_empty());
    assert!(!board.available_player_captures_and_wins(0).is_empty());
    let score = evaluate_position(&board);
    let result = quiescence_search(&board, 0, (-8192, 8192), score);
    assert_eq!(result, MAX_SCORE);
    assert_eq!(quiescence_search(&board, 0, (i16::MIN, i16::MAX), score), MAX_SCORE);
}

/// Captures are legal actions that take a piece; the moves onto the far row
/// that take nothing come only with the winning moves.
#[test]
fn test_captures_and_winning_moves() {
    let board = Board::try_from("......................S-..................................................................").unwrap();
    let actions = board.available_player_actions(0).to_vec();
    assert!(board.available_player_captures(0).is_empty());
    let wins = board.available_player_captures_and_wins(0).to_vec();
    assert!(!wins.is_empty());
    for action in &wins {
        assert!(actions.contains(action));
    }

    let board = Board::try_from("..........p-..........S-..................................................................").unwrap();
    let actions = board.available_player_actions(0).to_vec();
    let captures = board.available_player_captures(0).to_vec();
    let wins = board.available_player_captures_and_wins(0).to_vec();
    assert!(!captures.is_empty());
    assert!(captures.len() < wins.len());
    for action in &captures {
        assert!(actions.contains(action));
        assert!(wins.contains(action));
    }
}

/// The quiescence result inside its window is the value of the position;
/// narrower windows give it back or a bound next to it.
#[test]
fn test_quiescence_window_bounds() {
    let board = Board::try_from(TEST_BOARD_STR).unwrap();
    for player in 0..2u8 {
        let static_eval = evaluate_position(&board);
        let value = quiescence_search(&board, player, (-8192, 8192), static_eval);
        assert!(-8192 < value && value < 8192);
        assert_eq!(quiescence_search(&board, player, (value - 1, value + 1), static_eval), value);
        let above = quiescence_search(&board, player, (value + 1, value + 10), static_eval);
        assert!(value <= above && above <= value + 1);
        let below = quiescence_search(&board, player, (value - 10, value - 1), static_eval);
        assert!(value - 1 <= below && below <= value);
    }
}

/// Any static evaluation within the greatest score is accepted; without a
/// capture it is the stand-pat score.
#[test]
fn test_quiescence_extreme_static() {
    let mut board = Board::empty();
    board.init();
    assert_eq!(quiescence_search(&board, 0, (-8192, 8192), MAX_SCORE), MAX_SCORE);
    assert_eq!(quiescence_search(&board, 1, (-8192, 8192), MAX_SCORE), -MAX_SCORE);
}
