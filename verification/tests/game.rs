use pijersi_rs::bitboard;
use pijersi_rs::board::Board;
use pijersi_rs::errors::{RulesErrorKind, RuntimeError};
use pijersi_rs::game::{can_read_state, Game};
use pijersi_rs::hash::search::SearchTable;
use pijersi_rs::search::openings::{OpeningBook, Position, Response};

const START_PSN: &str = "s-p-r-s-p-r-/p-r-s-wwr-s-p-/6/7/6/P-S-R-WWS-R-P-/R-P-S-R-P-S- w 0 1";

#[test]
fn test_game_init_state() {
    let mut game = Game::new();
    game.init();
    assert_eq!(game.get_string_state(), START_PSN);
    assert!(!game.is_win());
    assert!(!game.is_draw());
    assert_eq!(game.get_winner(), None);
    let (_board, player, half_moves, full_moves) = game.get_state();
    assert_eq!((player, half_moves, full_moves), (0, 0, 1));
}

#[test]
fn test_board_init_state() {
    let mut board = Board::new();
    board.init();
    assert_eq!(board.get_string_state(), START_PSN);
    assert_eq!(board.count_pieces(), 28);
    assert!(!board.is_win());
    assert!(!board.is_draw());
}

/// Playing a legal action passes the turn; an illegal one is refused and changes nothing.
#[test]
fn test_game_play() {
    let mut game = Game::new();
    game.init();
    assert!(game.play_from_string("a1b1").is_ok());
    assert_eq!(game.current_player, 1);
    let before = game.get_string_state();
    match game.play(2107175) {
        Err(RulesErrorKind::IllegalAction(a)) => assert_eq!(a, 2107175),
        Ok(()) => panic!("the action should be illegal"),
    }
    assert_eq!(game.get_string_state(), before);
    assert!(matches!(game.play_from_string("z9z9"), Err(RuntimeError::Parse(_))));
}

/// The same actions give the same states on both representations of a board.
#[test]
fn test_board_and_game_agree() {
    let mut game = Game::new();
    game.init();
    let mut board = Board::new();
    board.init();
    for action in ["a1b1", "g1f1", "b1c1"] {
        assert!(game.play_from_string(action).is_ok());
        assert!(board.play_from_string(action).is_ok());
        assert_eq!(game.get_string_state(), board.get_string_state());
    }
}

/// A PSN state is read back as it was written.
#[test]
fn test_string_state_roundtrip() {
    let psn = "s-p-r-s-p-r-/p-r-s-wwr-s-p-/6/7/6/P-S-R-WWS-R-PS/R-P-S-R-P-1 b 3 7";
    assert!(can_read_state(psn));
    let mut game = Game::new();
    game.set_string_state(psn).unwrap();
    assert_eq!(game.get_string_state(), psn);
    let mut board = Board::new();
    board.set_string_state(psn).unwrap();
    assert_eq!(board.get_string_state(), psn);
    assert!(game.set_string_state("s-p w 0").is_err());
    assert!(game.set_string_state("6/7/6/7/6/7/6 x 0 1").is_err());
    assert!(game.set_string_state("6/7/6/7/6/7/6 w a 1").is_err());
    assert_eq!(game.get_string_state(), psn);
}

/// The searches give an action of the move generator, or the book's action.
#[test]
fn test_game_search() {
    let mut game = Game::new();
    game.init();
    game.options.verbose = false;
    game.options.use_book = false;
    let mut table = Some(SearchTable::with_buckets(64));
    let mut info = Vec::new();
    let (action, _score) = game.search_to_depth(2, None, &mut table, &mut info).unwrap();
    assert!(game.board.available_player_actions(0).to_vec().contains(&action));
    assert!(info.is_empty());

    let mut board = Board::new();
    board.init();
    let book = OpeningBook::new(&[Response::new(Position::new(&board), 2107175 | (9 << 24), 42)]);
    game.options.use_book = true;
    game.options.verbose = true;
    let mut info = Vec::new();
    let (action, score) = game.search_to_depth(3, Some(&book), &mut table, &mut info).unwrap();
    assert_eq!((action, score), (2107175 | (9 << 24), 42));
    assert_eq!(info, vec!["info book depth 9 score 42 pv a1b1".to_owned()]);

    board.options.verbose = false;
    let mut info = Vec::new();
    let (action, score) = board.search_to_depth(3, Some(&book), &mut None, &mut info).unwrap();
    assert_eq!((action, score), (2107175 | (9 << 24), 42));
    let result = board.search_to_time(20, None, &mut None, &mut info);
    assert!(result.is_some());
    let mut depth_done: u64 = 0;
    let timed = board.search_to_time_clocked(200, None, &mut None, &mut info, &mut depth_done);
    assert!(depth_done >= 1);
    assert!(timed.is_some());
    let bits = bitboard::Board::from_cells(&board.cells);
    let (action, _) = result.unwrap();
    assert!(bits.available_player_actions(0).to_vec().contains(&action));
}

/// Half moves without captures lead to a draw.
#[test]
fn test_draw() {
    let mut board = Board::new();
    board.init();
    board.half_moves = 20;
    assert!(board.is_draw());
}

/// With the book in use, a timed search answers the book's action at once.
#[test]
fn test_search_to_time_book() {
    let mut board = Board::new();
    board.init();
    board.options.verbose = false;
    let book = OpeningBook::new(&[Response::new(Position::new(&board), 2107175 | (9 << 24), 42)]);
    let mut info = Vec::new();
    let result = board.search_to_time(0, Some(&book), &mut None, &mut info);
    assert_eq!(result, Some((2107175 | (9 << 24), 42)));
    let mut game = Game::new();
    game.init();
    game.options.verbose = false;
    let result = game.search_to_time(0, Some(&book), &mut None, &mut info);
    assert_eq!(result, Some((2107175 | (9 << 24), 42)));
    assert!(info.is_empty());
}
