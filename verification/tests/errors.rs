use pijersi_rs::bitboard::Board;
use pijersi_rs::errors::{
    InvalidCoordinatesKind, InvalidPlayerKind, InvalidPositionKind, ParseErrorKind, RuntimeError,
    UgiErrorKind,
};
use pijersi_rs::game::Game;
use pijersi_rs::logic::translate::{
    player_to_string, string_to_action, string_to_cells, string_to_player,
};
use pijersi_rs::ugi::{PositionArgs, UgiEngine, UgiOutput};

fn start() -> Board {
    let mut board = Board::empty();
    board.init();
    board
}

/// A string that is not made of two or three coordinates is not an action.
#[test]
fn test_error_invalid_action() {
    let error = string_to_action(&start(), "??????").unwrap_err();
    assert_eq!(error.kind, ParseErrorKind::InvalidAction);
    assert_eq!(error.value, "??????");
}

/// A row letter past `g` is a vertical coordinate error.
#[test]
fn test_error_vertical_coordinate() {
    let error = string_to_action(&start(), "z1a1a1").unwrap_err();
    assert_eq!(
        error.kind,
        ParseErrorKind::InvalidCoordinates { kind: InvalidCoordinatesKind::Vertical, value: 'z' }
    );
    assert_eq!(error.value, "z1");
}

/// A column digit past `7` is a horizontal coordinate error.
#[test]
fn test_error_horizontal_coordinate() {
    let error = string_to_action(&start(), "a9a1a1").unwrap_err();
    assert_eq!(
        error.kind,
        ParseErrorKind::InvalidCoordinates { kind: InvalidCoordinatesKind::Horizontal, value: '9' }
    );
    assert_eq!(error.value, "a9");
}

/// Cells in PSN need seven lines.
#[test]
fn test_error_wrong_line_number() {
    let error = string_to_cells("6/7").unwrap_err();
    assert_eq!(error.kind, ParseErrorKind::InvalidPosition(InvalidPositionKind::WrongLineNumber(2)));
    assert_eq!(error.value, "6/7");
}

/// Only `w` and `b` are players, and only 0 and 1 have a notation.
#[test]
fn test_error_invalid_player() {
    let error = string_to_player("x").unwrap_err();
    assert_eq!(
        error.kind,
        ParseErrorKind::InvalidPlayer(InvalidPlayerKind::StrToPlayer("x".to_owned()))
    );
    let error = player_to_string(2).unwrap_err();
    assert_eq!(error.kind, ParseErrorKind::InvalidPlayer(InvalidPlayerKind::PlayerToStr(2)));
    assert_eq!(error.value, "2");
}

/// A state needs four words, and its counters are numbers.
#[test]
fn test_error_state_string() {
    let mut game = Game::new();
    game.init();
    let error = game.set_string_state("6/7/6/7/6/7/6 w 0").unwrap_err();
    assert_eq!(error.kind, ParseErrorKind::InvalidPSN);
    let error = game.set_string_state("6/7/6/7/6/7/6 w x 1").unwrap_err();
    assert!(matches!(error.kind, ParseErrorKind::InvalidInt(_)));
    assert_eq!(error.value, "x");
}

/// Actions of a position must follow the word `moves`.
#[test]
fn test_error_ugi_position() {
    let mut engine = UgiEngine::new();
    let out = engine.position(PositionArgs::Startpos { moves: vec!["a1b1".to_owned()] });
    assert_eq!(out.len(), 1);
    match &out[0] {
        UgiOutput::Error(RuntimeError::UGI(UgiErrorKind::InvalidUGIPosition(words))) => {
            assert_eq!(words, "a1b1")
        }
        _ => panic!("not a position error"),
    }
}

/// The error of a state string names the first word that cannot be read.
#[test]
fn test_error_state_string_words() {
    let mut game = Game::new();
    game.init();
    let error = game.set_string_state("6/7/6 w 0 1").unwrap_err();
    assert_eq!(error.kind, ParseErrorKind::InvalidPosition(InvalidPositionKind::WrongLineNumber(3)));
    assert_eq!(error.value, "6/7/6");
    let error = game.set_string_state("6/7/6/7/6/7/6 x 0 1").unwrap_err();
    assert_eq!(error.value, "x");
    let error = game.set_string_state("6/7/6/7/6/7/6 b 0 y").unwrap_err();
    assert!(matches!(error.kind, ParseErrorKind::InvalidInt(_)));
    assert_eq!(error.value, "y");
}
