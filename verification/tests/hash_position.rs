use pijersi_rs::bitboard::Board;
use pijersi_rs::hash::position::HashTrait;

/// Cells state for testing
///  s- p- r- s- .  r-
/// p- r- s- ww .  s- p-
///  .  .  .  .  .  .
/// .  .  .  .  .  pr .
///  .  .  .  .  .  .
/// P- S- R- WW S- R- SP
///  R- P- S- R- P- .
const TEST_BOARD_STR: &str =
    "s-p-r-s-..r-p-r-s-ww..s-p-......................pr..............P-S-R-WWS-R-SPR-P-S-R-P-..";

/// Cells state for testing
///  s- p- r- s- .  r-
/// p- r- s- ww .  s- p-
///  .  .  .  .  .  .
/// .  .  .  .  .  .  .
///  .  .  .  .  .  pr
/// P- S- R- WW S- RP SP
///  R- P- S- R- .  .
const TEST_BOARD_STR2: &str =
    "s-p-r-s-..r-p-r-s-ww..s-p-....................................prP-S-R-WWS-RPSPR-P-S-R-....";

/// Asserts that equal positions and starting players give the same hash.
/// Asserts that different positions and/or different players give different hashes.
#[test]
fn test_to_hash() {
    let test_board = Board::try_from(TEST_BOARD_STR).unwrap();
    let test_board2 = Board::try_from(TEST_BOARD_STR2).unwrap();
    assert_eq!((&test_board, 0).hash(), (&test_board, 0).hash());
    assert_eq!((&test_board, 1).hash(), (&test_board, 1).hash());
    assert_eq!((&test_board2, 0).hash(), (&test_board2, 0).hash());
    assert_eq!((&test_board2, 1).hash(), (&test_board2, 1).hash());
    assert_ne!((&test_board, 0).hash(), (&test_board2, 0).hash());
    assert_ne!((&test_board, 1).hash(), (&test_board2, 1).hash());
    assert_ne!((&test_board, 0).hash(), (&test_board, 1).hash());
    assert_ne!((&test_board, 1).hash(), (&test_board, 0).hash());
    assert_ne!((&test_board2, 0).hash(), (&test_board2, 1).hash());
    assert_ne!((&test_board2, 1).hash(), (&test_board2, 0).hash());
}

/// The hash of an empty board with white to move is 0, and with black to move the key of the player.
#[test]
fn test_hash_empty_board() {
    let board = Board::empty();
    assert_eq!((&board, 0).hash(), 0);
    assert_eq!(
        (&board, 1).hash() as u64,
        pijersi_rs::hash::position::PLAYER_HASH
    );
}

/// The hash of a board with one piece is the key of that piece on its cell.
#[test]
fn test_hash_single_piece() {
    let mut board = Board::empty();
    board.set_piece(7, pijersi_rs::piece::WHITE_ROCK);
    assert_eq!(
        (&board, 0).hash() as u64,
        pijersi_rs::hash::position::zobrist_key_of(pijersi_rs::piece::WHITE_ROCK, 7)
    );
    assert_ne!(
        pijersi_rs::hash::position::zobrist_key_of(pijersi_rs::piece::WHITE_ROCK, 7),
        pijersi_rs::hash::position::zobrist_key_of(pijersi_rs::piece::WHITE_ROCK, 8)
    );
}
