use pijersi_rs::bitboard::Board;
use pijersi_rs::logic::actions::ActionTrait;

/// Cells state for testing
///  s- p- r- s- .  r-
/// p- r- s- ww .  s- p-
///  .  .  .  .  .  .
/// .  .  .  .  .  pr .
///  .  .  .  .  .  .
/// P- S- R- WW S- R- SP
///  R- P- S- R- P- .
const TEST_BOARD_STR: &str =
    "s-p-r-s-..r-p-r-s-ww..s-p-......................pr..............P-S-R-WWS-R-SPR-P-S-R-P-..";

#[test]
fn test_play_action() {
    let test_array = [
        (2107175, "s-p-r-s-..r-p-r-s-ww..s-p-......................pr..............RPS-R-WWS-R-SP..P-S-R-P-.."),
        (1769248, "s-p-r-s-..r-p-r-s-ww..s-p-......................pr..P-............S-R-WWS-R-SPR-P-S-R-P-.."),
        (1712167, "s-p-r-s-..r-p-r-s-ww..s-p-......................pr..RP............S-R-WWS-R-SP..P-S-R-P-.."),
        (2031395, "s-p-r-s-..r-p-r-s-ww..s-p-......................pr..........WW..P-S-R-..S-R-SPR-P-S-R-P-.."),
        (1975075, "s-p-r-s-..r-p-r-s-ww..s-p-......................pr..........W-..P-S-R-W-S-R-SPR-P-S-R-P-.."),
        (1448995, "s-p-r-s-..r-p-r-s-ww..s-p-..................W-..pr......W-......P-S-R-..S-R-SPR-P-S-R-P-.."),
        (2041126, "s-p-r-s-..r-p-r-s-ww..s-p-......................pr............SRP-S-R-WWS-..P-R-P-S-R-P-.."),
    ];

    let test_board = Board::try_from(TEST_BOARD_STR).unwrap();
    for (input, output) in test_array {
        let mut board = test_board;
        board.play_action(input);
        assert_eq!(board.to_string(), output);
    }
}

/// An action is rebuilt from its indices, and the search depth is the top byte.
#[test]
fn test_action_indices_roundtrip() {
    let action: u32 = <u32 as ActionTrait>::from_indices(35, 28, 22);
    assert_eq!(action, 1448995);
    assert_eq!(action.to_indices(), (35, 28, 22));
    assert_eq!((action | (7 << 24)).search_depth(), 7);
    assert_eq!(<u32 as ActionTrait>::from_indices_half(39, 32).add_last_index(26), 1712167);
}

/// Playing a null action leaves the board unchanged.
#[test]
fn test_play_null_action() {
    let mut board = Board::try_from(TEST_BOARD_STR).unwrap();
    board.play_action(0xFF);
    assert_eq!(board.to_string(), TEST_BOARD_STR);
}

/// Cells put on bitboards read back as the same cells, and the bitboards of
/// the cells read back are the same bitboards.
#[test]
fn test_cells_bits_roundtrip() {
    let board = Board::try_from(TEST_BOARD_STR).unwrap();
    let cells = board.to_cells();
    let rebuilt = Board::from_cells(&cells);
    assert_eq!(rebuilt, board);
    assert_eq!(rebuilt.to_cells(), cells);
}
