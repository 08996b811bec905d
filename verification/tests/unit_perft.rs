use pijersi_rs::bitboard;
use pijersi_rs::board::Board;
use pijersi_rs::logic::perft::perft;

#[test]
fn tests_test_perft() {
    let mut board = Board::new();
    board.init();
    let bits = bitboard::Board::from_cells(&board.cells);
    assert_eq!(perft(&bits, board.current_player, 1), 186);
    assert_eq!(perft(&bits, board.current_player, 2), 34054);
    assert_eq!(perft(&bits, board.current_player, 3), 6410472);
    assert_eq!(perft(&bits, board.current_player, 4), 1181445032);
}
