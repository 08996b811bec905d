use pijersi_rs::bitboard::Board;
use pijersi_rs::logic::perft::perft;

#[test]
fn test_perft_iter() {
    let mut board = Board::empty();
    board.init();
    assert_eq!(perft(&board, 0, 1), 186);
    assert_eq!(perft(&board, 0, 2), 34054);
    assert_eq!(perft(&board, 0, 3), 6410472);
}

#[test]
fn test_perft_test_perft() {
    let mut board = Board::empty();
    board.init();
    assert_eq!(perft(&board, 0, 1), 186);
    assert_eq!(perft(&board, 0, 2), 34054);
    assert_eq!(perft(&board, 0, 3), 6410472);
    assert_eq!(perft(&board, 0, 4), 1181445032);
}
