use pijersi_rs::board::Board;
use pijersi_rs::search::openings::{
    decode_openings, split_responses, OpeningBook, Position, Response, RESPONSE_SIZE,
};

/// The book gives the last response stored for a position.
#[test]
fn test_opening_book_lookup() {
    let mut board = Board::new();
    board.init();
    let position = Position::new(&board);
    let other = Position { cells: [0; 45], current_player: 1 };
    let responses = vec![
        Response::new(position, 1448995, 10),
        Response::new(other, 2107175, -3),
        Response::new(position, 1712167, 20),
    ];
    let book = OpeningBook::new(&responses);
    assert_eq!(book.lookup(&board), Some((1712167, 20)));
    assert_eq!(book.get(&other), Some((2107175, -3)));
    board.current_player = 1;
    assert_eq!(book.lookup(&board), None);
    assert_eq!(OpeningBook::default().get(&position), None);
}

/// Inflated book data is split into responses of `RESPONSE_SIZE` bytes.
#[test]
fn test_split_responses() {
    let bytes: Vec<u8> = (0..(2 * RESPONSE_SIZE)).map(|i| i as u8).collect();
    let chunks = split_responses(&bytes).unwrap();
    assert_eq!(chunks.len(), 2);
    assert_eq!(chunks[1][0], RESPONSE_SIZE as u8);
    assert!(split_responses(&bytes[1..]).is_none());
    assert_eq!(split_responses(&[]).unwrap().len(), 0);
}

/// Compressed book data is inflated, then split.
#[test]
fn test_decode_openings() {
    let bytes: Vec<u8> = (0..(3 * RESPONSE_SIZE)).map(|i| (i % 251) as u8).collect();
    let compressed = miniz_oxide::deflate::compress_to_vec(&bytes, 6);
    let chunks = decode_openings(&compressed).unwrap();
    assert_eq!(chunks.len(), 3);
    assert_eq!(chunks.concat(), bytes);
    let odd = miniz_oxide::deflate::compress_to_vec(&bytes[..5], 6);
    assert!(decode_openings(&odd).is_none());
    assert!(decode_openings(&[0xFF, 0xFF, 0xFF]).is_none());
}
