//! Implements translation methods to convert the internal representation into a human-readable representation and vice versa.
use vstd::prelude::*;
use vstd::string::{StrSliceExecFns, StringExecFns};

use crate::bitboard::{piece_at, Board};
use crate::errors::{
    InvalidCoordinatesKind, InvalidPlayerKind, InvalidPositionKind, ParseError, ParseErrorKind,
};
use crate::logic::actions::{action_end, action_mid, action_of, action_start, Action, ActionTrait};
use crate::logic::index::{CellIndex, CellIndexTrait, INDEX_NULL};
use crate::logic::{Cells, Player, N_CELLS};
use crate::piece::{
    bottom_of, top_of, Piece, PieceColour, PieceTrait, PieceType, BLACK_PAPER, BLACK_ROCK,
    BLACK_SCISSORS, BLACK_WISE, CELL_EMPTY, WHITE_PAPER, WHITE_ROCK, WHITE_SCISSORS, WHITE_WISE,
};

verus! {

/// Appends a character to a string.
///
/// Calls `String::push`, which appends the character at the end of the string.
#[verifier::external_body]
pub(crate) fn push_char(s: &mut String, c: char)
    ensures
        final(s)@ == old(s)@.push(c),
{
    s.push(c);
}

/// The character of a decimal digit.
pub open spec fn digit_char(d: int) -> char {
    (48 + d) as char
}

/// The character of a decimal digit.
fn digit_to_char(d: u8) -> (c: char)
    requires
        d < 10,
    ensures
        c == digit_char(d as int),
{
    ((48u8 + d) as char)
}

/// The letters of the rows, from the top row (black's side) to the bottom row.
pub const ROW_LETTERS: [char; 7] = ['g', 'f', 'e', 'd', 'c', 'b', 'a'];

/// The piece that a character stands for (`-` for an empty cell).
pub open spec fn piece_of_char(c: char) -> Option<u8> {
    if c == '-' {
        Some(CELL_EMPTY)
    } else if c == 'S' {
        Some(WHITE_SCISSORS)
    } else if c == 'P' {
        Some(WHITE_PAPER)
    } else if c == 'R' {
        Some(WHITE_ROCK)
    } else if c == 'W' {
        Some(WHITE_WISE)
    } else if c == 's' {
        Some(BLACK_SCISSORS)
    } else if c == 'p' {
        Some(BLACK_PAPER)
    } else if c == 'r' {
        Some(BLACK_ROCK)
    } else if c == 'w' {
        Some(BLACK_WISE)
    } else {
        None
    }
}

/// The character of a piece: upper case for white, lower case for black, `-` for empty.
pub open spec fn char_of_piece(p: u8) -> Option<char> {
    if p == CELL_EMPTY {
        Some('-')
    } else if p == WHITE_SCISSORS {
        Some('S')
    } else if p == WHITE_PAPER {
        Some('P')
    } else if p == WHITE_ROCK {
        Some('R')
    } else if p == WHITE_WISE {
        Some('W')
    } else if p == BLACK_SCISSORS {
        Some('s')
    } else if p == BLACK_PAPER {
        Some('p')
    } else if p == BLACK_ROCK {
        Some('r')
    } else if p == BLACK_WISE {
        Some('w')
    } else {
        None
    }
}

/// Converts a character to its corresponding piece (if it exists).
pub fn char_to_piece(piece_char: char) -> (r: Option<Piece>)
    ensures
        r == piece_of_char(piece_char),
{
    match piece_char {
        '-' => Some(CELL_EMPTY),
        'S' => Some(WHITE_SCISSORS),
        'P' => Some(WHITE_PAPER),
        'R' => Some(WHITE_ROCK),
        'W' => Some(WHITE_WISE),
        's' => Some(BLACK_SCISSORS),
        'p' => Some(BLACK_PAPER),
        'r' => Some(BLACK_ROCK),
        'w' => Some(BLACK_WISE),
        _ => None,
    }
}

/// Converts a piece to its corresponding character (if it exists).
pub fn piece_to_char(piece: Piece) -> (r: Option<char>)
    ensures
        r == char_of_piece(piece),
{
    match piece {
        CELL_EMPTY => Some('-'),
        WHITE_SCISSORS => Some('S'),
        WHITE_PAPER => Some('P'),
        WHITE_ROCK => Some('R'),
        WHITE_WISE => Some('W'),
        BLACK_SCISSORS => Some('s'),
        BLACK_PAPER => Some('p'),
        BLACK_ROCK => Some('r'),
        BLACK_WISE => Some('w'),
        _ => None,
    }
}

/// Law: reading back the character of a piece gives the piece, and the
/// character of the piece a character stands for is that character.
pub proof fn lemma_piece_char_roundtrip(p: u8, c: char)
    ensures
        char_of_piece(p) matches Some(c2) ==> piece_of_char(c2) == Some(p),
        piece_of_char(c) matches Some(p2) ==> char_of_piece(p2) == Some(c),
{
}

/// The character of a piece of the given colour and type.
pub open spec fn piece_char_of(piece_colour: PieceColour, piece_type: PieceType) -> char {
    match (piece_colour, piece_type) {
        (PieceColour::White, PieceType::Scissors) => 'S',
        (PieceColour::White, PieceType::Paper) => 'P',
        (PieceColour::White, PieceType::Rock) => 'R',
        (PieceColour::White, PieceType::Wise) => 'W',
        (PieceColour::Black, PieceType::Scissors) => 's',
        (PieceColour::Black, PieceType::Paper) => 'p',
        (PieceColour::Black, PieceType::Rock) => 'r',
        (PieceColour::Black, PieceType::Wise) => 'w',
    }
}

/// Converts a piece colour and type to its character: the type's letter, in
/// upper case for white.
pub fn piece_to_char2(piece_colour: &PieceColour, piece_type: &PieceType) -> (r: char)
    ensures
        r == piece_char_of(*piece_colour, *piece_type),
{
    let lower = match piece_type {
        PieceType::Scissors => 's',
        PieceType::Paper => 'p',
        PieceType::Rock => 'r',
        PieceType::Wise => 'w',
    };
    match piece_colour {
        PieceColour::White => match piece_type {
            PieceType::Scissors => 'S',
            PieceType::Paper => 'P',
            PieceType::Rock => 'R',
            PieceType::Wise => 'W',
        },
        PieceColour::Black => lower,
    }
}

/// The index of the cell at row `i` and column `j`: rows of six cells (even
/// rows) and rows of seven cells (odd rows) alternate.
pub open spec fn coords_index(i: int, j: int) -> int {
    if i % 2 == 0 {
        13 * i / 2 + j
    } else {
        6 + 13 * (i - 1) / 2 + j
    }
}

/// The row and column of a cell index.
pub open spec fn index_coords(index: int) -> (int, int) {
    if index % 13 > 5 {
        (2 * (index / 13) + 1, index % 13 - 6)
    } else {
        (2 * (index / 13), index % 13)
    }
}

/// The coordinates of a cell: a row from 0 to 6, a column below 6 on even rows and below 7 on odd rows.
pub open spec fn valid_coords(i: int, j: int) -> bool {
    0 <= i < 7 && 0 <= j && (if i % 2 == 0 {
        j < 6
    } else {
        j < 7
    })
}

/// Converts a (i, j) coordinate set to an index.
pub fn coords_to_index(i: CellIndex, j: CellIndex) -> (r: CellIndex)
    requires
        13 * i + j + 6 <= usize::MAX,
    ensures
        r == coords_index(i as int, j as int),
{
    if i % 2 == 0 {
        13 * i / 2 + j
    } else {
        6 + 13 * (i - 1) / 2 + j
    }
}

/// Converts an index to a (i, j) coordinate set.
pub fn index_to_coords(index: CellIndex) -> (r: (CellIndex, CellIndex))
    ensures
        r.0 == index_coords(index as int).0,
        r.1 == index_coords(index as int).1,
{
    let mut i: CellIndex = 2 * (index / 13);
    let mut j: CellIndex = index % 13;

    if j > 5 {
        j -= 6;
        i += 1;
    }
    (i, j)
}

/// Law: the coordinates of a cell lead back to it, and the index of valid
/// coordinates leads back to them.
pub proof fn lemma_coords_roundtrip(index: int, i: int, j: int)
    ensures
        index >= 0 ==> coords_index(index_coords(index).0, index_coords(index).1) == index,
        index >= 0 ==> valid_coords(index_coords(index).0, index_coords(index).1) == (index < 45),
        valid_coords(i, j) ==> index_coords(coords_index(i, j)) == (i, j),
        valid_coords(i, j) ==> 0 <= coords_index(i, j) < 45,
{
    if index >= 0 {
        let q = index / 13;
        let r = index % 13;
        assert(index == 13 * q + r);
        assert((2 * q) % 2 == 0);
        assert((2 * q + 1) % 2 == 1);
        assert(13 * (2 * q) / 2 == 13 * q);
        assert(13 * (2 * q + 1 - 1) / 2 == 13 * q);
    }
    if valid_coords(i, j) {
        if i % 2 == 0 {
            let h = i / 2;
            assert(i == 2 * h);
            assert(13 * i / 2 == 13 * h);
            let k = 13 * h + j;
            assert(k / 13 == h && k % 13 == j) by (nonlinear_arith)
                requires
                    k == 13 * h + j,
                    0 <= j < 6,
                    h >= 0,
            ;
        } else {
            let h = (i - 1) / 2;
            assert(i == 2 * h + 1);
            assert(13 * (i - 1) / 2 == 13 * h);
            let k = 6 + 13 * h + j;
            assert(k / 13 == h && k % 13 == 6 + j) by (nonlinear_arith)
                requires
                    k == 6 + 13 * h + j,
                    0 <= j < 7,
                    h >= 0,
            ;
        }
    }
}

/// The row of a row letter (`a` is the bottom row).
pub open spec fn row_of_letter(c: char) -> Option<int> {
    if c == 'a' {
        Some(6)
    } else if c == 'b' {
        Some(5)
    } else if c == 'c' {
        Some(4)
    } else if c == 'd' {
        Some(3)
    } else if c == 'e' {
        Some(2)
    } else if c == 'f' {
        Some(1)
    } else if c == 'g' {
        Some(0)
    } else {
        None
    }
}

/// The column of a column digit (`1` is the first column).
pub open spec fn col_of_digit(c: char) -> Option<int> {
    if '1' <= c <= '7' {
        Some(c as int - 49)
    } else {
        None
    }
}

/// The cell index that a two-character coordinate names, if both characters are valid.
pub open spec fn cell_of(s: Seq<char>) -> Option<int> {
    match (row_of_letter(s[0]), col_of_digit(s[1])) {
        (Some(i), Some(j)) => Some(coords_index(i, j)),
        _ => None,
    }
}

/// The coordinate error of an invalid two-character coordinate: the row letter
/// if it is invalid, otherwise the column digit.
pub open spec fn coord_error_of(s: Seq<char>) -> ParseErrorKind {
    if row_of_letter(s[0]) is None {
        ParseErrorKind::InvalidCoordinates { kind: InvalidCoordinatesKind::Vertical, value: s[0] }
    } else {
        ParseErrorKind::InvalidCoordinates { kind: InvalidCoordinatesKind::Horizontal, value: s[1] }
    }
}

/// Converts a "a1" style string coordinate into an index.
fn string_to_index(cell_string: &str) -> (r: Result<CellIndex, ParseError>)
    requires
        cell_string@.len() == 2,
    ensures
        match r {
            Ok(index) => cell_of(cell_string@) == Some(index as int),
            Err(e) => cell_of(cell_string@) is None && e.kind == coord_error_of(cell_string@)
                && e.value@ == cell_string@,
        },
{
    let char_i = cell_string.get_char(0);
    let char_j = cell_string.get_char(1);
    let i: CellIndex = match char_i {
        'a' => 6,
        'b' => 5,
        'c' => 4,
        'd' => 3,
        'e' => 2,
        'f' => 1,
        'g' => 0,
        _ => {
            return Err(
                ParseError {
                    kind: ParseErrorKind::InvalidCoordinates {
                        kind: InvalidCoordinatesKind::Vertical,
                        value: char_i,
                    },
                    value: cell_string.to_owned(),
                },
            );
        },
    };
    let j: CellIndex = match char_j {
        '1' => 0,
        '2' => 1,
        '3' => 2,
        '4' => 3,
        '5' => 4,
        '6' => 5,
        '7' => 6,
        _ => {
            return Err(
                ParseError {
                    kind: ParseErrorKind::InvalidCoordinates {
                        kind: InvalidCoordinatesKind::Horizontal,
                        value: char_j,
                    },
                    value: cell_string.to_owned(),
                },
            );
        },
    };
    Ok(coords_to_index(i, j))
}

/// The "a1" style name of a cell: its row letter and its column number.
pub open spec fn index_string(index: int) -> Seq<char> {
    seq![ROW_LETTERS[index_coords(index).0], digit_char(index_coords(index).1 + 1)]
}

/// Converts a native index into a "a1" style string.
pub fn index_to_string(index: CellIndex) -> (r: String)
    requires
        index < 45,
    ensures
        r@ == index_string(index as int),
{
    let (i, j): (CellIndex, CellIndex) = index_to_coords(index);
    let mut r = String::new();
    push_char(&mut r, ROW_LETTERS[i]);
    push_char(&mut r, digit_to_char((j + 1) as u8));
    r
}

/// Law: the name of a cell reads back as that cell.
pub proof fn lemma_index_string_roundtrip(index: int)
    requires
        0 <= index < 45,
    ensures
        cell_of(index_string(index)) == Some(index),
{
    lemma_coords_roundtrip(index, 0, 0);
    let (i, j) = index_coords(index);
    assert(0 <= i < 7);
    assert(ROW_LETTERS[0] == 'g' && ROW_LETTERS[1] == 'f' && ROW_LETTERS[2] == 'e' && ROW_LETTERS[3]
        == 'd' && ROW_LETTERS[4] == 'c' && ROW_LETTERS[5] == 'b' && ROW_LETTERS[6] == 'a');
    assert(row_of_letter(ROW_LETTERS[i]) == Some(i));
    assert(col_of_digit(digit_char(j + 1)) == Some(j));
}

/// Names the outcome of matching the pattern `^(\w\d)(\w\d)?(\w\d)$` against a
/// string: the three groups when it matches (the second one optional).
pub uninterp spec fn action_pattern_captures(s: Seq<char>) -> Option<
    (Seq<char>, Option<Seq<char>>, Seq<char>),
>;

/// The captured groups as character sequences.
pub open spec fn captures_view(c: Option<(String, Option<String>, String)>) -> Option<
    (Seq<char>, Option<Seq<char>>, Seq<char>),
> {
    match c {
        None => None,
        Some((a, b, e)) => Some(
            (
                a@,
                match b {
                    Some(x) => Some(x@),
                    None => None,
                },
                e@,
            ),
        ),
    }
}

/// Groups of the action pattern: each one a word character and a digit, so two characters.
pub open spec fn captures_well_formed(c: Option<(String, Option<String>, String)>) -> bool {
    match c {
        None => true,
        Some((a, b, e)) => a@.len() == 2 && e@.len() == 2 && match b {
            Some(x) => x@.len() == 2,
            None => true,
        },
    }
}

/// Matches an action string against `^(\w\d)(\w\d)?(\w\d)$` with the regex crate.
///
/// Calls `Regex::new` on that pattern and `Regex::captures` on the string.
/// The contract names the groups that come back (`action_pattern_captures`)
/// and states what the pattern fixes of them: each group is one `\w` and one
/// `\d` character, so two characters long. On a string of two or three
/// pairs of an ASCII lowercase letter (a `\w`) and an ASCII digit (a `\d`),
/// the anchored pattern matches with the groups at fixed places: the first
/// pair, the middle pair when there are three (with two, the optional group
/// takes no part, the last group needing the last pair), and the last pair.
#[verifier::external_body]
fn capture_action_pattern(action_string: &str) -> (r: Option<(String, Option<String>, String)>)
    ensures
        captures_view(r) == action_pattern_captures(action_string@),
        captures_well_formed(r),
        notation_pairs(action_string@) ==> captures_view(r) == Some(notation_groups(action_string@)),
{
    let action_pattern = regex::Regex::new(r"^(\w\d)(\w\d)?(\w\d)$").unwrap();
    let captures = action_pattern.captures(action_string)?;
    let mid = match captures.get(2) {
        Some(m) => Some(m.as_str().to_owned()),
        None => None,
    };
    Some((captures.get(1)?.as_str().to_owned(), mid, captures.get(3)?.as_str().to_owned()))
}

/// The action that the captured coordinates describe on a board: with no
/// middle coordinate and an ally at the end, the action is a stack from the
/// start (middle index set to the start); a middle equal to the end is dropped.
pub open spec fn action_from_cells(v: Seq<u64>, start: int, mid: int, end: int) -> u32 {
    let mid1 = if piece_at(v, end) != 0 && piece_at(v, start) & 4 == piece_at(v, end) & 4 && mid
        == 255 {
        start
    } else {
        mid
    };
    let mid2 = if mid1 == end {
        255
    } else {
        mid1
    };
    action_of(start, mid2, end)
}

/// Builds the action from the groups of the action pattern (see [`string_to_action`]).
pub fn action_from_captures(
    board: &Board,
    action_string: &str,
    captures: Option<(String, Option<String>, String)>,
) -> (r: Result<Action, ParseError>)
    requires
        captures_well_formed(captures),
    ensures
        match captures_view(captures) {
            None => r matches Err(e) && e.kind == ParseErrorKind::InvalidAction && e.value@
                == action_string@,
            Some((a, b, c)) => if cell_of(a) is None {
                r matches Err(e) && e.kind == coord_error_of(a) && e.value@ == a
            } else if b matches Some(bb) && cell_of(bb) is None {
                r matches Err(e) && e.kind == coord_error_of(b.unwrap()) && e.value@ == b.unwrap()
            } else if cell_of(c) is None {
                r matches Err(e) && e.kind == coord_error_of(c) && e.value@ == c
            } else {
                r == Ok::<Action, ParseError>(
                    action_from_cells(
                        board@,
                        cell_of(a).unwrap(),
                        match b {
                            Some(bb) => cell_of(bb).unwrap(),
                            None => 255,
                        },
                        cell_of(c).unwrap(),
                    ),
                )
            },
        },
{
    let (start_string, mid_string, end_string) = match captures {
        Some(c) => c,
        None => {
            return Err(
                ParseError { kind: ParseErrorKind::InvalidAction, value: action_string.to_owned() },
            );
        },
    };
    let index_start: CellIndex = string_to_index(start_string.as_str())?;
    let mut index_mid: CellIndex = match &mid_string {
        Some(m) => string_to_index(m.as_str())?,
        None => INDEX_NULL,
    };
    let index_end: CellIndex = string_to_index(end_string.as_str())?;
    proof {
        lemma_coords_bound(start_string@);
        lemma_coords_bound(end_string@);
        if mid_string is Some {
            lemma_coords_bound(mid_string.unwrap()@);
        }
    }
    let piece_start = board.get_piece(index_start);
    let piece_end = board.get_piece(index_end);
    if !piece_end.is_empty() && piece_start.colour() == piece_end.colour() && index_mid.is_null() {
        index_mid = index_start;
    }
    if index_mid == index_end {
        index_mid = INDEX_NULL;
    }
    Ok(Action::from_indices(index_start, index_mid, index_end))
}

/// Named coordinates are within the first 46 indices.
proof fn lemma_coords_bound(s: Seq<char>)
    requires
        s.len() == 2,
    ensures
        cell_of(s) matches Some(k) ==> 0 <= k <= 45,
{
}

/// Converts a string (a1b1c1 style) move to the native triple-index format.
///
/// The string is matched against `^(\w\d)(\w\d)?(\w\d)$`; each group names a
/// cell (row letter `a` to `g`, column `1` to `7`); the action is then built
/// from the cells as [`action_from_captures`] states.
pub fn string_to_action(board: &Board, action_string: &str) -> (r: Result<Action, ParseError>)
    ensures
        match parsed_action(board@, action_string@) {
            Some(a) => r == Ok::<Action, ParseError>(a),
            None => r is Err,
        },
        exists|c: Option<(String, Option<String>, String)>|
            captures_view(c) == action_pattern_captures(action_string@) && captures_well_formed(c)
                && action_from_captures_post(board@, action_string@, c, r),
        forall|p: Player, a: Action|
            #![trigger crate::logic::movegen::player_actions(board@, p).contains(a)]
            p <= 1 && crate::logic::actions::board_wf(board@)
                && crate::logic::movegen::player_actions(board@, p).contains(a) && action_string@
                == crate::logic::translate::action_string(board@, a) ==> r == Ok::<Action, ParseError>(a),
{
    let captures = capture_action_pattern(action_string);
    let ghost c = captures;
    let r = action_from_captures(board, action_string, captures);
    assert(action_from_captures_post(board@, action_string@, c, r));
    proof {
        assert forall|p: Player, a: Action|
            #![trigger crate::logic::movegen::player_actions(board@, p).contains(a)]
            p <= 1 && crate::logic::actions::board_wf(board@)
                && crate::logic::movegen::player_actions(board@, p).contains(a) && action_string@
                == crate::logic::translate::action_string(board@, a) implies r == Ok::<Action, ParseError>(
            a,
        ) by {
            lemma_action_notation_roundtrip(board@, p, a);
        }
    }
    r
}

/// An action string made of two or three cell names, each a lowercase letter
/// and a digit.
pub open spec fn notation_pairs(t: Seq<char>) -> bool {
    &&& t.len() == 4 || t.len() == 6
    &&& forall|i: int|
        0 <= i < t.len() ==> (i % 2 == 0 ==> 'a' <= #[trigger] t[i] <= 'z') && (i % 2 == 1 ==> '0'
            <= t[i] <= '9')
}

/// The groups of the action pattern in a string of two or three cell names:
/// the first name, the middle one if there are three, and the last one.
pub open spec fn notation_groups(t: Seq<char>) -> (Seq<char>, Option<Seq<char>>, Seq<char>) {
    if t.len() == 4 {
        (t.subrange(0, 2), None, t.subrange(2, 4))
    } else {
        (t.subrange(0, 2), Some(t.subrange(2, 4)), t.subrange(4, 6))
    }
}

/// The action that the groups of an action string describe on a board, if
/// each group names a cell.
pub open spec fn action_from_groups(v: Seq<u64>, g: (Seq<char>, Option<Seq<char>>, Seq<char>)) -> Option<u32> {
    let (a, b, c) = g;
    if cell_of(a) is None || (b matches Some(bb) && cell_of(bb) is None) || cell_of(c) is None {
        None
    } else {
        Some(
            action_from_cells(
                v,
                cell_of(a).unwrap(),
                match b {
                    Some(bb) => cell_of(bb).unwrap(),
                    None => 255,
                },
                cell_of(c).unwrap(),
            ),
        )
    }
}

/// The name of a cell is a lowercase letter and a digit.
proof fn lemma_index_string_chars(index: int)
    requires
        0 <= index < 45,
    ensures
        index_string(index).len() == 2,
        'a' <= index_string(index)[0] <= 'z',
        '0' <= index_string(index)[1] <= '9',
        cell_of(index_string(index)) == Some(index),
{
    lemma_index_string_roundtrip(index);
    lemma_coords_roundtrip(index, 0, 0);
    let (i, j) = index_coords(index);
    assert(0 <= i < 7 && 0 <= j < 7);
    assert(ROW_LETTERS[0] == 'g' && ROW_LETTERS[1] == 'f' && ROW_LETTERS[2] == 'e' && ROW_LETTERS[3]
        == 'd' && ROW_LETTERS[4] == 'c' && ROW_LETTERS[5] == 'b' && ROW_LETTERS[6] == 'a');
    assert(digit_char(j + 1) == (48 + j + 1) as char);
}

/// Law: the notation of every action of the move generator reads back as that
/// action: written as two or three cell names, the cells it names give the
/// action again on the same board.
pub proof fn lemma_action_notation_roundtrip(v: Seq<u64>, player: Player, a: Action)
    requires
        crate::logic::actions::board_wf(v),
        player <= 1,
        crate::logic::movegen::player_actions(v, player).contains(a),
    ensures
        notation_pairs(action_string(v, a)),
        action_from_groups(v, notation_groups(action_string(v, a))) == Some(a),
{
    let s = action_start(a);
    let m = action_mid(a);
    let e = action_end(a);
    crate::logic::movegen::lemma_actions_notation_ok(v, player, a);
    crate::logic::perft::lemma_player_actions_ok(v, player, 45);
    let k = choose|k: int|
        0 <= k < crate::logic::movegen::player_actions(v, player).len()
            && crate::logic::movegen::player_actions(v, player)[k] == a;
    assert(crate::logic::perft::action_ok(crate::logic::movegen::player_actions(v, player)[k]));
    crate::logic::actions::lemma_action_rebuilt(a);
    assert(a == action_of(s, m, e));
    lemma_index_string_chars(s);
    lemma_index_string_chars(e);
    if m < 45 {
        lemma_index_string_chars(m);
    }
    let t = action_string(v, a);
    let mid_str = if m == 255 {
        if piece_at(v, s) >= 16 {
            index_string(e)
        } else {
            seq![]
        }
    } else if s == m && !(piece_at(v, s) >= 16) {
        seq![]
    } else {
        index_string(m)
    };
    assert(t == index_string(s) + mid_str + index_string(e));
    let mid_cell: int = if m == 255 {
        if piece_at(v, s) >= 16 {
            e
        } else {
            255
        }
    } else if s == m && !(piece_at(v, s) >= 16) {
        255
    } else {
        m
    };
    if mid_str.len() == 0 {
        assert(t =~= index_string(s) + index_string(e));
        assert(t.subrange(0, 2) =~= index_string(s));
        assert(t.subrange(2, 4) =~= index_string(e));
    } else {
        assert(t.subrange(0, 2) =~= index_string(s));
        assert(t.subrange(2, 4) =~= mid_str);
        assert(t.subrange(4, 6) =~= index_string(e));
    }
    assert forall|i: int|
        0 <= i < t.len() implies (i % 2 == 0 ==> 'a' <= #[trigger] t[i] <= 'z') && (i % 2 == 1 ==> '0'
        <= t[i] <= '9') by {
        if i < 2 {
            assert(t[i] == index_string(s)[i]);
        } else if i < 2 + mid_str.len() {
            assert(t[i] == mid_str[i - 2]);
        } else {
            assert(t[i] == index_string(e)[i - 2 - mid_str.len()]);
        }
    }
    assert(action_from_groups(v, notation_groups(t)) == Some(action_from_cells(v, s, mid_cell, e)));
}

/// The action that an action string describes on a board, if it is one: the
/// string matches the action pattern and each group names a cell.
pub open spec fn parsed_action(v: Seq<u64>, s: Seq<char>) -> Option<u32> {
    match action_pattern_captures(s) {
        None => None,
        Some((a, b, c)) => if cell_of(a) is None || (b matches Some(bb) && cell_of(bb) is None)
            || cell_of(c) is None {
            None
        } else {
            Some(
                action_from_cells(
                    v,
                    cell_of(a).unwrap(),
                    match b {
                        Some(bb) => cell_of(bb).unwrap(),
                        None => 255,
                    },
                    cell_of(c).unwrap(),
                ),
            )
        },
    }
}

/// What [`action_from_captures`] returns for the given groups.
pub open spec fn action_from_captures_post(
    v: Seq<u64>,
    action_string: Seq<char>,
    captures: Option<(String, Option<String>, String)>,
    r: Result<Action, ParseError>,
) -> bool {
    match captures_view(captures) {
        None => r matches Err(e) && e.kind == ParseErrorKind::InvalidAction && e.value@
            == action_string,
        Some((a, b, c)) => if cell_of(a) is None {
            r matches Err(e) && e.kind == coord_error_of(a) && e.value@ == a
        } else if b matches Some(bb) && cell_of(bb) is None {
            r matches Err(e) && e.kind == coord_error_of(b.unwrap()) && e.value@ == b.unwrap()
        } else if cell_of(c) is None {
            r matches Err(e) && e.kind == coord_error_of(c) && e.value@ == c
        } else {
            r == Ok::<Action, ParseError>(
                action_from_cells(
                    v,
                    cell_of(a).unwrap(),
                    match b {
                        Some(bb) => cell_of(bb).unwrap(),
                        None => 255,
                    },
                    cell_of(c).unwrap(),
                ),
            )
        },
    }
}

/// The "a1b1c1" style notation of an action: its start, then its middle cell
/// (the end again for a stack's plain move, nothing for a single piece's move
/// or stack from its start), then its end.
pub open spec fn action_string(v: Seq<u64>, a: u32) -> Seq<char> {
    let s = action_start(a);
    let m = action_mid(a);
    let e = action_end(a);
    if s == 255 {
        seq![]
    } else {
        let mid_str = if m == 255 {
            if piece_at(v, s) >= 16 {
                index_string(e)
            } else {
                seq![]
            }
        } else if s == m && !(piece_at(v, s) >= 16) {
            seq![]
        } else {
            index_string(m)
        };
        index_string(s) + mid_str + index_string(e)
    }
}

/// The indices of an action name cells of the board (or the action is null).
pub open spec fn action_on_board(a: u32) -> bool {
    action_start(a) == 255 || (action_start(a) < 45 && action_end(a) < 45 && (action_mid(a) == 255
        || action_mid(a) < 45))
}

/// Converts a native triple-index move into the string (a1b1c1 style) format.
pub fn action_to_string(board: &Board, action: Action) -> (r: String)
    requires
        action_on_board(action),
    ensures
        r@ == action_string(board@, action),
{
    let (index_start, index_mid, index_end) = action.to_indices();

    if index_start.is_null() {
        return String::new();
    }
    let start_is_stack = board.get_piece(index_start).is_stack();
    let action_string_start: String = index_to_string(index_start);
    let action_string_end: String = index_to_string(index_end);

    let action_string_mid: String = if index_mid.is_null() {
        if start_is_stack {
            index_to_string(index_end)
        } else {
            String::new()
        }
    } else if !index_mid.is_null() && index_start == index_mid && !start_is_stack {
        String::new()
    } else {
        index_to_string(index_mid)
    };
    let mut r = action_string_start;
    r.append(action_string_mid.as_str());
    r.append(action_string_end.as_str());
    r
}

/// The decimal notation of a number.
pub open spec fn decimal_chars(n: nat) -> Seq<char>
    decreases n,
{
    if n < 10 {
        seq![digit_char(n as int)]
    } else {
        decimal_chars(n / 10).push(digit_char((n % 10) as int))
    }
}

/// Appends the decimal notation of a number to a string.
pub fn push_decimal(out: &mut String, n: u64)
    ensures
        final(out)@ == old(out)@ + decimal_chars(n as nat),
    decreases n,
{
    if n >= 10 {
        push_decimal(out, n / 10);
    }
    push_char(out, digit_to_char((n % 10) as u8));
    assert(final(out)@ =~= old(out)@ + decimal_chars(n as nat)) by {
        if n >= 10 {
            assert(decimal_chars(n as nat) == decimal_chars((n / 10) as nat).push(
                digit_char((n % 10) as int),
            ));
        }
    }
}

/// Appends the characters of `text` to a string.
pub fn push_text(out: &mut String, text: &str)
    ensures
        final(out)@ == old(out)@ + text@,
{
    let n = text.unicode_len();
    let mut i: usize = 0;
    while i < n
        invariant
            n == text@.len(),
            i <= n,
            out@ == old(out)@ + text@.subrange(0, i as int),
        decreases n - i,
    {
        let c = text.get_char(i);
        push_char(out, c);
        proof {
            assert(text@.subrange(0, i + 1) =~= text@.subrange(0, i as int).push(c));
        }
        i += 1;
    }
    proof {
        assert(text@.subrange(0, n as int) =~= text@);
    }
}

/// The decimal notation of an integer, with a minus sign when it is negative.
pub open spec fn signed_decimal_chars(n: int) -> Seq<char> {
    if n < 0 {
        seq!['-'] + decimal_chars((-n) as nat)
    } else {
        decimal_chars(n as nat)
    }
}

/// Appends the decimal notation of an integer to a string.
pub fn push_signed(out: &mut String, n: i64)
    ensures
        final(out)@ == old(out)@ + signed_decimal_chars(n as int),
{
    if n < 0 {
        push_char(out, '-');
        let magnitude: u64 = (-(n as i128)) as u64;
        push_decimal(out, magnitude);
        assert(final(out)@ =~= old(out)@ + signed_decimal_chars(n as int));
    } else {
        push_decimal(out, n as u64);
    }
}

/// The notation of a player: `w` for white (0), `b` for black.
pub open spec fn player_notation(player: Player) -> Seq<char> {
    if player == 0 {
        seq!['w']
    } else {
        seq!['b']
    }
}

/// The player that a notation stands for.
pub open spec fn notation_player(s: Seq<char>) -> Option<Player> {
    if s == seq!['w'] {
        Some(0)
    } else if s == seq!['b'] {
        Some(1)
    } else {
        None
    }
}

/// Law: the notation of a player is read back as that player, and a notation
/// that stands for a player is the notation of that player.
pub proof fn lemma_player_notation(player: Player, s: Seq<char>)
    ensures
        player <= 1 ==> notation_player(player_notation(player)) == Some(player),
        notation_player(s) matches Some(p) ==> player_notation(p) == s,
{
    assert(seq!['b'][0] != seq!['w'][0]);
}

/// Parses the player argument: `"w"` -> `Ok(0)`, `"b"` -> `Ok(1)`
pub fn string_to_player(player: &str) -> (r: Result<Player, ParseError>)
    ensures
        match notation_player(player@) {
            Some(p) => r == Ok::<Player, ParseError>(p),
            None => r is Err,
        },
        player@ == seq!['w'] ==> r == Ok::<Player, ParseError>(0),
        player@ == seq!['b'] ==> r == Ok::<Player, ParseError>(1),
        player@ != seq!['w'] && player@ != seq!['b'] ==> (r matches Err(e) && e.value@ == player@
            && (e.kind matches ParseErrorKind::InvalidPlayer(InvalidPlayerKind::StrToPlayer(x))
            && x@ == player@)),
{
    let n = player.unicode_len();
    if n == 1 {
        let c = player.get_char(0);
        if c == 'w' {
            assert(player@ =~= seq!['w']);
            return Ok(0);
        } else if c == 'b' {
            assert(player@ =~= seq!['b']);
            return Ok(1);
        }
    }
    Err(
        ParseError {
            kind: ParseErrorKind::InvalidPlayer(InvalidPlayerKind::StrToPlayer(player.to_owned())),
            value: player.to_owned(),
        },
    )
}

/// Converts the current player to its Pijersi Standard Notation form: `0` -> `Ok("w".to_owned())`, `1` -> `Ok("b".to_owned())`
pub fn player_to_string(current_player: Player) -> (r: Result<String, ParseError>)
    ensures
        current_player <= 1 ==> (r matches Ok(s) && s@ == player_notation(current_player)),
        current_player == 0 ==> (r matches Ok(s) && s@ == seq!['w']),
        current_player == 1 ==> (r matches Ok(s) && s@ == seq!['b']),
        current_player > 1 ==> (r matches Err(e) && e.kind == ParseErrorKind::InvalidPlayer(
            InvalidPlayerKind::PlayerToStr(current_player),
        ) && e.value@ == decimal_chars(current_player as nat)),
{
    let mut s = String::new();
    if current_player == 0 {
        push_char(&mut s, 'w');
        Ok(s)
    } else if current_player == 1 {
        push_char(&mut s, 'b');
        Ok(s)
    } else {
        push_decimal(&mut s, current_player as u64);
        Err(
            ParseError {
                kind: ParseErrorKind::InvalidPlayer(InvalidPlayerKind::PlayerToStr(current_player)),
                value: s,
            },
        )
    }
}

/// The number of `/` among the first `k` characters.
pub open spec fn count_slashes(s: Seq<char>, k: int) -> int
    decreases k,
{
    if k <= 0 {
        0
    } else {
        count_slashes(s, k - 1) + if s[k - 1] == '/' {
            1int
        } else {
            0int
        }
    }
}

/// The value of an ASCII decimal digit.
pub open spec fn digit_value(c: char) -> Option<int> {
    if '0' <= c <= '9' {
        Some(c as int - 48)
    } else {
        None
    }
}

/// Reads the cells of a PSN board from position `k` on, the next cell to fill
/// being `cursor`: `/` separates lines; a piece character followed by `-` is a
/// single piece; two piece characters are a stack, bottom piece first; a digit
/// skips that many empty cells. `None` where the notation cannot be read
/// (a piece character that ends its line, a second character that is not a
/// piece, a character that is neither a piece nor a digit, or a cell past the last one).
pub open spec fn psn_parse(s: Seq<char>, k: int, cursor: int, cells: Seq<u8>) -> Option<Seq<u8>>
    decreases s.len() - k,
{
    if k >= s.len() || k < 0 {
        Some(cells)
    } else if s[k] == '/' {
        psn_parse(s, k + 1, cursor, cells)
    } else if piece_of_char(s[k]) is Some {
        if k + 1 >= s.len() || s[k + 1] == '/' || cursor >= 45 || cursor < 0 {
            None
        } else if s[k + 1] == '-' {
            psn_parse(s, k + 2, cursor + 1, cells.update(cursor, piece_of_char(s[k]).unwrap()))
        } else if piece_of_char(s[k + 1]) is Some {
            psn_parse(
                s,
                k + 2,
                cursor + 1,
                cells.update(
                    cursor,
                    (top_of(piece_of_char(s[k + 1]).unwrap()) + 16 * piece_of_char(
                        s[k],
                    ).unwrap()) as u8,
                ),
            )
        } else {
            None
        }
    } else if digit_value(s[k]) is Some {
        psn_parse(s, k + 1, cursor + digit_value(s[k]).unwrap(), cells)
    } else {
        None
    }
}

/// An empty board as cells.
pub open spec fn empty_cells() -> Seq<u8> {
    Seq::new(45, |i: int| 0u8)
}

/// Reads a Pijersi Standard Notation string to apply its state to the cells.
///
/// The notation has seven lines separated by `/`, read as [`psn_parse`] states.
pub fn string_to_cells(cells_string: &str) -> (r: Result<Cells, ParseError>)
    requires
        cells_string@.len() * 9 + 45 < usize::MAX,
        count_slashes(cells_string@, cells_string@.len() as int) == 6 ==> psn_parse(
            cells_string@,
            0,
            0,
            empty_cells(),
        ) is Some,
    ensures
        count_slashes(cells_string@, cells_string@.len() as int) != 6 ==> (r matches Err(e)
            && e.kind == ParseErrorKind::InvalidPosition(
            InvalidPositionKind::WrongLineNumber(
                (count_slashes(cells_string@, cells_string@.len() as int) + 1) as usize,
            ),
        ) && e.value@ == cells_string@),
        count_slashes(cells_string@, cells_string@.len() as int) == 6 ==> (r matches Ok(c)
            && c@ == psn_parse(cells_string@, 0, 0, empty_cells()).unwrap()),
{
    let n = cells_string.unicode_len();
    let mut slashes: usize = 0;
    let mut k: usize = 0;
    while k < n
        invariant
            n == cells_string@.len(),
            k <= n,
            slashes == count_slashes(cells_string@, k as int),
            slashes <= k,
        decreases n - k,
    {
        if cells_string.get_char(k) == '/' {
            slashes += 1;
        }
        k += 1;
    }
    if slashes != 6 {
        return Err(
            ParseError {
                kind: ParseErrorKind::InvalidPosition(
                    InvalidPositionKind::WrongLineNumber(slashes + 1),
                ),
                value: cells_string.to_owned(),
            },
        );
    }
    let ghost s = cells_string@;
    let mut cursor: usize = 0;
    let mut new_cells: Cells = [0u8; N_CELLS];
    assert(new_cells@ =~= empty_cells());
    let mut k: usize = 0;
    while k < n
        invariant
            n == s.len(),
            s == cells_string@,
            k <= n,
            n * 9 + 45 < usize::MAX,
            cursor <= 9 * k,
            psn_parse(s, k as int, cursor as int, new_cells@) == psn_parse(
                s,
                0,
                0,
                empty_cells(),
            ),
            psn_parse(s, 0, 0, empty_cells()) is Some,
        decreases n - k,
    {
        let c = cells_string.get_char(k);
        if c == '/' {
            k += 1;
        } else if let Some(top_char) = char_to_piece(c) {
            let next = cells_string.get_char(k + 1);
            if next == '-' {
                new_cells[cursor] = top_char;
            } else {
                let top = char_to_piece(next).unwrap();
                let stacked = top.stack_on(top_char);
                proof {
                    let t = top;
                    let b = top_char;
                    assert((t & 15u8) | (b << 4u8) == ((t % 16) + 16 * b) as u8) by (bit_vector)
                        requires
                            b < 16,
                    ;
                }
                new_cells[cursor] = stacked;
            }
            k += 2;
            cursor += 1;
        } else {
            let jump: usize = match c {
                '0' => 0,
                '1' => 1,
                '2' => 2,
                '3' => 3,
                '4' => 4,
                '5' => 5,
                '6' => 6,
                '7' => 7,
                '8' => 8,
                _ => 9,
            };
            k += 1;
            cursor += jump;
        }
    }
    assert(psn_parse(s, k as int, cursor as int, new_cells@) == Some(new_cells@));
    Ok(new_cells)
}

/// Whether the cells part of a PSN string can be read by [`string_to_cells`]:
/// its length is within bounds and, when it has seven lines, its notation can
/// be read (see [`psn_parse`]).
pub fn can_read_cells(cells_string: &str) -> (r: bool)
    ensures
        r == (cells_string@.len() * 9 + 45 < usize::MAX && (count_slashes(
            cells_string@,
            cells_string@.len() as int,
        ) == 6 ==> psn_parse(cells_string@, 0, 0, empty_cells()) is Some)),
{
    let n = cells_string.unicode_len();
    match n.checked_mul(9) {
        Some(m) => {
            if m >= usize::MAX - 45 {
                return false;
            }
        },
        None => {
            return false;
        },
    }
    assert(n * 9 + 45 < usize::MAX);
    let mut slashes: usize = 0;
    let mut k: usize = 0;
    while k < n
        invariant
            n == cells_string@.len(),
            k <= n,
            slashes == count_slashes(cells_string@, k as int),
            slashes <= k,
        decreases n - k,
    {
        if cells_string.get_char(k) == '/' {
            slashes += 1;
        }
        k += 1;
    }
    if slashes != 6 {
        return true;
    }
    let ghost s = cells_string@;
    let ghost mut cells = empty_cells();
    let mut cursor: usize = 0;
    let mut k: usize = 0;
    while k < n
        invariant
            n == s.len(),
            s == cells_string@,
            k <= n,
            n * 9 + 45 < usize::MAX,
            count_slashes(s, n as int) == 6,
            cursor <= 9 * k,
            psn_parse(s, k as int, cursor as int, cells) is Some == psn_parse(s, 0, 0, empty_cells()) is Some,
        decreases n - k,
    {
        let c = cells_string.get_char(k);
        if c == '/' {
            k += 1;
        } else if let Some(top_char) = char_to_piece(c) {
            if k + 1 >= n || cursor >= 45 {
                return false;
            }
            let next = cells_string.get_char(k + 1);
            if next == '/' {
                return false;
            } else if next == '-' {
                proof {
                    cells = cells.update(cursor as int, piece_of_char(c).unwrap());
                }
            } else {
                match char_to_piece(next) {
                    Some(top) => {
                        proof {
                            cells = cells.update(
                                cursor as int,
                                (top_of(piece_of_char(next).unwrap()) + 16 * piece_of_char(c).unwrap()) as u8,
                            );
                        }
                    },
                    None => {
                        return false;
                    },
                }
            }
            k += 2;
            cursor += 1;
        } else {
            let jump: usize = match c {
                '0' => 0,
                '1' => 1,
                '2' => 2,
                '3' => 3,
                '4' => 4,
                '5' => 5,
                '6' => 6,
                '7' => 7,
                '8' => 8,
                '9' => 9,
                _ => {
                    return false;
                },
            };
            k += 1;
            cursor += jump;
        }
    }
    true
}

/// The two characters of a non-empty cell in PSN: the bottom piece then the top
/// piece for a stack, the piece then `-` for a single piece.
pub open spec fn piece_chars(p: u8) -> Seq<char> {
    if p >= 16 {
        seq![char_of_piece(bottom_of(p)).unwrap(), char_of_piece(top_of(p)).unwrap()]
    } else {
        seq![char_of_piece(p).unwrap(), '-']
    }
}

/// The number of cells of a row: 6 on even rows, 7 on odd rows.
pub open spec fn row_len(i: int) -> int {
    if i % 2 == 0 {
        6
    } else {
        7
    }
}

/// The PSN of row `i` from column `j` on, after `counter` empty cells: each run
/// of empty cells is written as its length.
pub open spec fn row_notation(c: Seq<u8>, i: int, j: int, counter: int) -> Seq<char>
    decreases row_len(i) - j,
{
    if j >= row_len(i) {
        if counter > 0 {
            seq![digit_char(counter)]
        } else {
            seq![]
        }
    } else if c[coords_index(i, j)] == 0 {
        row_notation(c, i, j + 1, counter + 1)
    } else {
        (if counter > 0 {
            seq![digit_char(counter)]
        } else {
            seq![]
        }) + piece_chars(c[coords_index(i, j)]) + row_notation(c, i, j + 1, 0)
    }
}

/// The PSN of the rows from `i` on, separated by `/`.
pub open spec fn psn_rows(c: Seq<u8>, i: int) -> Seq<char>
    decreases 7 - i,
{
    if i >= 7 {
        seq![]
    } else {
        row_notation(c, i, 0, 0) + (if i < 6 {
            seq!['/']
        } else {
            seq![]
        }) + psn_rows(c, i + 1)
    }
}

/// A cell whose pieces all have a character: empty, a single piece, or two
/// nibbles that each are empty or a piece.
pub open spec fn cell_notation_ok(p: u8) -> bool {
    p == 0 || (p < 16 && char_of_piece(p) is Some) || (p >= 16 && char_of_piece(bottom_of(p)) is Some
        && char_of_piece(top_of(p)) is Some)
}

/// Every cell can be written down.
pub open spec fn valid_cells(c: Seq<u8>) -> bool {
    c.len() == 45 && forall|k: int| 0 <= k < 45 ==> cell_notation_ok(#[trigger] c[k])
}

/// Every cell read from a board can be written down.
pub proof fn lemma_piece_at_notation(v: Seq<u64>, index: int)
    ensures
        cell_notation_ok(piece_at(v, index)),
{
    crate::bitboard::lemma_first_set_range(v, index, 0, 8);
    crate::bitboard::lemma_first_set_range(v, index, 8, 16);
}

/// Converts the cells state to a Pijersi Standard Notation string.
pub fn cells_to_string(cells: &Cells) -> (r: String)
    requires
        valid_cells(cells@),
    ensures
        r@ == psn_rows(cells@, 0),
{
    let ghost c = cells@;
    let mut cells_string = String::new();
    let mut i: usize = 0;
    while i < 7
        invariant
            c == cells@,
            valid_cells(c),
            i <= 7,
            cells_string@ + psn_rows(c, i as int) == psn_rows(c, 0),
        decreases 7 - i,
    {
        let n_columns: usize = if i % 2 == 0 {
            6
        } else {
            7
        };
        let ghost row_start = cells_string@;
        let mut counter: usize = 0;
        let mut j: usize = 0;
        while j < n_columns
            invariant
                c == cells@,
                valid_cells(c),
                i < 7,
                n_columns == row_len(i as int),
                j <= n_columns,
                counter <= j,
                cells_string@ + row_notation(c, i as int, j as int, counter as int) == row_start
                    + row_notation(c, i as int, 0, 0),
            decreases n_columns - j,
        {
            proof {
                lemma_coords_roundtrip(0, i as int, j as int);
            }
            let piece = cells[coords_to_index(i, j)];
            let ghost counter0 = counter as int;
            if piece.is_empty() {
                counter += 1;
            } else {
                let ghost before = cells_string@;
                if counter > 0 {
                    push_char(&mut cells_string, digit_to_char(counter as u8));
                    counter = 0;
                }
                if piece.is_stack() {
                    push_char(&mut cells_string, piece_to_char(piece.bottom()).unwrap());
                    push_char(&mut cells_string, piece_to_char(piece.top()).unwrap());
                } else {
                    push_char(&mut cells_string, piece_to_char(piece).unwrap());
                    push_char(&mut cells_string, '-');
                }
                assert(cells_string@ + row_notation(c, i as int, j + 1, 0) =~= before
                    + row_notation(c, i as int, j as int, counter0));
            }
            j += 1;
        }
        let ghost s0 = cells_string@;
        assert(row_notation(c, i as int, j as int, counter as int) == if counter > 0 {
            seq![digit_char(counter as int)]
        } else {
            seq![]
        });
        if counter > 0 {
            push_char(&mut cells_string, digit_to_char(counter as u8));
        }
        assert(cells_string@ =~= row_start + row_notation(c, i as int, 0, 0));
        let ghost s1 = cells_string@;
        assert(psn_rows(c, i as int) == row_notation(c, i as int, 0, 0) + (if i < 6 {
            seq!['/']
        } else {
            seq![]
        }) + psn_rows(c, i + 1));
        if i < 6 {
            push_char(&mut cells_string, '/');
        }
        assert(cells_string@ + psn_rows(c, i + 1) =~= row_start + psn_rows(c, i as int));
        i += 1;
    }
    cells_string
}

/// The character of a half piece in the pretty notation, `empty` for no piece.
pub open spec fn pretty_char(nibble: u8, empty: char) -> char {
    if nibble == 0 {
        empty
    } else if nibble == 8 {
        'S'
    } else if nibble == 9 {
        'P'
    } else if nibble == 10 {
        'R'
    } else if nibble == 11 {
        'W'
    } else if nibble == 12 {
        's'
    } else if nibble == 13 {
        'p'
    } else if nibble == 14 {
        'r'
    } else if nibble == 15 {
        'w'
    } else {
        '?'
    }
}

fn nibble_to_pretty_char(nibble: u8, empty: char) -> (r: char)
    ensures
        r == pretty_char(nibble, empty),
{
    match nibble {
        0b0000 => empty,
        0b1000 => 'S',
        0b1001 => 'P',
        0b1010 => 'R',
        0b1011 => 'W',
        0b1100 => 's',
        0b1101 => 'p',
        0b1110 => 'r',
        0b1111 => 'w',
        _ => '?',
    }
}

/// The three characters of a cell in the pretty notation: the top piece (`.`
/// for an empty cell), the bottom piece (`-` for none, a space for an empty
/// cell) and a space.
pub open spec fn pretty_cell(p: u8) -> Seq<char> {
    seq![
        pretty_char(top_of(p), '.'),
        if top_of(p) == 0 {
            ' '
        } else {
            pretty_char(bottom_of(p), '-')
        },
        ' ',
    ]
}

/// What follows cell `i` in the pretty notation: a line break at the end of a
/// row, and a space to shift the rows of six cells.
pub open spec fn pretty_break(i: int) -> Seq<char> {
    if i == 5 || i == 18 || i == 31 {
        seq!['\n']
    } else if i == 12 || i == 25 || i == 38 {
        seq!['\n', ' ']
    } else {
        seq![]
    }
}

/// The pretty notation of the cells from `k` on.
pub open spec fn pretty_from(c: Seq<u8>, k: int) -> Seq<char>
    decreases 45 - k,
{
    if k >= 45 || k < 0 {
        seq![]
    } else {
        pretty_cell(c[k]) + pretty_break(k) + pretty_from(c, k + 1)
    }
}

/// Converts the cells to a pretty-formatted string.
pub fn cells_to_pretty_string(cells: &Cells) -> (r: String)
    ensures
        r@ == seq![' '] + pretty_from(cells@, 0),
{
    let ghost c = cells@;
    let mut out = String::new();
    push_char(&mut out, ' ');
    let mut i: usize = 0;
    while i < N_CELLS
        invariant
            c == cells@,
            i <= 45,
            out@ + pretty_from(c, i as int) == seq![' '] + pretty_from(c, 0),
        decreases N_CELLS - i,
    {
        let piece = cells[i];
        let ghost before = out@;
        let top_piece: Piece = piece.top();
        let bottom_piece: Piece = piece.bottom();
        let char1 = nibble_to_pretty_char(top_piece, '.');
        let char2 = if top_piece == 0 {
            ' '
        } else {
            nibble_to_pretty_char(bottom_piece, '-')
        };
        push_char(&mut out, char1);
        push_char(&mut out, char2);
        push_char(&mut out, ' ');
        if i == 5 || i == 12 || i == 18 || i == 25 || i == 31 || i == 38 {
            push_char(&mut out, '\n');
            if i == 12 || i == 25 || i == 38 {
                push_char(&mut out, ' ');
            }
        }
        assert(out@ + pretty_from(c, i + 1) =~= before + pretty_from(c, i as int));
        i += 1;
    }
    out
}

/// The two characters of a cell in the board string: `..` for an empty cell,
/// otherwise the top piece then the bottom piece (`-` for none).
pub open spec fn board_cell_chars(p: u8) -> Seq<char> {
    if p == 0 {
        seq!['.', '.']
    } else {
        seq![
            char_of_piece(top_of(p)).unwrap(),
            if bottom_of(p) == 0 {
                '-'
            } else {
                char_of_piece(bottom_of(p)).unwrap()
            },
        ]
    }
}

/// The board string of the cells from `k` on.
pub open spec fn board_chars_from(c: Seq<u8>, k: int) -> Seq<char>
    decreases 45 - k,
{
    if k >= 45 || k < 0 {
        seq![]
    } else {
        board_cell_chars(c[k]) + board_chars_from(c, k + 1)
    }
}

/// Reads the board string from cell `k` on: two characters per cell, `..` for
/// an empty cell, otherwise a piece then `-` or a second piece below it.
pub open spec fn board_parse(s: Seq<char>, k: int, c: Seq<u8>) -> Option<Seq<u8>>
    decreases 45 - k,
{
    if k >= 45 || k < 0 {
        Some(c)
    } else {
        let c1 = s[2 * k];
        let c2 = s[2 * k + 1];
        if c1 == '.' && c2 == '.' {
            board_parse(s, k + 1, c.update(k, 0))
        } else if c1 != '-' && piece_of_char(c1) is Some && c2 == '-' {
            board_parse(s, k + 1, c.update(k, piece_of_char(c1).unwrap()))
        } else if c1 != '-' && piece_of_char(c1) is Some && c2 != '-' && piece_of_char(c2) is Some {
            board_parse(
                s,
                k + 1,
                c.update(k, (piece_of_char(c1).unwrap() + 16 * piece_of_char(c2).unwrap()) as u8),
            )
        } else {
            None
        }
    }
}

/// The cells of a board string, if it is one.
pub open spec fn board_string_cells(s: Seq<char>) -> Option<Seq<u8>> {
    if s.len() == 90 {
        board_parse(s, 0, empty_cells())
    } else {
        None
    }
}

impl Board {
    /// The board as a string of 45 cells of two characters each (see [`board_cell_chars`]).
    pub fn to_string(&self) -> (r: String)
        ensures
            r@ == board_chars_from(Seq::new(45, |i: int| piece_at(self@, i)), 0),
    {
        let ghost c = Seq::new(45, |i: int| piece_at(self@, i));
        let mut out = String::new();
        let mut i: usize = 0;
        while i < N_CELLS
            invariant
                c == Seq::new(45, |i: int| piece_at(self@, i)),
                i <= 45,
                out@ + board_chars_from(c, i as int) == board_chars_from(c, 0),
            decreases N_CELLS - i,
        {
            let piece = self.get_piece(i);
            let ghost before = out@;
            proof {
                lemma_piece_at_notation(self@, i as int);
            }
            if piece == 0 {
                push_char(&mut out, '.');
                push_char(&mut out, '.');
            } else {
                push_char(&mut out, piece_to_char(piece.top()).unwrap());
                if piece.bottom() == 0 {
                    push_char(&mut out, '-');
                } else {
                    push_char(&mut out, piece_to_char(piece.bottom()).unwrap());
                }
            }
            assert(out@ + board_chars_from(c, i + 1) =~= before + board_chars_from(c, i as int));
            i += 1;
        }
        out
    }

    /// Reads a board from a string of 45 cells of two characters each (see [`board_parse`]).
    pub fn try_from(board_string: &str) -> (r: Result<Board, ParseError>)
        ensures
            board_string_cells(board_string@) is None ==> (r matches Err(e) && e.kind
                == ParseErrorKind::InvalidPSN && e.value@ == board_string@),
            board_string_cells(board_string@) matches Some(c) ==> (r matches Ok(b) && forall|i: int|
                0 <= i < 45 ==> piece_at(b@, i) == #[trigger] c[i]),
    {
        let ghost s = board_string@;
        let n = board_string.unicode_len();
        if n != 90 {
            return Err(ParseError { kind: ParseErrorKind::InvalidPSN, value: board_string.to_owned() });
        }
        let mut cells: Cells = [0u8; N_CELLS];
        assert(cells@ =~= empty_cells());
        let mut k: usize = 0;
        while k < N_CELLS
            invariant
                s == board_string@,
                s.len() == 90,
                k <= 45,
                board_parse(s, k as int, cells@) == board_parse(s, 0, empty_cells()),
                forall|j: int| 0 <= j < k ==> crate::piece::is_valid_cell(#[trigger] cells@[j]),
            decreases N_CELLS - k,
        {
            let c1 = board_string.get_char(2 * k);
            let c2 = board_string.get_char(2 * k + 1);
            if c1 == '.' && c2 == '.' {
                cells[k] = 0;
            } else if c1 != '-' && char_to_piece(c1).is_some() && c2 == '-' {
                cells[k] = char_to_piece(c1).unwrap();
            } else if c1 != '-' && char_to_piece(c1).is_some() && c2 != '-' && char_to_piece(c2).is_some() {
                let top = char_to_piece(c1).unwrap();
                let bottom = char_to_piece(c2).unwrap();
                cells[k] = top + 16 * bottom;
            } else {
                return Err(ParseError { kind: ParseErrorKind::InvalidPSN, value: board_string.to_owned() });
            }
            k += 1;
        }
        assert forall|i: int| 0 <= i < 45 implies crate::piece::is_valid_cell(#[trigger] cells@[i]) by {}
        Ok(Board::from_cells(&cells))
    }

    /// The Pijersi Standard Notation of the cells of the board.
    pub fn to_fen(&self) -> (r: String)
        ensures
            r@ == psn_rows(Seq::new(45, |i: int| piece_at(self@, i)), 0),
    {
        let cells = self.to_cells();
        proof {
            assert(cells@ =~= Seq::new(45, |i: int| piece_at(self@, i)));
            assert forall|k: int| 0 <= k < 45 implies cell_notation_ok(#[trigger] cells@[k]) by {
                lemma_piece_at_notation(self@, k);
            }
        }
        cells_to_string(&cells)
    }
}

/// The cells read from PSN: every cell is empty, a single piece or a stack.
pub proof fn lemma_psn_parse_valid(s: Seq<char>, k: int, cursor: int, cells: Seq<u8>)
    requires
        cells.len() == 45,
        forall|i: int| 0 <= i < cells.len() ==> crate::piece::is_valid_cell(#[trigger] cells[i]),
        psn_parse(s, k, cursor, cells) is Some,
    ensures
        forall|i: int|
            0 <= i < psn_parse(s, k, cursor, cells).unwrap().len() ==> crate::piece::is_valid_cell(
                #[trigger] psn_parse(s, k, cursor, cells).unwrap()[i],
            ),
        psn_parse(s, k, cursor, cells).unwrap().len() == cells.len(),
    decreases s.len() - k,
{
    if k >= s.len() || k < 0 {
    } else if s[k] == '/' {
        lemma_psn_parse_valid(s, k + 1, cursor, cells);
    } else if piece_of_char(s[k]) is Some {
        if s[k + 1] == '-' {
            let c2 = cells.update(cursor, piece_of_char(s[k]).unwrap());
            assert forall|i: int| 0 <= i < c2.len() implies crate::piece::is_valid_cell(
                #[trigger] c2[i],
            ) by {
                if i != cursor {
                    assert(c2[i] == cells[i]);
                }
            }
            lemma_psn_parse_valid(s, k + 2, cursor + 1, c2);
        } else {
            let c2 = cells.update(
                cursor,
                (top_of(piece_of_char(s[k + 1]).unwrap()) + 16 * piece_of_char(s[k]).unwrap()) as u8,
            );
            assert forall|i: int| 0 <= i < c2.len() implies crate::piece::is_valid_cell(
                #[trigger] c2[i],
            ) by {
                if i != cursor {
                    assert(c2[i] == cells[i]);
                }
            }
            lemma_psn_parse_valid(s, k + 2, cursor + 1, c2);
        }
    } else {
        lemma_psn_parse_valid(s, k + 1, cursor + digit_value(s[k]).unwrap(), cells);
    }
}

/// The value of a decimal number written with ASCII digits.
pub open spec fn decimal_value(s: Seq<char>) -> nat
    decreases s.len(),
{
    if s.len() == 0 {
        0
    } else {
        decimal_value(s.drop_last()) * 10 + (s.last() as nat - 48) as nat
    }
}

/// The number that `u64::from_str` reads: an optional `+` then at least one
/// ASCII digit, with a value that fits in a `u64`.
pub open spec fn u64_literal(s: Seq<char>) -> Option<u64> {
    let digits = if s.len() > 0 && s[0] == '+' {
        s.skip(1)
    } else {
        s
    };
    if digits.len() > 0 && (forall|i: int| 0 <= i < digits.len() ==> '0' <= #[trigger] digits[i]
        <= '9') && decimal_value(digits) <= u64::MAX {
        Some(decimal_value(digits) as u64)
    } else {
        None
    }
}

/// Parses a `u64` written in decimal.
///
/// Calls `str::parse::<u64>`, whose documentation accepts an optional `+`
/// followed by ASCII digits, with no whitespace, and fails on an empty string,
/// an invalid digit or a value that does not fit. The contract states that the
/// result is the number read in exactly those cases; the error value itself is
/// not described.
#[verifier::external_body]
pub(crate) fn parse_u64(s: &str) -> (r: Result<u64, std::num::ParseIntError>)
    ensures
        match u64_literal(s@) {
            Some(n) => r == Ok::<u64, std::num::ParseIntError>(n),
            None => r is Err,
        },
{
    s.parse::<u64>()
}

/// Splits a string on a separator character, as `str::split` does (empty parts included).
pub open spec fn split_on(s: Seq<char>, sep: char) -> Seq<Seq<char>>
    decreases s.len(),
{
    if s.len() == 0 {
        seq![seq![]]
    } else {
        let rest = split_on(s.drop_last(), sep);
        if s.last() == sep {
            rest.push(seq![])
        } else {
            rest.update(rest.len() - 1, rest.last().push(s.last()))
        }
    }
}

/// Splits a string on a separator character, as `str::split` does.
pub fn split_string(s: &str, sep: char) -> (r: Vec<String>)
    ensures
        r@.map_values(|x: String| x@) == split_on(s@, sep),
{
    let n = s.unicode_len();
    let mut parts: Vec<String> = Vec::new();
    let mut current = String::new();
    let mut k: usize = 0;
    assert(s@.subrange(0, 0) =~= Seq::<char>::empty());
    while k < n
        invariant
            n == s@.len(),
            k <= n,
            parts@.map_values(|x: String| x@).push(current@) == split_on(s@.subrange(0, k as int), sep),
        decreases n - k,
    {
        let c = s.get_char(k);
        let ghost prev = s@.subrange(0, k as int);
        assert(s@.subrange(0, k + 1).drop_last() =~= prev);
        if c == sep {
            parts.push(current);
            current = String::new();
            assert(parts@.map_values(|x: String| x@).push(current@) =~= split_on(prev, sep).push(seq![]));
        } else {
            push_char(&mut current, c);
            let ghost rest = split_on(prev, sep);
            assert(parts@.map_values(|x: String| x@).push(current@) =~= rest.update(
                rest.len() - 1,
                rest.last().push(c),
            ));
        }
        k += 1;
    }
    parts.push(current);
    assert(s@.subrange(0, n as int) =~= s@);
    assert(parts@.map_values(|x: String| x@) =~= split_on(s@, sep));
    parts
}


/// The first `n` cells of `c`, the others empty.
pub open spec fn cells_upto(c: Seq<u8>, n: int) -> Seq<u8> {
    Seq::new(45, |x: int| if x < n { c[x] } else { 0u8 })
}

/// Reading a notation from position `k` reads its suffix from the start.
proof fn lemma_parse_suffix(s: Seq<char>, k: int, cursor: int, cells: Seq<u8>)
    requires
        0 <= k <= s.len(),
    ensures
        psn_parse(s, k, cursor, cells) == psn_parse(s.subrange(k, s.len() as int), 0, cursor, cells),
    decreases s.len() - k,
{
    let t = s.subrange(k, s.len() as int);
    if k < s.len() {
        assert(t.subrange(1, t.len() as int) =~= s.subrange(k + 1, s.len() as int));
        if s[k] == '/' {
            lemma_parse_suffix(s, k + 1, cursor, cells);
            lemma_parse_suffix(t, 1, cursor, cells);
        } else if piece_of_char(s[k]) is Some {
            if k + 1 < s.len() && s[k + 1] != '/' && 0 <= cursor < 45 {
                let p = piece_of_char(s[k]).unwrap();
                assert(t.subrange(2, t.len() as int) =~= s.subrange(k + 2, s.len() as int));
                if s[k + 1] == '-' {
                    let c2 = cells.update(cursor, p);
                    lemma_parse_suffix(s, k + 2, cursor + 1, c2);
                    lemma_parse_suffix(t, 2, cursor + 1, c2);
                } else if piece_of_char(s[k + 1]) is Some {
                    let c2 = cells.update(
                        cursor,
                        (top_of(piece_of_char(s[k + 1]).unwrap()) + 16 * p) as u8,
                    );
                    lemma_parse_suffix(s, k + 2, cursor + 1, c2);
                    lemma_parse_suffix(t, 2, cursor + 1, c2);
                }
            }
        } else if digit_value(s[k]) is Some {
            let d = digit_value(s[k]).unwrap();
            lemma_parse_suffix(s, k + 1, cursor + d, cells);
            lemma_parse_suffix(t, 1, cursor + d, cells);
        }
    }
}

/// A `/` is skipped.
proof fn lemma_parse_slash(rest: Seq<char>, cursor: int, cells: Seq<u8>)
    ensures
        psn_parse(seq!['/'] + rest, 0, cursor, cells) == psn_parse(rest, 0, cursor, cells),
{
    let t = seq!['/'] + rest;
    lemma_parse_suffix(t, 1, cursor, cells);
    assert(t.subrange(1, t.len() as int) =~= rest);
}

/// A digit skips that many cells.
proof fn lemma_parse_digit(d: int, rest: Seq<char>, cursor: int, cells: Seq<u8>)
    requires
        1 <= d <= 9,
    ensures
        psn_parse(seq![digit_char(d)] + rest, 0, cursor, cells) == psn_parse(
            rest,
            0,
            cursor + d,
            cells,
        ),
{
    let t = seq![digit_char(d)] + rest;
    assert(digit_char(d) as int == 48 + d);
    assert(digit_value(digit_char(d)) == Some(d));
    lemma_parse_suffix(t, 1, cursor + d, cells);
    assert(t.subrange(1, t.len() as int) =~= rest);
}

/// The two characters of a non-empty cell fill that cell.
proof fn lemma_parse_cell(p: u8, rest: Seq<char>, cursor: int, cells: Seq<u8>)
    requires
        crate::piece::is_valid_cell(p),
        p != 0,
        0 <= cursor < 45,
    ensures
        psn_parse(piece_chars(p) + rest, 0, cursor, cells) == psn_parse(
            rest,
            0,
            cursor + 1,
            cells.update(cursor, p),
        ),
{
    let t = piece_chars(p) + rest;
    lemma_parse_suffix(t, 2, cursor + 1, cells.update(cursor, p));
    assert(t.subrange(2, t.len() as int) =~= rest);
    if p >= 16 {
        assert(top_of(p) + 16 * bottom_of(p) == p);
    }
}

/// Where row `i` starts, and that it ends where row `i + 1` starts.
proof fn lemma_row_bounds(i: int, j: int)
    requires
        0 <= i < 7,
        0 <= j <= row_len(i),
    ensures
        coords_index(i, j) == coords_index(i, 0) + j,
        coords_index(i, row_len(i)) == coords_index(i + 1, 0),
        0 <= coords_index(i, 0),
        coords_index(i + 1, 0) <= 45,
        coords_index(7, 0) == 45,
        coords_index(0, 0) == 0,
{
}

/// Reading the notation of row `i` from column `j`, after `counter` empty
/// cells, fills the cells up to the end of the row.
proof fn lemma_parse_row(c: Seq<u8>, i: int, j: int, counter: int, rest: Seq<char>)
    requires
        c.len() == 45,
        forall|x: int| 0 <= x < 45 ==> crate::piece::is_valid_cell(#[trigger] c[x]),
        0 <= i < 7,
        0 <= counter <= j <= row_len(i),
        forall|x: int| coords_index(i, j - counter) <= x < coords_index(i, j) ==> #[trigger] c[x] == 0,
    ensures
        psn_parse(
            row_notation(c, i, j, counter) + rest,
            0,
            coords_index(i, j - counter),
            cells_upto(c, coords_index(i, j - counter)),
        ) == psn_parse(rest, 0, coords_index(i + 1, 0), cells_upto(c, coords_index(i + 1, 0))),
    decreases row_len(i) - j,
{
    let start = coords_index(i, j - counter);
    let end = coords_index(i + 1, 0);
    lemma_row_bounds(i, j);
    lemma_row_bounds(i, j - counter);
    lemma_row_bounds(i, row_len(i));
    if j >= row_len(i) {
        if counter > 0 {
            lemma_parse_digit(counter, rest, start, cells_upto(c, start));
            assert(cells_upto(c, start) =~= cells_upto(c, end));
        } else {
            assert(row_notation(c, i, j, counter) + rest =~= rest);
        }
    } else if c[coords_index(i, j)] == 0 {
        lemma_row_bounds(i, j + 1);
        lemma_parse_row(c, i, j + 1, counter + 1, rest);
    } else {
        let idx = coords_index(i, j);
        lemma_row_bounds(i, j + 1);
        let tail = row_notation(c, i, j + 1, 0);
        let cell = piece_chars(c[idx]);
        if counter > 0 {
            assert(row_notation(c, i, j, counter) + rest =~= seq![digit_char(counter)] + (cell + (
            tail + rest)));
            lemma_parse_digit(counter, cell + (tail + rest), start, cells_upto(c, start));
            assert(cells_upto(c, start) =~= cells_upto(c, idx));
        } else {
            assert(row_notation(c, i, j, counter) + rest =~= cell + (tail + rest));
        }
        lemma_parse_cell(c[idx], tail + rest, idx, cells_upto(c, idx));
        assert(cells_upto(c, idx).update(idx, c[idx]) =~= cells_upto(c, idx + 1));
        lemma_parse_row(c, i, j + 1, 0, rest);
    }
}

/// Reading the notation of the rows from `i` on completes the cells.
proof fn lemma_parse_rows(c: Seq<u8>, i: int)
    requires
        c.len() == 45,
        forall|x: int| 0 <= x < 45 ==> crate::piece::is_valid_cell(#[trigger] c[x]),
        0 <= i <= 7,
    ensures
        psn_parse(psn_rows(c, i), 0, coords_index(i, 0), cells_upto(c, coords_index(i, 0)))
            == Some(c),
    decreases 7 - i,
{
    if i >= 7 {
        lemma_row_bounds(6, 0);
        assert(cells_upto(c, 45) =~= c);
    } else {
        let sep: Seq<char> = if i < 6 {
            seq!['/']
        } else {
            seq![]
        };
        let rest = sep + psn_rows(c, i + 1);
        assert(psn_rows(c, i) =~= row_notation(c, i, 0, 0) + rest);
        lemma_parse_row(c, i, 0, 0, rest);
        if i < 6 {
            lemma_parse_slash(
                psn_rows(c, i + 1),
                coords_index(i + 1, 0),
                cells_upto(c, coords_index(i + 1, 0)),
            );
        } else {
            assert(rest =~= psn_rows(c, i + 1));
        }
        lemma_parse_rows(c, i + 1);
    }
}

/// The slashes among the first `k` characters depend on those characters only.
proof fn lemma_slashes_prefix(s: Seq<char>, t: Seq<char>, k: int)
    requires
        0 <= k <= s.len(),
        k <= t.len(),
        forall|x: int| 0 <= x < k ==> s[x] == t[x],
    ensures
        count_slashes(s, k) == count_slashes(t, k),
    decreases k,
{
    if k > 0 {
        lemma_slashes_prefix(s, t, k - 1);
    }
}

/// The slashes of two strings put together add up.
proof fn lemma_slashes_concat(a: Seq<char>, b: Seq<char>)
    ensures
        count_slashes(a + b, (a + b).len() as int) == count_slashes(a, a.len() as int)
            + count_slashes(b, b.len() as int),
    decreases b.len(),
{
    if b.len() == 0 {
        assert(a + b =~= a);
    } else {
        let b2 = b.drop_last();
        lemma_slashes_concat(a, b2);
        lemma_slashes_prefix(a + b, a + b2, (a + b).len() - 1);
        lemma_slashes_prefix(b, b2, b.len() - 1);
    }
}

/// A string of one character that is not `/` has no slash.
proof fn lemma_slashes_none(s: Seq<char>)
    requires
        s.len() <= 2,
        forall|x: int| 0 <= x < s.len() ==> s[x] != '/',
    ensures
        count_slashes(s, s.len() as int) == 0,
{
    reveal_with_fuel(count_slashes, 3);
}

/// The notation of a row has no slash, and at most two characters per cell
/// and one for the empty cells before them.
proof fn lemma_row_notation_shape(c: Seq<u8>, i: int, j: int, counter: int)
    requires
        c.len() == 45,
        forall|x: int| 0 <= x < 45 ==> crate::piece::is_valid_cell(#[trigger] c[x]),
        0 <= i < 7,
        0 <= counter <= j <= row_len(i),
    ensures
        count_slashes(row_notation(c, i, j, counter), row_notation(c, i, j, counter).len() as int)
            == 0,
        row_notation(c, i, j, counter).len() <= 2 * (row_len(i) - j) + if counter > 0 {
            1int
        } else {
            0int
        },
    decreases row_len(i) - j,
{
    lemma_row_bounds(i, j);
    let digit: Seq<char> = if counter > 0 {
        seq![digit_char(counter)]
    } else {
        seq![]
    };
    assert(digit_char(counter) as int == 48 + counter);
    lemma_slashes_none(digit);
    if j >= row_len(i) {
    } else if c[coords_index(i, j)] == 0 {
        lemma_row_notation_shape(c, i, j + 1, counter + 1);
    } else {
        let p = c[coords_index(i, j)];
        let tail = row_notation(c, i, j + 1, 0);
        lemma_row_notation_shape(c, i, j + 1, 0);
        lemma_slashes_none(piece_chars(p));
        lemma_slashes_concat(digit, piece_chars(p));
        lemma_slashes_concat(digit + piece_chars(p), tail);
    }
}

/// The rows from `i` on are separated by `6 - i` slashes.
proof fn lemma_rows_shape(c: Seq<u8>, i: int)
    requires
        c.len() == 45,
        forall|x: int| 0 <= x < 45 ==> crate::piece::is_valid_cell(#[trigger] c[x]),
        0 <= i <= 7,
    ensures
        count_slashes(psn_rows(c, i), psn_rows(c, i).len() as int) == if i < 7 {
            6 - i
        } else {
            0
        },
        psn_rows(c, i).len() <= 16 * (7 - i),
    decreases 7 - i,
{
    if i < 7 {
        let sep: Seq<char> = if i < 6 {
            seq!['/']
        } else {
            seq![]
        };
        lemma_row_notation_shape(c, i, 0, 0);
        lemma_rows_shape(c, i + 1);
        reveal_with_fuel(count_slashes, 2);
        lemma_slashes_concat(row_notation(c, i, 0, 0), sep);
        lemma_slashes_concat(row_notation(c, i, 0, 0) + sep, psn_rows(c, i + 1));
    }
}

/// Law: the cells of a board written in Pijersi Standard Notation read back as
/// the same cells, from a notation of seven lines that is short enough to be read.
pub proof fn lemma_psn_roundtrip(c: Seq<u8>)
    requires
        c.len() == 45,
        forall|x: int| 0 <= x < 45 ==> crate::piece::is_valid_cell(#[trigger] c[x]),
    ensures
        count_slashes(psn_rows(c, 0), psn_rows(c, 0).len() as int) == 6,
        psn_rows(c, 0).len() <= 112,
        psn_parse(psn_rows(c, 0), 0, 0, empty_cells()) == Some(c),
{
    lemma_rows_shape(c, 0);
    lemma_parse_rows(c, 0);
    lemma_row_bounds(0, 0);
    assert(cells_upto(c, 0) =~= empty_cells());
}

/// Where the characters of each cell stand in the board string.
proof fn lemma_board_chars_at(c: Seq<u8>, k: int)
    requires
        0 <= k <= 45,
    ensures
        board_chars_from(c, k).len() == 2 * (45 - k),
        forall|x: int|
            k <= x < 45 ==> board_chars_from(c, k)[2 * (x - k)] == #[trigger] board_cell_chars(
                c[x],
            )[0] && board_chars_from(c, k)[2 * (x - k) + 1] == board_cell_chars(c[x])[1],
    decreases 45 - k,
{
    if k < 45 {
        lemma_board_chars_at(c, k + 1);
        let rest = board_chars_from(c, k + 1);
        assert forall|x: int| k <= x < 45 implies board_chars_from(c, k)[2 * (x - k)]
            == #[trigger] board_cell_chars(c[x])[0] && board_chars_from(c, k)[2 * (x - k) + 1]
            == board_cell_chars(c[x])[1] by {
            if x > k {
                assert(board_chars_from(c, k)[2 * (x - k)] == rest[2 * (x - (k + 1))]);
                assert(board_chars_from(c, k)[2 * (x - k) + 1] == rest[2 * (x - (k + 1)) + 1]);
            }
        }
    }
}

/// Reading the board string of `c` from cell `k` on completes the cells.
proof fn lemma_board_parse_from(c: Seq<u8>, k: int)
    requires
        c.len() == 45,
        forall|x: int| 0 <= x < 45 ==> crate::piece::is_valid_cell(#[trigger] c[x]),
        0 <= k <= 45,
    ensures
        board_parse(board_chars_from(c, 0), k, cells_upto(c, k)) == Some(c),
    decreases 45 - k,
{
    let s = board_chars_from(c, 0);
    if k >= 45 {
        assert(cells_upto(c, 45) =~= c);
    } else {
        lemma_board_chars_at(c, 0);
        assert(s[2 * k] == board_cell_chars(c[k])[0]);
        let p = c[k];
        assert(cells_upto(c, k).update(k, p) =~= cells_upto(c, k + 1));
        if p >= 16 {
            assert(top_of(p) + 16 * bottom_of(p) == p);
        }
        lemma_board_parse_from(c, k + 1);
    }
}

/// Law: the board string of valid cells reads back as the same cells.
pub proof fn lemma_board_string_roundtrip(c: Seq<u8>)
    requires
        c.len() == 45,
        forall|x: int| 0 <= x < 45 ==> crate::piece::is_valid_cell(#[trigger] c[x]),
    ensures
        board_string_cells(board_chars_from(c, 0)) == Some(c),
{
    lemma_board_chars_at(c, 0);
    lemma_board_parse_from(c, 0);
    assert(cells_upto(c, 0) =~= empty_cells());
}

/// Law: the decimal notation of a number reads back as that number.
pub proof fn lemma_decimal_roundtrip(n: nat)
    requires
        n <= u64::MAX,
    ensures
        u64_literal(decimal_chars(n)) == Some(n as u64),
        forall|i: int| 0 <= i < decimal_chars(n).len() ==> '0' <= #[trigger] decimal_chars(n)[i] <= '9',
{
    lemma_decimal_digits(n);
}

/// The decimal notation of a number is made of digits and has its value.
proof fn lemma_decimal_digits(n: nat)
    ensures
        decimal_chars(n).len() > 0,
        forall|i: int| 0 <= i < decimal_chars(n).len() ==> '0' <= #[trigger] decimal_chars(n)[i] <= '9',
        decimal_value(decimal_chars(n)) == n,
    decreases n,
{
    if n < 10 {
        let d = digit_char(n as int);
        assert(d as int == 48 + n);
        assert(decimal_chars(n).drop_last() =~= Seq::<char>::empty());
        assert(decimal_chars(n).last() == d);
        assert(decimal_value(decimal_chars(n)) == decimal_value(Seq::<char>::empty()) * 10 + (d as nat
            - 48) as nat);
    } else {
        lemma_decimal_digits(n / 10);
        let d = digit_char((n % 10) as int);
        assert(d as int == 48 + n % 10);
        assert(decimal_chars(n).drop_last() =~= decimal_chars(n / 10));
        assert(decimal_chars(n).last() == d);
        assert(decimal_value(decimal_chars(n)) == decimal_value(decimal_chars(n / 10)) * 10 + (d as nat
            - 48) as nat);
        assert((n / 10) * 10 + n % 10 == n);
    }
}

/// Appending characters other than the separator extends the last part.
pub proof fn lemma_split_plain(s: Seq<char>, t: Seq<char>, sep: char)
    requires
        forall|i: int| 0 <= i < t.len() ==> #[trigger] t[i] != sep,
    ensures
        split_on(s + t, sep) == split_on(s, sep).update(
            split_on(s, sep).len() - 1,
            split_on(s, sep).last() + t,
        ),
        split_on(s + t, sep).len() == split_on(s, sep).len(),
    decreases t.len(),
{
    lemma_split_len(s, sep);
    if t.len() == 0 {
        assert(s + t =~= s);
        assert(split_on(s, sep).last() + t =~= split_on(s, sep).last());
        assert(split_on(s, sep).update(split_on(s, sep).len() - 1, split_on(s, sep).last())
            =~= split_on(s, sep));
    } else {
        let t2 = t.drop_last();
        lemma_split_plain(s, t2, sep);
        assert((s + t).drop_last() =~= s + t2);
        assert((s + t).last() == t.last());
        assert(split_on(s, sep).last() + t2 + seq![t.last()] =~= split_on(s, sep).last() + t);
        let r2 = split_on(s + t2, sep);
        assert(r2.last() == split_on(s, sep).last() + t2);
        assert(r2.last().push(t.last()) =~= split_on(s, sep).last() + t);
        assert(split_on(s + t, sep) =~= split_on(s, sep).update(
            split_on(s, sep).len() - 1,
            split_on(s, sep).last() + t,
        ));
    }
}

/// A split has at least one part.
proof fn lemma_split_len(s: Seq<char>, sep: char)
    ensures
        split_on(s, sep).len() >= 1,
    decreases s.len(),
{
    if s.len() > 0 {
        lemma_split_len(s.drop_last(), sep);
    }
}

/// The parts of words joined by single separators are those words.
pub proof fn lemma_split_words(a: Seq<char>, b: Seq<char>, c: Seq<char>, d: Seq<char>, sep: char)
    requires
        forall|i: int| 0 <= i < a.len() ==> #[trigger] a[i] != sep,
        forall|i: int| 0 <= i < b.len() ==> #[trigger] b[i] != sep,
        forall|i: int| 0 <= i < c.len() ==> #[trigger] c[i] != sep,
        forall|i: int| 0 <= i < d.len() ==> #[trigger] d[i] != sep,
    ensures
        split_on(a + seq![sep] + b + seq![sep] + c + seq![sep] + d, sep) == seq![a, b, c, d],
{
    let e = Seq::<char>::empty();
    lemma_split_plain(e, a, sep);
    assert(e + a =~= a);
    assert(split_on(a, sep) =~= seq![a]);
    let s1 = a + seq![sep];
    assert(s1.drop_last() =~= a);
    assert(split_on(s1, sep) =~= seq![a, e]);
    lemma_split_plain(s1, b, sep);
    assert(split_on(s1 + b, sep) =~= seq![a, b]);
    let s2 = s1 + b + seq![sep];
    assert(s2.drop_last() =~= s1 + b);
    assert(split_on(s2, sep) =~= seq![a, b, e]);
    lemma_split_plain(s2, c, sep);
    assert(split_on(s2 + c, sep) =~= seq![a, b, c]);
    let s3 = s2 + c + seq![sep];
    assert(s3.drop_last() =~= s2 + c);
    assert(split_on(s3, sep) =~= seq![a, b, c, e]);
    lemma_split_plain(s3, d, sep);
    assert(split_on(s3 + d, sep) =~= seq![a, b, c, d]);
}

/// No character of a row's notation is a space.
proof fn lemma_row_no_space(c: Seq<u8>, i: int, j: int, counter: int)
    requires
        c.len() == 45,
        forall|x: int| 0 <= x < 45 ==> crate::piece::is_valid_cell(#[trigger] c[x]),
        0 <= i < 7,
        0 <= counter <= j <= row_len(i),
    ensures
        forall|x: int|
            0 <= x < row_notation(c, i, j, counter).len() ==> #[trigger] row_notation(
                c,
                i,
                j,
                counter,
            )[x] != ' ',
    decreases row_len(i) - j,
{
    lemma_row_bounds(i, j);
    assert(digit_char(counter) as int == 48 + counter);
    let digit: Seq<char> = if counter > 0 {
        seq![digit_char(counter)]
    } else {
        seq![]
    };
    if j >= row_len(i) {
        assert(row_notation(c, i, j, counter) == digit);
    } else if c[coords_index(i, j)] == 0 {
        lemma_row_no_space(c, i, j + 1, counter + 1);
        assert(row_notation(c, i, j, counter) == row_notation(c, i, j + 1, counter + 1));
    } else {
        lemma_row_no_space(c, i, j + 1, 0);
        let cell = piece_chars(c[coords_index(i, j)]);
        let tail = row_notation(c, i, j + 1, 0);
        let full = row_notation(c, i, j, counter);
        assert(full == digit + cell + tail);
        let p = c[coords_index(i, j)];
        assert(cell[0] != ' ' && cell[1] != ' ') by {
            if p >= 16 {
                assert(crate::piece::is_single_piece(top_of(p)));
                assert(crate::piece::is_single_piece(bottom_of(p)));
            }
        }
        assert forall|x: int| 0 <= x < full.len() implies #[trigger] full[x] != ' ' by {
            if x < digit.len() {
                assert(full[x] == digit[x]);
            } else if x < digit.len() + 2 {
                assert(full[x] == cell[x - digit.len()]);
            } else {
                assert(full[x] == tail[x - digit.len() - 2]);
            }
        }
    }
}

/// No character of the notation of the rows from `i` on is a space.
proof fn lemma_rows_no_space(c: Seq<u8>, i: int)
    requires
        c.len() == 45,
        forall|x: int| 0 <= x < 45 ==> crate::piece::is_valid_cell(#[trigger] c[x]),
        0 <= i <= 7,
    ensures
        forall|x: int| 0 <= x < psn_rows(c, i).len() ==> #[trigger] psn_rows(c, i)[x] != ' ',
    decreases 7 - i,
{
    if i < 7 {
        lemma_row_no_space(c, i, 0, 0);
        lemma_rows_no_space(c, i + 1);
        let row = row_notation(c, i, 0, 0);
        let sep: Seq<char> = if i < 6 {
            seq!['/']
        } else {
            seq![]
        };
        let rest = psn_rows(c, i + 1);
        let full = psn_rows(c, i);
        assert(full == row + sep + rest);
        assert forall|x: int| 0 <= x < full.len() implies #[trigger] full[x] != ' ' by {
            if x < row.len() {
                assert(full[x] == row[x]);
            } else if x >= row.len() + sep.len() {
                assert(full[x] == rest[x - row.len() - sep.len()]);
            }
        }
    }
}

/// Law: the cells of a board written in Pijersi Standard Notation hold no
/// space, so that the notation is one word of a state string.
pub proof fn lemma_psn_no_space(c: Seq<u8>)
    requires
        c.len() == 45,
        forall|x: int| 0 <= x < 45 ==> crate::piece::is_valid_cell(#[trigger] c[x]),
    ensures
        forall|x: int| 0 <= x < psn_rows(c, 0).len() ==> #[trigger] psn_rows(c, 0)[x] != ' ',
{
    lemma_rows_no_space(c, 0);
}

} // verus!
