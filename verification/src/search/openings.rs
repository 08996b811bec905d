//! This module contains the `OpeningBook` struct and its associated functions.
//!
//! The opening book maps positions (cells and current player) to a stored
//! action, in the native triple-index format (`Action`), and the expected
//! score at the pre-calculated search depth. The stored actions contain search
//! depth values (see [`crate::logic::actions`]).
//!
//! The book is stored compressed (deflate); once inflated, it is a sequence of
//! serialized responses of `RESPONSE_SIZE` bytes each.
use vstd::prelude::*;

use crate::board::Board;
use crate::logic::actions::Action;
use crate::logic::{Cells, Player};

verus! {

/// Size in bytes of a serialized response
pub const RESPONSE_SIZE: usize = 70;

/// Represents a board's cells and current player. They are used to index the opening book.
#[derive(Eq, Clone, Copy, Debug)]
pub struct Position {
    /// The current cells storing the piece data as `Piece` (see [`crate::piece`])
    pub cells: Cells,
    /// The current player: 0 if white, 1 if black
    pub current_player: Player,
}

/// Two positions have the same cells and the same current player.
pub open spec fn same_position(a: Position, b: Position) -> bool {
    a.cells@ == b.cells@ && a.current_player == b.current_player
}

impl PartialEq for Position {
    fn eq(&self, other: &Position) -> (r: bool) {
        if self.current_player != other.current_player {
            return false;
        }
        let mut i: usize = 0;
        while i < 45
            invariant
                i <= 45,
                forall|j: int| 0 <= j < i ==> self.cells@[j] == other.cells@[j],
            decreases 45 - i,
        {
            if self.cells[i] != other.cells[i] {
                return false;
            }
            i += 1;
        }
        assert(self.cells@ =~= other.cells@);
        true
    }
}

impl vstd::std_specs::cmp::PartialEqSpecImpl for Position {
    open spec fn obeys_eq_spec() -> bool {
        true
    }

    open spec fn eq_spec(&self, other: &Position) -> bool {
        same_position(*self, *other)
    }
}

impl Position {
    /// Creates a new `Position` from a board. Copies its cells and current player.
    pub fn new(board: &Board) -> (r: Self)
        ensures
            r.cells == board.cells,
            r.current_player == board.current_player,
    {
        Self { cells: board.cells, current_player: board.current_player }
    }
}

/// Represents a pre-calculated response to a given position. It is used to generate the opening book.
#[derive(Clone, Copy, Debug)]
pub struct Response {
    /// The position that is used as a key
    pub position: Position,
    /// The pre-calculated response
    pub action: u64,
    /// The predicted score of the response
    pub score: i64,
}

impl Response {
    /// Creates a new Response
    pub fn new(position: Position, action: Action, score: i64) -> (r: Self)
        ensures
            r.position == position,
            r.action == action as u64,
            r.score == score,
    {
        Self { position, action: action as u64, score }
    }
}

/// The stored action and score of the last of `responses` for the position of
/// `cells` and `player`, if any.
pub open spec fn response_for(responses: Seq<Response>, cells: Seq<u8>, player: Player) -> Option<
    (Action, i64),
>
    decreases responses.len(),
{
    if responses.len() == 0 {
        None
    } else if responses.last().position.cells@ == cells && responses.last().position.current_player
        == player {
        Some((responses.last().action as Action, responses.last().score))
    } else {
        response_for(responses.drop_last(), cells, player)
    }
}

/// The `OpeningBook` struct containing the opening book data.
#[derive(Debug)]
pub struct OpeningBook {
    responses: Vec<Response>,
}

impl View for OpeningBook {
    type V = Seq<Response>;

    /// The responses of the book, a later response for a position replacing an earlier one.
    closed spec fn view(&self) -> Seq<Response> {
        self.responses@
    }
}

impl OpeningBook {
    /// Creates an opening book from its responses; a later response for a
    /// position replaces an earlier one.
    pub fn new(responses: &[Response]) -> (r: Self)
        ensures
            r@ == responses@,
    {
        let mut stored: Vec<Response> = Vec::new();
        let mut i: usize = 0;
        while i < responses.len()
            invariant
                i <= responses@.len(),
                stored@ == responses@.subrange(0, i as int),
            decreases responses@.len() - i,
        {
            stored.push(responses[i]);
            i += 1;
        }
        Self { responses: stored }
    }

    /// Looks for a stored move corresponding to the position and returns it if it exists.
    pub fn get(&self, position: &Position) -> (r: Option<(Action, i64)>)
        ensures
            r == response_for(self@, position.cells@, position.current_player),
    {
        let mut i: usize = self.responses.len();
        assert(self@.subrange(0, i as int) =~= self@);
        while i > 0
            invariant
                i <= self@.len(),
                response_for(self@, position.cells@, position.current_player) == response_for(
                    self@.subrange(0, i as int),
                    position.cells@,
                    position.current_player,
                ),
            decreases i,
        {
            let response = self.responses[i - 1];
            proof {
                assert(self@.subrange(0, i as int).drop_last() =~= self@.subrange(0, i - 1));
            }
            if response.position == *position {
                return Some((response.action as Action, response.score));
            }
            i -= 1;
        }
        None
    }

    /// Looks for a stored move corresponding to the provided board state and returns it if it exists.
    pub fn lookup(&self, board: &Board) -> (r: Option<(Action, i64)>)
        ensures
            r == response_for(self@, board.cells@, board.current_player),
    {
        let position = Position::new(board);
        self.get(&position)
    }
}

impl Default for OpeningBook {
    /// A book without responses.
    fn default() -> (r: Self)
        ensures
            r@ == Seq::<Response>::empty(),
    {
        Self { responses: Vec::new() }
    }
}

/// The bytes that `miniz_oxide::inflate::decompress_to_vec` gives back for
/// deflate data, or `None` when it reports an error.
pub uninterp spec fn inflated(data: Seq<u8>) -> Option<Seq<u8>>;

/// Inflates deflate data.
///
/// Calls `miniz_oxide::inflate::decompress_to_vec` and keeps its bytes, or
/// `None` for its error; the contract names that result.
#[verifier::external_body]
fn decompress(data: &[u8]) -> (r: Option<Vec<u8>>)
    ensures
        match r {
            Some(bytes) => inflated(data@) == Some(bytes@),
            None => inflated(data@) is None,
        },
{
    miniz_oxide::inflate::decompress_to_vec(data).ok()
}

/// Splits inflated book data into the serialized responses, of
/// `RESPONSE_SIZE` bytes each; `None` when the length is not a multiple of it.
pub fn split_responses(bytes: &[u8]) -> (r: Option<Vec<Vec<u8>>>)
    ensures
        r is Some == (bytes@.len() as int % RESPONSE_SIZE as int == 0),
        r matches Some(chunks) ==> chunks@.len() == bytes@.len() as int / RESPONSE_SIZE as int && forall|k: int|
            0 <= k < chunks@.len() ==> #[trigger] chunks@[k]@ == bytes@.subrange(
                k * RESPONSE_SIZE,
                k * RESPONSE_SIZE + RESPONSE_SIZE,
            ),
{
    if bytes.len() % RESPONSE_SIZE != 0 {
        return None;
    }
    let len = bytes.len();
    let n = len / RESPONSE_SIZE;
    let mut chunks: Vec<Vec<u8>> = Vec::new();
    let mut k: usize = 0;
    while k < n
        invariant
            n == bytes@.len() as int / RESPONSE_SIZE as int,
            bytes@.len() as int % RESPONSE_SIZE as int == 0,
            len == bytes@.len(),
            k <= n,
            chunks@.len() == k,
            forall|j: int| 0 <= j < k ==> #[trigger] chunks@[j]@ == bytes@.subrange(
                j * RESPONSE_SIZE,
                j * RESPONSE_SIZE + RESPONSE_SIZE,
            ),
        decreases n - k,
    {
        proof {
            let len = bytes@.len() as int;
            let kk = k as int;
            let nn = n as int;
            assert(kk * 70 + 70 <= len) by (nonlinear_arith)
                requires
                    0 <= kk < nn,
                    nn == len / 70,
                    len % 70 == 0,
                    len >= 0,
            ;
        }
        let start = k * RESPONSE_SIZE;
        let mut chunk: Vec<u8> = Vec::new();
        let mut i: usize = 0;
        while i < RESPONSE_SIZE
            invariant
                start == k * RESPONSE_SIZE,
                start + RESPONSE_SIZE <= bytes@.len(),
                len == bytes@.len(),
                k < n,
                n == bytes@.len() as int / RESPONSE_SIZE as int,
                bytes@.len() as int % RESPONSE_SIZE as int == 0,
                i <= RESPONSE_SIZE,
                chunk@ == bytes@.subrange(start as int, start + i),
            decreases RESPONSE_SIZE - i,
        {
            chunk.push(bytes[start + i]);
            i += 1;
        }
        chunks.push(chunk);
        k += 1;
    }
    Some(chunks)
}

/// Inflates the compressed book data and splits it into the serialized responses.
pub fn decode_openings(compressed: &[u8]) -> (r: Option<Vec<Vec<u8>>>)
    ensures
        match inflated(compressed@) {
            None => r is None,
            Some(bytes) => r is Some == (bytes.len() as int % RESPONSE_SIZE as int == 0) && (r matches Some(
                chunks,
            ) ==> chunks@.len() == bytes.len() as int / RESPONSE_SIZE as int && forall|k: int|
                0 <= k < chunks@.len() ==> #[trigger] chunks@[k]@ == bytes.subrange(
                    k * RESPONSE_SIZE,
                    k * RESPONSE_SIZE + RESPONSE_SIZE,
                )),
        },
{
    match decompress(compressed) {
        Some(bytes) => split_responses(bytes.as_slice()),
        None => None,
    }
}

} // verus!
