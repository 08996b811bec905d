//! This module contains the Board struct and methods to represent a Pijersi board and play games.
//!
//! A board is represented as a `[Piece; 45]` array.
//!
//! Its cells are indexed as such:
//! ```not_rust
//!   0   1   2   3   4   5
//! 6   7   8   9   10  11  12
//!   13  14  15  16  17  18
//! 19  20  21  22  23  24  25
//!   26  27  28  29  30  31
//! 32  33  34  35  36  37  38
//!   39  40  41  42  43  44
//! ```
//! The rules and the search work on bitboards: the cells are turned into
//! bitboards (see [`crate::bitboard`]) for them.
use vstd::prelude::*;

use crate::bitboard;
use crate::bitboard::{board_cells, cells_bits};
use crate::errors::{ParseError, ParseErrorKind, RulesErrorKind, RuntimeError};
use crate::hash::search::SearchTable;
use crate::logic::actions::{play_bits, Action, ActionTrait};
use crate::logic::movegen::player_actions;
use crate::logic::perft::{count_actions_spec, lemma_legal_fits};
use crate::logic::rules::{is_action_legal, is_win_spec, winner_spec};
use crate::logic::translate::{
    action_on_board, action_string, action_to_string, cells_to_string, decimal_chars,
    parse_u64, parsed_action, player_to_string, psn_rows, push_decimal, push_signed, push_text,
    signed_decimal_chars, split_on, split_string, string_to_action, string_to_cells,
    string_to_player,
};
use crate::logic::{Cells, Player, MAX_HALF_MOVES};
use crate::piece::{is_valid_cell, Piece};
use crate::search::alphabeta::{
    checked_add, from_millis, now, root_action_bound, root_bound, search_iterative, search_iterative_clocked, table_ok, BASE_ALPHA, BASE_BETA,
};
use crate::search::openings::{response_for, OpeningBook, Position};
use crate::search::Score;

verus! {

/// This struct represents the board options.
///
/// It contains various parameters for the search engine:
/// * Using the opening book
/// * Printing the info logs during searches
#[derive(Debug, Clone, Copy, PartialEq, Eq, Structural)]
pub struct BoardOptions {
    /// Using the opening book
    pub use_book: bool,
    /// Using the hash table
    pub use_table: bool,
    /// Printing the info logs during searches
    pub verbose: bool,
}

impl Default for BoardOptions {
    /// The default options: see [`BoardOptions::new`].
    fn default() -> (r: Self)
        ensures
            r.use_book && r.use_table && r.verbose,
    {
        Self::new()
    }
}

impl BoardOptions {
    /// `BoardOptions` constructor. By default, the options are set to:
    /// ```not_rust
    /// use_book: true
    /// use_table: true
    /// verbose: true
    /// ```
    pub fn new() -> (r: Self)
        ensures
            r.use_book && r.use_table && r.verbose,
    {
        Self { use_book: true, use_table: true, verbose: true }
    }
}

/// Every cell holds a valid content (see [`is_valid_cell`]).
pub open spec fn cells_valid(cells: Seq<u8>) -> bool {
    forall|i: int| 0 <= i < 45 ==> is_valid_cell(#[trigger] cells[i])
}

/// The number of pieces in a cell: a stack counts as two.
pub open spec fn cell_pieces(p: u8) -> nat {
    if p == 0 {
        0
    } else if p >= 16 {
        2
    } else {
        1
    }
}

/// The number of pieces in the cells below `n`.
pub open spec fn pieces_upto(cells: Seq<u8>, n: int) -> nat
    decreases n,
{
    if n <= 0 {
        0
    } else {
        pieces_upto(cells, n - 1) + cell_pieces(cells[n - 1])
    }
}

/// The number of pieces in 45 cells.
pub open spec fn cells_piece_count(cells: Seq<u8>) -> nat {
    pieces_upto(cells, 45)
}

/// What the actions change of a board: its cells, the player to move, the half
/// move counter, the full move counter and the number of pieces when the half
/// move counter was last reset.
pub open spec fn play_state(board: Board) -> (Seq<u8>, Player, u64, u64, u64) {
    (board.cells@, board.current_player, board.half_moves, board.full_moves, board.last_piece_count)
}

/// The state after an action: the cells after it, the other player to move,
/// the full move counter counting black's moves, and the half move counter
/// counting the moves since the number of pieces last changed.
pub open spec fn state_after(state: (Seq<u8>, Player, u64, u64, u64), action: Action) -> (
    Seq<u8>,
    Player,
    u64,
    u64,
    u64,
) {
    let cells = board_cells(play_bits(cells_bits(state.0), action));
    let count = cells_piece_count(cells);
    (
        cells,
        (1 - state.1) as Player,
        if state.4 == count {
            (state.2 + 1) as u64
        } else {
            0u64
        },
        (state.3 + if state.1 == 1 {
            1int
        } else {
            0int
        }) as u64,
        if state.4 == count {
            state.4
        } else {
            count as u64
        },
    )
}

/// The cells of the starting position.
pub open spec fn start_cells() -> Seq<u8> {
    seq![
        12u8, 13u8, 14u8, 12u8, 13u8, 14u8, 13u8, 14u8, 12u8, 255u8, 14u8, 12u8, 13u8, 0u8, 0u8,
        0u8, 0u8, 0u8, 0u8, 0u8, 0u8, 0u8, 0u8, 0u8, 0u8, 0u8, 0u8, 0u8, 0u8, 0u8, 0u8, 0u8, 9u8,
        8u8, 10u8, 187u8, 8u8, 10u8, 9u8, 10u8, 9u8, 8u8, 10u8, 9u8, 8u8,
    ]
}

/// The book's response for the position of the cells and player, if a book is given.
pub open spec fn book_response(
    opening_book: Option<&OpeningBook>,
    cells: Seq<u8>,
    player: Player,
) -> Option<(Action, i64)> {
    match opening_book {
        Some(book) => response_for(book@, cells, player),
        None => None,
    }
}

/// The book's answer for a position searched `depth` moves deep: its action
/// and score, when the book has an action on the board's cells for the
/// position, stored with a search depth of at least `depth`.
pub open spec fn book_answer(
    opening_book: Option<&OpeningBook>,
    cells: Seq<u8>,
    player: Player,
    depth: u64,
) -> Option<(Action, Score)> {
    match book_response(opening_book, cells, player) {
        Some(e) => if action_on_board(e.0) && e.0 as int / 16777216 >= depth {
            Some((e.0, e.1 as Score))
        } else {
            None
        },
        None => None,
    }
}

/// The information line on a book action: `info book depth <depth> score <score> pv <action>`.
pub open spec fn book_info(depth: u64, score: i64, pv: Seq<char>) -> Seq<char> {
    "info book depth "@ + decimal_chars(depth as nat) + " score "@ + signed_decimal_chars(
        score as int,
    ) + " pv "@ + pv
}

/// An action of the move generator is an action on the cells of the board.
pub proof fn lemma_listed_on_board(v: Seq<u64>, player: Player, a: Action)
    requires
        player_actions(v, player).contains(a),
    ensures
        action_on_board(a),
{
    crate::logic::perft::lemma_player_actions_ok(v, player, 45);
    let all = player_actions(v, player);
    let k = choose|k: int| 0 <= k < all.len() && all[k] == a;
    assert(crate::logic::perft::action_ok(all[k]));
}

/// Whether the indices of an action are those of cells (or null).
pub fn is_on_board(action: Action) -> (r: bool)
    ensures
        r == action_on_board(action),
{
    let (index_start, index_mid, index_end) = action.to_indices();
    index_start == 255 || (index_start < 45 && index_end < 45 && (index_mid == 255 || index_mid
        < 45))
}

/// Returns the book's action for a position with its search depth and
/// score, and adds its information line to `info` when `verbose` is set.
/// An action whose indices are not those of cells is not used.
pub(crate) fn search_book(
    bits: &bitboard::Board,
    cells: &Cells,
    current_player: Player,
    verbose: bool,
    opening_book: Option<&OpeningBook>,
    info: &mut Vec<String>,
) -> (r: Option<(Action, u64, Score)>)
    ensures
        !verbose ==> final(info)@ == old(info)@,
        r is Some == (book_response(opening_book, cells@, current_player) matches Some(e)
            && action_on_board(e.0)),
        r matches Some(res) ==> book_response(opening_book, cells@, current_player) matches Some(e)
            && res.0 == e.0 && res.1 == e.0 as int / 16777216 && res.2 == e.1 as Score,
        r matches Some(res) ==> (verbose ==> final(info)@.len() == old(info)@.len() + 1
            && final(info)@.subrange(0, old(info)@.len() as int) == old(info)@ && (book_response(
            opening_book,
            cells@,
            current_player,
        ) matches Some(e) && final(info)@.last()@ == book_info(res.1, e.1, action_string(bits@, res.0)))),
{
    if let Some(opening_book) = opening_book {
        let position = Position { cells: *cells, current_player };
        if let Some((action, score)) = opening_book.get(&position) {
            if !is_on_board(action) {
                return None;
            }
            let depth = action.search_depth();
            if verbose {
                let action_string = action_to_string(bits, action);
                let mut line = String::new();
                push_text(&mut line, "info book depth ");
                push_decimal(&mut line, depth);
                push_text(&mut line, " score ");
                push_signed(&mut line, score);
                push_text(&mut line, " pv ");
                push_text(&mut line, action_string.as_str());
                assert(line@ =~= book_info(depth, score, action_string@));
                info.push(line);
            }
            return Some((action, depth, score as Score));
        }
    }
    None
}

/// This struct represents a Pijersi board.
///
/// It contains all the necessary information to represent a Pijersi game at any point:
/// * Current cells
/// * Current player
/// * Current half moves count
/// * Current full moves count
/// * Piece count
pub struct Board {
    /// The board options
    pub options: BoardOptions,
    /// The current cells storing the piece data as `Piece` (see [`crate::piece`])
    pub cells: Cells,
    /// The current player: 0 if white, 1 if black
    pub current_player: Player,
    /// The number of half moves since the last capture
    pub half_moves: u64,
    /// The number of full moves
    pub full_moves: u64,
    /// The number of pieces after the last capture
    pub last_piece_count: u64,
}

impl Default for Board {
    /// An empty board (see [`Board::new`]).
    fn default() -> (r: Self)
        ensures
            r.cells@ == Seq::new(45, |i: int| 0u8),
            r.current_player == 0,
            r.half_moves == 0 && r.full_moves == 0 && r.last_piece_count == 0,
    {
        Self::new()
    }
}

impl Board {
    /// Board constructor: the cells are empty on initialization, the current player is white.
    pub fn new() -> (r: Self)
        ensures
            r.options.use_book && r.options.use_table && r.options.verbose,
            r.cells@ == Seq::new(45, |i: int| 0u8),
            r.current_player == 0,
            r.half_moves == 0 && r.full_moves == 0 && r.last_piece_count == 0,
    {
        let r = Self {
            options: BoardOptions::new(),
            cells: [0u8; 45],
            current_player: 0,
            half_moves: 0u64,
            full_moves: 0u64,
            last_piece_count: 0u64,
        };
        assert(r.cells@ =~= Seq::new(45, |i: int| 0u8));
        r
    }

    /// Counts the number of pieces on the board.
    ///
    /// A stack counts as two pieces.
    pub fn count_pieces(&self) -> (r: u64)
        ensures
            r == cells_piece_count(self.cells@),
    {
        let mut count: u64 = 0;
        let mut i: usize = 0;
        while i < 45
            invariant
                i <= 45,
                count == pieces_upto(self.cells@, i as int),
                count <= 2 * i,
            decreases 45 - i,
        {
            let piece = self.cells[i];
            if piece != 0 {
                count = count + if piece >= 16 {
                    2
                } else {
                    1
                };
            }
            i += 1;
        }
        count
    }

    /// Initializes the the board to the starting configuration.
    ///
    /// Sets the pieces to their original position and the current player to white.
    ///
    /// Sets the half move counter to 0 and the full move counter to 1.
    pub fn init(&mut self)
        ensures
            final(self).options == old(self).options,
            final(self).cells@ == start_cells(),
            final(self).current_player == 0,
            final(self).half_moves == 0,
            final(self).full_moves == 1,
            final(self).last_piece_count == cells_piece_count(start_cells()),
    {
        self.cells = [
            12, 13, 14, 12, 13, 14, 13, 14, 12, 255, 14, 12, 13, 0, 0, 0, 0, 0, 0, 0, 0, 0, 0, 0, 0,
            0, 0, 0, 0, 0, 0, 0, 9, 8, 10, 187, 8, 10, 9, 10, 9, 8, 10, 9, 8,
        ];
        assert(self.cells@ =~= start_cells());
        self.current_player = 0;
        self.half_moves = 0;
        self.full_moves = 1;
        self.last_piece_count = self.count_pieces();  // 28 starting pieces (14 for each side)
    }
}

impl Board {
    /// Searches and returns the best action at a given depth.
    ///
    /// With the opening book, its action is returned when it was searched at
    /// least as deep. The information lines are added to `info` when the
    /// options ask for them.
    pub fn search_to_depth(
        &self,
        depth: u64,
        opening_book: Option<&OpeningBook>,
        transposition_table: &mut Option<SearchTable>,
        info: &mut Vec<String>,
    ) -> (r: Option<(Action, Score)>)
        requires
            cells_valid(self.cells@),
            self.current_player <= 1,
            table_ok(*old(transposition_table)),
        ensures
            table_ok(*final(transposition_table)),
            final(transposition_table).is_some() == old(transposition_table).is_some(),
            !self.options.verbose ==> final(info)@ == old(info)@,
            r matches Some(res) ==> action_on_board(res.0),
            r matches Some(res) ==> player_actions(cells_bits(self.cells@), self.current_player).contains(
                res.0,
            ) || (self.options.use_book && (book_response(opening_book, self.cells@, self.current_player) matches Some(e)
                && e.0 == res.0)),
            !self.options.use_book && depth > 0 && player_actions(
                cells_bits(self.cells@),
                self.current_player,
            ).len() > 0 ==> r is Some,
            !(self.options.use_book && book_answer(opening_book, self.cells@, self.current_player, depth) is Some) && (!self.options.use_table
                || old(transposition_table).is_none()) ==> (r matches Some(res) ==> (exists|d: nat|
                1 <= d <= depth && #[trigger] root_bound(cells_bits(self.cells@), self.current_player, res.1, d)) && (
            BASE_ALPHA <= res.1 <= BASE_BETA ==> root_bound(
                cells_bits(self.cells@),
                self.current_player,
                res.1,
                depth as nat,
            ) && root_action_bound(cells_bits(self.cells@), self.current_player, res.0, res.1, depth as nat))),
            self.options.use_book && book_answer(opening_book, self.cells@, self.current_player, depth)
                is Some ==> r == book_answer(opening_book, self.cells@, self.current_player, depth)
                && *final(transposition_table) == *old(transposition_table),
            !(self.options.use_book && book_answer(opening_book, self.cells@, self.current_player, depth)
                is Some) ==> (r is Some <==> depth > 0 && player_actions(
                cells_bits(self.cells@),
                self.current_player,
            ).len() > 0),
            !(self.options.use_book && book_answer(opening_book, self.cells@, self.current_player, depth)
                is Some) ==> (r matches Some(res) ==> player_actions(cells_bits(self.cells@), self.current_player).contains(
                res.0,
            )),
    {
        let bits = bitboard::Board::from_cells(&self.cells);
        if self.options.use_book {
            if let Some((action, book_depth, score)) = search_book(
                &bits,
                &self.cells,
                self.current_player,
                self.options.verbose,
                opening_book,
                info,
            ) {
                if book_depth >= depth {
                    return Some((action, score));
                }
            }
        }
        let result = if self.options.use_table {
            search_iterative(
                &bits,
                self.current_player,
                depth,
                &None,
                self.options.verbose,
                transposition_table,
                info,
            )
        } else {
            let mut no_table: Option<SearchTable> = None;
            search_iterative(
                &bits,
                self.current_player,
                depth,
                &None,
                self.options.verbose,
                &mut no_table,
                info,
            )
        };
        proof {
            if let Some(res) = result {
                lemma_listed_on_board(bits@, self.current_player, res.0);
            }
        }
        result
    }

    /// Searches and returns the best action after a given time.
    ///
    /// With the opening book, its action is returned. The information lines
    /// are added to `info` when the options ask for them.
    pub fn search_to_time(
        &self,
        movetime: u64,
        opening_book: Option<&OpeningBook>,
        transposition_table: &mut Option<SearchTable>,
        info: &mut Vec<String>,
    ) -> (r: Option<(Action, Score)>)
        requires
            cells_valid(self.cells@),
            self.current_player <= 1,
            table_ok(*old(transposition_table)),
        ensures
            table_ok(*final(transposition_table)),
            final(transposition_table).is_some() == old(transposition_table).is_some(),
            !self.options.verbose ==> final(info)@ == old(info)@,
            r matches Some(res) ==> action_on_board(res.0),
            r matches Some(res) ==> player_actions(cells_bits(self.cells@), self.current_player).contains(
                res.0,
            ) || (self.options.use_book && (book_response(opening_book, self.cells@, self.current_player) matches Some(e)
                && e.0 == res.0)),
            self.options.use_book ==> (book_response(opening_book, self.cells@, self.current_player) matches Some(
                e,
            ) ==> (action_on_board(e.0) ==> (r matches Some(res) && res.0 == e.0 && res.1 == e.1 as Score))),
            !self.options.use_book && (!self.options.use_table || old(transposition_table).is_none())
                ==> (r matches Some(res) ==> (exists|d: nat| d >= 1 && #[trigger] root_bound(
                cells_bits(self.cells@),
                self.current_player,
                res.1,
                d,
            )) && (BASE_ALPHA <= res.1 <= BASE_BETA ==> exists|d: nat|
                d >= 1 && #[trigger] root_bound(cells_bits(self.cells@), self.current_player, res.1, d)
                    && root_action_bound(cells_bits(self.cells@), self.current_player, res.0, res.1, d))),
    {
        let mut depth_done: u64 = 0;
        let r = self.search_to_time_clocked(movetime, opening_book, transposition_table, info, &mut depth_done);
        proof {
            if let Some(res) = r {
                if !self.options.use_book && (!self.options.use_table || old(transposition_table).is_none()) {
                    let d = depth_done as nat;
                    if BASE_ALPHA <= res.1 <= BASE_BETA {
                        assert(root_bound(cells_bits(self.cells@), self.current_player, res.1, d));
                        assert(root_action_bound(cells_bits(self.cells@), self.current_player, res.0, res.1, d));
                    }
                }
            }
        }
        r
    }

    /// The search of [`Self::search_to_time`], which sets `depth_done` to the
    /// last depth searched before the time was up; once the first depth is
    /// searched, an action is found, and without a table its score is that of
    /// the searches up to `depth_done`.
    pub fn search_to_time_clocked(
        &self,
        movetime: u64,
        opening_book: Option<&OpeningBook>,
        transposition_table: &mut Option<SearchTable>,
        info: &mut Vec<String>,
        depth_done: &mut u64,
    ) -> (r: Option<(Action, Score)>)
        requires
            cells_valid(self.cells@),
            self.current_player <= 1,
            table_ok(*old(transposition_table)),
        ensures
            table_ok(*final(transposition_table)),
            final(transposition_table).is_some() == old(transposition_table).is_some(),
            !self.options.verbose ==> final(info)@ == old(info)@,
            r matches Some(res) ==> action_on_board(res.0),
            r matches Some(res) ==> player_actions(cells_bits(self.cells@), self.current_player).contains(
                res.0,
            ) || (self.options.use_book && (book_response(opening_book, self.cells@, self.current_player) matches Some(e)
                && e.0 == res.0)),
            self.options.use_book ==> (book_response(opening_book, self.cells@, self.current_player) matches Some(
                e,
            ) ==> (action_on_board(e.0) ==> (r matches Some(res) && res.0 == e.0 && res.1 == e.1 as Score))),
            !self.options.use_book && *final(depth_done) >= 1 && player_actions(
                cells_bits(self.cells@),
                self.current_player,
            ).len() > 0 ==> r is Some,
            !self.options.use_book && (!self.options.use_table || old(transposition_table).is_none())
                ==> (r matches Some(res) ==> (exists|d: nat|
                1 <= d <= *final(depth_done) && #[trigger] root_bound(
                cells_bits(self.cells@),
                self.current_player,
                res.1,
                d,
            )) && (BASE_ALPHA <= res.1 <= BASE_BETA ==> root_bound(
                cells_bits(self.cells@),
                self.current_player,
                res.1,
                *final(depth_done) as nat,
            ) && root_action_bound(cells_bits(self.cells@), self.current_player, res.0, res.1, *final(depth_done) as nat))),
    {
        let bits = bitboard::Board::from_cells(&self.cells);
        *depth_done = 0;
        if self.options.use_book {
            if let Some((action, _depth, score)) = search_book(
                &bits,
                &self.cells,
                self.current_player,
                self.options.verbose,
                opening_book,
                info,
            ) {
                return Some((action, score));
            }
        }
        let start = now();
        let end_time = match checked_add(&start, from_millis(movetime)) {
            Some(end_time) => end_time,
            None => {
                return None;
            },
        };
        let result = if self.options.use_table {
            search_iterative_clocked(
                &bits,
                self.current_player,
                u64::MAX,
                &Some(end_time),
                self.options.verbose,
                transposition_table,
                info,
                depth_done,
            )
        } else {
            let mut no_table: Option<SearchTable> = None;
            search_iterative_clocked(
                &bits,
                self.current_player,
                u64::MAX,
                &Some(end_time),
                self.options.verbose,
                &mut no_table,
                info,
                depth_done,
            )
        };
        proof {
            if let Some(res) = result {
                lemma_listed_on_board(bits@, self.current_player, res.0);
            }
        }
        result
    }

    /// Get the current board state.
    pub fn get_state(&self) -> (r: (Cells, Player, u64, u64))
        ensures
            r == (self.cells, self.current_player, self.half_moves, self.full_moves),
    {
        (self.cells, self.current_player, self.half_moves, self.full_moves)
    }

    /// Sets the board state.
    pub fn set_state(&mut self, cells: &Cells, player: Player, half_moves: u64, full_moves: u64)
        ensures
            final(self).options == old(self).options,
            final(self).cells == *cells,
            final(self).current_player == player,
            final(self).half_moves == half_moves,
            final(self).full_moves == full_moves,
            final(self).last_piece_count == cells_piece_count(cells@),
    {
        self.cells = *cells;
        self.current_player = player;
        self.half_moves = half_moves;
        self.full_moves = full_moves;
        self.last_piece_count = self.count_pieces();
    }

    /// Get the Pijersi Standard Notation of the current board state: the cells,
    /// the player (`w` or `b`), the half move counter and the full move counter,
    /// separated by spaces.
    pub fn get_string_state(&self) -> (r: String)
        requires
            crate::logic::translate::valid_cells(self.cells@),
            self.current_player <= 1,
        ensures
            r@ == crate::game::state_notation(
                self.cells@,
                self.current_player,
                self.half_moves,
                self.full_moves,
            ),
    {
        let (cells, current_player, half_moves, full_moves) = self.get_state();
        let mut r = cells_to_string(&cells);
        push_text(&mut r, " ");
        let player = match player_to_string(current_player) {
            Ok(p) => p,
            Err(_) => String::new(),
        };
        push_text(&mut r, player.as_str());
        push_text(&mut r, " ");
        push_decimal(&mut r, half_moves);
        push_text(&mut r, " ");
        push_decimal(&mut r, full_moves);
        proof {
            reveal_strlit(" ");
        }
        assert(r@ =~= psn_rows(self.cells@, 0) + seq![' '] + (if self.current_player == 0 {
            seq!['w']
        } else {
            seq!['b']
        }) + seq![' '] + decimal_chars(self.half_moves as nat) + seq![' '] + decimal_chars(
            self.full_moves as nat,
        ));
        r
    }

    /// Sets the state of the board according to Pijersi Standard Notation data.
    pub fn set_string_state(&mut self, state_string: &str) -> (r: Result<(), ParseError>)
        requires
            crate::game::psn_readable(state_string@),
        ensures
            r is Ok == crate::game::psn_state(state_string@) is Some,
            r is Err ==> *final(self) == *old(self),
            split_on(state_string@, ' ').len() != 4 ==> (r matches Err(e) && e.kind
                == ParseErrorKind::InvalidPSN && e.value@ == state_string@),
            r matches Err(e) ==> crate::game::psn_error(state_string@, e),
            crate::game::psn_state(state_string@) matches Some((c, p, h, f)) ==> {
                &&& final(self).options == old(self).options
                &&& final(self).cells@ == c
                &&& cells_valid(c)
                &&& final(self).current_player == p
                &&& final(self).half_moves == h
                &&& final(self).full_moves == f
                &&& final(self).last_piece_count == cells_piece_count(c)
            },
    {
        let parts = split_string(state_string, ' ');
        let ghost pv = parts@.map_values(|x: String| x@);
        if parts.len() != 4 {
            return Err(ParseError { kind: ParseErrorKind::InvalidPSN, value: state_string.to_owned() });
        }
        assert(pv[0] == parts@[0]@ && pv[1] == parts@[1]@ && pv[2] == parts@[2]@ && pv[3]
            == parts@[3]@);
        let new_cells = string_to_cells(parts[0].as_str())?;
        let player = string_to_player(parts[1].as_str())?;
        let half_moves = match parse_u64(parts[2].as_str()) {
            Ok(n) => n,
            Err(err) => {
                return Err(
                    ParseError {
                        kind: ParseErrorKind::InvalidInt(err),
                        value: parts[2].as_str().to_owned(),
                    },
                );
            },
        };
        let full_moves = match parse_u64(parts[3].as_str()) {
            Ok(n) => n,
            Err(err) => {
                return Err(
                    ParseError {
                        kind: ParseErrorKind::InvalidInt(err),
                        value: parts[3].as_str().to_owned(),
                    },
                );
            },
        };
        proof {
            crate::logic::translate::lemma_psn_parse_valid(pv[0], 0, 0, crate::logic::translate::empty_cells());
        }
        self.set_state(&new_cells, player, half_moves, full_moves);
        Ok(())
    }

    /// Plays the chosen action provided in string representation.
    pub fn play_from_string(&mut self, action_string: &str) -> (r: Result<(), RuntimeError>)
        requires
            old(self).current_player <= 1,
            old(self).full_moves < u64::MAX,
            old(self).half_moves < u64::MAX,
        ensures
            parsed_action(cells_bits(old(self).cells@), action_string@) is None ==> (r matches Err(e) && e is Parse
                && *final(self) == *old(self)),
            parsed_action(cells_bits(old(self).cells@), action_string@) matches Some(a) ==> {
                let legal = player_actions(cells_bits(old(self).cells@), old(self).current_player).contains(
                    (a as int % 16777216) as u32,
                );
                &&& r is Ok == legal
                &&& !legal ==> (*final(self) == *old(self) && (r matches Err(e) && e
                    == RuntimeError::Rules(RulesErrorKind::IllegalAction(a))))
                &&& legal ==> play_state(*final(self)) == state_after(play_state(*old(self)), a)
                &&& legal ==> final(self).cells@ == board_cells(play_bits(cells_bits(old(self).cells@), a))
                    && final(self).current_player == 1 - old(self).current_player
                    && (cells_valid(old(self).cells@) ==> cells_valid(final(self).cells@))
                    && final(self).options == old(self).options
            },
    {
        let bits = bitboard::Board::from_cells(&self.cells);
        let action = match string_to_action(&bits, action_string) {
            Ok(a) => a,
            Err(e) => {
                return Err(RuntimeError::Parse(e));
            },
        };
        match self.play(action) {
            Ok(()) => Ok(()),
            Err(e) => Err(RuntimeError::Rules(e)),
        }
    }

    /// Plays the chosen action provided in `Action` representation.
    ///
    /// The action is played if it is legal: the turn passes to the other player,
    /// the full move counter grows after a black move, and the half move counter
    /// grows unless the number of pieces changed, in which case it restarts at 0.
    pub fn play(&mut self, action: Action) -> (r: Result<(), RulesErrorKind>)
        requires
            old(self).current_player <= 1,
            old(self).full_moves < u64::MAX,
            old(self).half_moves < u64::MAX,
        ensures
            r is Ok == player_actions(cells_bits(old(self).cells@), old(self).current_player).contains(
                (action as int % 16777216) as u32,
            ),
            r is Err ==> *final(self) == *old(self) && r == Err::<(), RulesErrorKind>(
                RulesErrorKind::IllegalAction(action),
            ),
            r is Ok ==> play_state(*final(self)) == state_after(play_state(*old(self)), action),
            r is Ok ==> {
                &&& final(self).options == old(self).options
                &&& final(self).cells@ == board_cells(play_bits(cells_bits(old(self).cells@), action))
                &&& cells_valid(old(self).cells@) ==> cells_valid(final(self).cells@)
                &&& final(self).current_player == 1 - old(self).current_player
                &&& final(self).full_moves == old(self).full_moves + if old(
                    self,
                ).current_player == 1 {
                    1int
                } else {
                    0int
                }
                &&& if old(self).last_piece_count == cells_piece_count(final(self).cells@) {
                    final(self).half_moves == old(self).half_moves + 1
                        && final(self).last_piece_count == old(self).last_piece_count
                } else {
                    final(self).half_moves == 0 && final(self).last_piece_count
                        == cells_piece_count(final(self).cells@)
                }
            },
    {
        let mut bits = bitboard::Board::from_cells(&self.cells);
        if is_action_legal(&bits, self.current_player, action) {
            proof {
                lemma_legal_fits(bits@, self.current_player, action);
                if cells_valid(self.cells@) {
                    crate::logic::perft::lemma_legal_wf(bits@, self.current_player, action);
                }
            }
            bits.play_action(action);
            self.cells = bits.to_cells();
            proof {
                if cells_valid(old(self).cells@) {
                    assert forall|i: int| 0 <= i < 45 implies is_valid_cell(#[trigger] self.cells@[i]) by {
                        assert(crate::logic::actions::cell_wf(bits@, i));
                    }
                }
            }
            if self.current_player == 1 {
                self.full_moves += 1;
            }
            self.current_player = 1 - self.current_player;
            let piece_count = self.count_pieces();
            if self.last_piece_count == piece_count {
                self.half_moves += 1;
            } else {
                self.last_piece_count = piece_count;
                self.half_moves = 0;
            }
            Ok(())
        } else {
            Err(RulesErrorKind::IllegalAction(action))
        }
    }

    /// Returns whether the board is in a winning position (one player is winning).
    pub fn is_win(&self) -> (r: bool)
        ensures
            r == (is_win_spec(cells_bits(self.cells@)) || count_actions_spec(
                cells_bits(self.cells@),
                self.current_player,
            ) == 0),
    {
        let bits = bitboard::Board::from_cells(&self.cells);
        bits.is_win() || bits.is_stalemate(self.current_player)
    }

    /// Returns whether the board is in a drawing position (half move counter reaches 20).
    pub fn is_draw(&self) -> (r: bool)
        ensures
            r == (self.half_moves >= MAX_HALF_MOVES),
    {
        self.half_moves >= MAX_HALF_MOVES
    }

    /// Returns the winner of the game if there is one.
    pub fn get_winner(&self) -> (r: Option<Player>)
        ensures
            r == winner_spec(cells_bits(self.cells@)),
    {
        let bits = bitboard::Board::from_cells(&self.cells);
        bits.get_winner()
    }
}

} // verus!
