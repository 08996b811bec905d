//! This module contains the `Game` struct and methods to represent a Pijersi game and play it.
//!
//! The board is represented with bitboards (see [`crate::bitboard`]).
//!
//! Its cells are indexed as such:
//! ```not_rust
//!   0   1   2   3   4   5
//! 6   7   8   9   10  11  12
//!   13  14  15  16  17  18
//! 19  20  21  22  23  24  25
//!   26  27  28  29  30  31
//! 32  33  34  35  36  37  38
//!   39  40  41  42  43  44
//! ```
use vstd::prelude::*;
use vstd::string::StringExecFns;

use crate::bitboard::{board_cells, cells_bits, cells_only, piece_at, start_bits, Board};
use crate::board::{book_answer, book_response, lemma_listed_on_board, search_book};
use crate::hash::search::SearchTable;
use crate::search::alphabeta::{
    checked_add, from_millis, now, root_action_bound, root_bound, search_iterative, search_iterative_clocked, table_ok, BASE_ALPHA, BASE_BETA,
};
use crate::search::openings::OpeningBook;
use crate::search::Score;
use crate::errors::{
    InvalidPlayerKind, InvalidPositionKind, ParseError, ParseErrorKind, RulesErrorKind, RuntimeError,
};
use crate::logic::actions::{board_wf, lemma_bits_roundtrip, play_bits, Action};
use crate::logic::movegen::player_actions;
use crate::logic::perft::{count_actions_spec, lemma_legal_fits, lemma_legal_wf};
use crate::logic::rules::{count_pieces_spec, is_action_legal, is_win_spec, winner_spec};
use crate::logic::translate::{
    action_on_board, can_read_cells, count_slashes, notation_player, decimal_chars, empty_cells,
    lemma_decimal_roundtrip, lemma_psn_no_space, lemma_psn_parse_valid, lemma_psn_roundtrip,
    lemma_split_words, parse_u64, parsed_action, player_notation, player_to_string, psn_parse,
    psn_rows, push_decimal, split_on, split_string, string_to_action, string_to_cells,
    string_to_player, u64_literal,
};
use crate::logic::{Player, MAX_HALF_MOVES};

verus! {

/// This struct represents the game options.
///
/// It contains various parameters for the search engine:
/// * Using the opening book
/// * Using the transposition table
/// * Printing the info logs during searches
#[derive(Debug, Clone, Copy, PartialEq, Eq, Structural)]
pub struct GameOptions {
    /// Using the opening book
    pub use_book: bool,
    /// Using the hash table
    pub use_table: bool,
    /// Printing the info logs during searches
    pub verbose: bool,
}

impl GameOptions {
    /// `GameOptions` constructor. By default, the options are set to:
    /// ```not_rust
    /// use_book: true
    /// use_table: true
    /// verbose: true
    /// ```
    pub fn new() -> (r: GameOptions)
        ensures
            r.use_book && r.use_table && r.verbose,
    {
        GameOptions { use_book: true, use_table: true, verbose: true }
    }
}

impl Default for GameOptions {
    fn default() -> (r: GameOptions)
        ensures
            r.use_book && r.use_table && r.verbose,
    {
        GameOptions::new()
    }
}

/// This struct represents a Pijersi game.
///
/// It contains all the necessary information to represent a Pijersi game at any point:
/// * Current board
/// * Current player
/// * Current half moves count
/// * Current full moves count
/// * Piece count
pub struct Game {
    /// The game options
    pub options: GameOptions,
    /// The current board represented as bitboards (see [`crate::bitboard`])
    pub board: Board,
    /// The current player: 0 if white, 1 if black
    pub current_player: Player,
    /// The number of half moves since the last capture
    pub half_moves: u64,
    /// The number of full moves, starting at 1 and incremented after each black move
    pub full_moves: u64,
    /// The number of pieces after the last capture
    pub last_piece_count: u64,
}

impl Game {
    /// Game constructor: the board is empty on initialization, the current player is white.
    pub fn new() -> (r: Game)
        ensures
            r.options.use_book && r.options.use_table && r.options.verbose,
            r.board@ == Seq::new(16, |k: int| 0u64),
            r.current_player == 0,
            r.half_moves == 0,
            r.full_moves == 0,
            r.last_piece_count == 0,
    {
        Game {
            options: GameOptions::new(),
            board: Board::empty(),
            current_player: 0,
            half_moves: 0u64,
            full_moves: 0u64,
            last_piece_count: 0u64,
        }
    }

    /// Initializes the the board to the starting configuration.
    ///
    /// Sets the pieces to their original position and the current player to white.
    ///
    /// Sets the half move counter to 0 and the full move counter to 1.
    pub fn init(&mut self)
        ensures
            final(self).options == old(self).options,
            final(self).board@ == Seq::new(16, |k: int| start_bits(k)),
            final(self).current_player == 0,
            final(self).half_moves == 0,
            final(self).full_moves == 1,
            final(self).last_piece_count == count_pieces_spec(final(self).board@),
    {
        self.board.init();
        self.current_player = 0;
        self.half_moves = 0;
        self.full_moves = 1;
        self.last_piece_count = self.board.count_pieces();
    }

    /// Get the current board state.
    pub fn get_state(&self) -> (r: (Board, Player, u64, u64))
        ensures
            r.0 == self.board,
            r.1 == self.current_player,
            r.2 == self.half_moves,
            r.3 == self.full_moves,
    {
        (self.board, self.current_player, self.half_moves, self.full_moves)
    }

    /// Sets the board state.
    pub fn set_state(&mut self, board: &Board, player: Player, half_moves: u64, full_moves: u64)
        ensures
            final(self).options == old(self).options,
            final(self).board == *board,
            final(self).current_player == player,
            final(self).half_moves == half_moves,
            final(self).full_moves == full_moves,
            final(self).last_piece_count == count_pieces_spec(board@),
    {
        self.board = *board;
        self.current_player = player;
        self.half_moves = half_moves;
        self.full_moves = full_moves;
        self.last_piece_count = self.board.count_pieces();
    }

    /// Get the Pijersi Standard Notation of the current board state: the cells,
    /// the player (`w` or `b`), the half move counter and the full move counter,
    /// separated by spaces.
    pub fn get_string_state(&self) -> (r: String)
        requires
            self.current_player <= 1,
        ensures
            r@ == state_notation(
                Seq::new(45, |i: int| piece_at(self.board@, i)),
                self.current_player,
                self.half_moves,
                self.full_moves,
            ),
    {
        let (board, current_player, half_moves, full_moves) = self.get_state();
        let mut r = board.to_fen();
        let mut sep = String::new();
        r.append(" ");
        let player = match player_to_string(current_player) {
            Ok(p) => p,
            Err(_) => String::new(),
        };
        r.append(player.as_str());
        r.append(" ");
        push_decimal(&mut r, half_moves);
        r.append(" ");
        push_decimal(&mut r, full_moves);
        proof {
            reveal_strlit(" ");
        }
        assert(r@ =~= psn_rows(Seq::new(45, |i: int| piece_at(self.board@, i)), 0) + seq![' '] + (
        if self.current_player == 0 {
            seq!['w']
        } else {
            seq!['b']
        }) + seq![' '] + decimal_chars(self.half_moves as nat) + seq![' '] + decimal_chars(
            self.full_moves as nat,
        ));
        r
    }

    /// Returns whether the board is in a winning position (one player is winning).
    pub fn is_win(&self) -> (r: bool)
        ensures
            r == (is_win_spec(self.board@) || count_actions_spec(self.board@, self.current_player)
                == 0),
    {
        self.board.is_win() || self.board.is_stalemate(self.current_player)
    }

    /// Returns whether the board is in a drawing position (half move counter reaches 20).
    pub fn is_draw(&self) -> (r: bool)
        ensures
            r == (self.half_moves >= MAX_HALF_MOVES),
    {
        self.half_moves >= MAX_HALF_MOVES
    }

    /// Returns the winner of the game if there is one.
    pub fn get_winner(&self) -> (r: Option<Player>)
        ensures
            r == winner_spec(self.board@),
    {
        self.board.get_winner()
    }

    /// Plays the chosen action provided in `Action` representation.
    ///
    /// The action is played if it is legal: the turn passes to the other player,
    /// the full move counter grows after a black move, and the half move counter
    /// grows unless the number of pieces changed, in which case it restarts at 0.
    pub fn play(&mut self, action: Action) -> (r: Result<(), RulesErrorKind>)
        requires
            old(self).current_player <= 1,
            old(self).full_moves < u64::MAX,
            old(self).half_moves < u64::MAX,
        ensures
            r is Ok == player_actions(old(self).board@, old(self).current_player).contains(
                (action as int % 16777216) as u32,
            ),
            r is Err ==> *final(self) == *old(self) && r == Err::<(), RulesErrorKind>(
                RulesErrorKind::IllegalAction(action),
            ),
            r is Ok ==> {
                &&& final(self).options == old(self).options
                &&& final(self).board@ == play_bits(old(self).board@, action)
                &&& board_wf(old(self).board@) ==> board_wf(final(self).board@)
                &&& final(self).current_player == 1 - old(self).current_player
                &&& final(self).full_moves == old(self).full_moves + if old(
                    self,
                ).current_player == 1 {
                    1int
                } else {
                    0int
                }
                &&& if old(self).last_piece_count == count_pieces_spec(final(self).board@) {
                    final(self).half_moves == old(self).half_moves + 1
                        && final(self).last_piece_count == old(self).last_piece_count
                } else {
                    final(self).half_moves == 0 && final(self).last_piece_count
                        == count_pieces_spec(final(self).board@)
                }
            },
    {
        if is_action_legal(&self.board, self.current_player, action) {
            proof {
                lemma_legal_fits(self.board@, self.current_player, action);
                if board_wf(self.board@) {
                    lemma_legal_wf(self.board@, self.current_player, action);
                }
            }
            self.board.play_action(action);
            if self.current_player == 1 {
                self.full_moves += 1;
            }
            self.current_player = 1 - self.current_player;
            let piece_count = self.board.count_pieces();
            if self.last_piece_count == piece_count {
                self.half_moves += 1;
            } else {
                self.last_piece_count = piece_count;
                self.half_moves = 0;
            }
            Ok(())
        } else {
            Err(RulesErrorKind::IllegalAction(action))
        }
    }
}

impl Default for Game {
    fn default() -> (r: Game)
        ensures
            r.options.use_book && r.options.use_table && r.options.verbose,
            r.board@ == Seq::new(16, |k: int| 0u64),
            r.current_player == 0,
            r.half_moves == 0,
            r.full_moves == 0,
    {
        Game::new()
    }
}

/// The state that a PSN string describes: cells, player, half move counter and
/// full move counter, separated by single spaces.
pub open spec fn psn_state(s: Seq<char>) -> Option<(Seq<u8>, Player, u64, u64)> {
    let parts = split_on(s, ' ');
    if parts.len() != 4 || count_slashes(parts[0], parts[0].len() as int) != 6 {
        None
    } else {
        let player: Option<Player> = if parts[1] == seq!['w'] {
            Some(0)
        } else if parts[1] == seq!['b'] {
            Some(1)
        } else {
            None
        };
        match (player, u64_literal(parts[2]), u64_literal(parts[3])) {
            (Some(p), Some(h), Some(f)) => Some(
                (psn_parse(parts[0], 0, 0, empty_cells()).unwrap(), p, h, f),
            ),
            _ => None,
        }
    }
}

/// The error of a PSN state string that cannot be read: a wrong number of
/// words, or else the first of the cells, the player, the half move counter and
/// the full move counter that cannot be read, with that word as its value.
pub open spec fn psn_error(s: Seq<char>, e: ParseError) -> bool {
    let parts = split_on(s, ' ');
    if parts.len() != 4 {
        e.kind == ParseErrorKind::InvalidPSN && e.value@ == s
    } else if count_slashes(parts[0], parts[0].len() as int) != 6 {
        e.kind == ParseErrorKind::InvalidPosition(
            InvalidPositionKind::WrongLineNumber(
                (count_slashes(parts[0], parts[0].len() as int) + 1) as usize,
            ),
        ) && e.value@ == parts[0]
    } else if notation_player(parts[1]) is None {
        (e.kind matches ParseErrorKind::InvalidPlayer(InvalidPlayerKind::StrToPlayer(x)) && x@
            == parts[1]) && e.value@ == parts[1]
    } else if u64_literal(parts[2]) is None {
        e.kind is InvalidInt && e.value@ == parts[2]
    } else {
        e.kind is InvalidInt && e.value@ == parts[3]
    }
}

/// The cells part of a PSN string can be read (see [`string_to_cells`]).
pub open spec fn psn_readable(s: Seq<char>) -> bool {
    let parts = split_on(s, ' ');
    parts.len() == 4 ==> (parts[0].len() * 9 + 45 < usize::MAX && (count_slashes(
        parts[0],
        parts[0].len() as int,
    ) == 6 ==> psn_parse(parts[0], 0, 0, empty_cells()) is Some))
}

/// The Pijersi Standard Notation of a state: the cells, the player (`w` or
/// `b`), the half move counter and the full move counter, separated by spaces.
pub open spec fn state_notation(c: Seq<u8>, player: Player, half_moves: u64, full_moves: u64) -> Seq<char> {
    psn_rows(c, 0) + seq![' '] + player_notation(player) + seq![' '] + decimal_chars(
        half_moves as nat,
    ) + seq![' '] + decimal_chars(full_moves as nat)
}

/// Law: the notation of a state reads back as that state, and is a notation
/// that `set_string_state` accepts.
pub proof fn lemma_state_roundtrip(c: Seq<u8>, player: Player, half_moves: u64, full_moves: u64)
    requires
        c.len() == 45,
        forall|x: int| 0 <= x < 45 ==> crate::piece::is_valid_cell(#[trigger] c[x]),
        player <= 1,
    ensures
        psn_readable(state_notation(c, player, half_moves, full_moves)),
        psn_state(state_notation(c, player, half_moves, full_moves)) == Some(
            (c, player, half_moves, full_moves),
        ),
{
    let a = psn_rows(c, 0);
    let b = player_notation(player);
    let h = decimal_chars(half_moves as nat);
    let f = decimal_chars(full_moves as nat);
    lemma_psn_no_space(c);
    lemma_psn_roundtrip(c);
    lemma_decimal_roundtrip(half_moves as nat);
    lemma_decimal_roundtrip(full_moves as nat);
    assert forall|i: int| 0 <= i < h.len() implies #[trigger] h[i] != ' ' by {
        assert('0' <= h[i]);
    }
    assert forall|i: int| 0 <= i < f.len() implies #[trigger] f[i] != ' ' by {
        assert('0' <= f[i]);
    }
    lemma_split_words(a, b, h, f, ' ');
    let parts = split_on(state_notation(c, player, half_moves, full_moves), ' ');
    assert(parts == seq![a, b, h, f]);
    assert(parts[0] == a && parts[1] == b && parts[2] == h && parts[3] == f);
    if player == 1 {
        assert(b[0] != seq!['w'][0]);
    }
    assert(u64_literal(h) == Some(half_moves));
    assert(u64_literal(f) == Some(full_moves));
}

/// Law: the notation of a game's state reads back as the same cells, player
/// and counters, and the cells read back make the same bitboards, when the
/// board is well formed and holds nothing past the last cell.
pub proof fn lemma_game_state_roundtrip(v: Seq<u64>, player: Player, half_moves: u64, full_moves: u64)
    requires
        board_wf(v),
        cells_only(v),
        player <= 1,
    ensures
        psn_readable(state_notation(board_cells(v), player, half_moves, full_moves)),
        psn_state(state_notation(board_cells(v), player, half_moves, full_moves)) == Some(
            (board_cells(v), player, half_moves, full_moves),
        ),
        cells_bits(board_cells(v)) == v,
{
    assert forall|x: int| 0 <= x < 45 implies crate::piece::is_valid_cell(#[trigger] board_cells(v)[x]) by {
        assert(crate::logic::actions::cell_wf(v, x));
    }
    lemma_state_roundtrip(board_cells(v), player, half_moves, full_moves);
    lemma_bits_roundtrip(v);
}

/// Whether a PSN string can be given to `set_string_state`: see [`psn_readable`].
pub fn can_read_state(state_string: &str) -> (r: bool)
    ensures
        r == psn_readable(state_string@),
{
    let parts = split_string(state_string, ' ');
    let ghost pv = parts@.map_values(|x: String| x@);
    if parts.len() != 4 {
        return true;
    }
    assert(pv[0] == parts@[0]@);
    can_read_cells(parts[0].as_str())
}

impl Game {
    /// Sets the state of the board according to Pijersi Standard Notation data.
    pub fn set_string_state(&mut self, state_string: &str) -> (r: Result<(), ParseError>)
        requires
            psn_readable(state_string@),
        ensures
            r is Ok == psn_state(state_string@) is Some,
            r is Err ==> *final(self) == *old(self),
            split_on(state_string@, ' ').len() != 4 ==> (r matches Err(e) && e.kind
                == ParseErrorKind::InvalidPSN && e.value@ == state_string@),
            r matches Err(e) ==> psn_error(state_string@, e),
            psn_state(state_string@) matches Some((c, p, h, f)) ==> {
                &&& final(self).options == old(self).options
                &&& final(self).board@ == cells_bits(c)
                &&& board_wf(final(self).board@)
                &&& forall|i: int| 0 <= i < 45 ==> piece_at(final(self).board@, i) == #[trigger] c[i]
                &&& final(self).current_player == p
                &&& final(self).half_moves == h
                &&& final(self).full_moves == f
                &&& final(self).last_piece_count == count_pieces_spec(final(self).board@)
            },
    {
        let parts = split_string(state_string, ' ');
        let ghost pv = parts@.map_values(|x: String| x@);
        if parts.len() != 4 {
            return Err(ParseError { kind: ParseErrorKind::InvalidPSN, value: state_string.to_owned() });
        }
        assert(pv[0] == parts@[0]@ && pv[1] == parts@[1]@ && pv[2] == parts@[2]@ && pv[3]
            == parts@[3]@);
        let new_cells = string_to_cells(parts[0].as_str())?;
        let player = string_to_player(parts[1].as_str())?;
        let half_moves = match parse_u64(parts[2].as_str()) {
            Ok(n) => n,
            Err(err) => {
                return Err(
                    ParseError {
                        kind: ParseErrorKind::InvalidInt(err),
                        value: parts[2].as_str().to_owned(),
                    },
                );
            },
        };
        let full_moves = match parse_u64(parts[3].as_str()) {
            Ok(n) => n,
            Err(err) => {
                return Err(
                    ParseError {
                        kind: ParseErrorKind::InvalidInt(err),
                        value: parts[3].as_str().to_owned(),
                    },
                );
            },
        };
        proof {
            lemma_psn_parse_valid(pv[0], 0, 0, empty_cells());
            assert(new_cells@ == psn_parse(pv[0], 0, 0, empty_cells()).unwrap());
        }
        let board = Board::from_cells(&new_cells);
        self.set_state(&board, player, half_moves, full_moves);
        Ok(())
    }

    /// Plays the chosen action provided in string representation.
    pub fn play_from_string(&mut self, action_string: &str) -> (r: Result<(), RuntimeError>)
        requires
            old(self).current_player <= 1,
            old(self).full_moves < u64::MAX,
            old(self).half_moves < u64::MAX,
        ensures
            parsed_action(old(self).board@, action_string@) is None ==> (r matches Err(e) && e is Parse
                && *final(self) == *old(self)),
            parsed_action(old(self).board@, action_string@) matches Some(a) ==> {
                let legal = player_actions(old(self).board@, old(self).current_player).contains(
                    (a as int % 16777216) as u32,
                );
                &&& r is Ok == legal
                &&& !legal ==> (*final(self) == *old(self) && (r matches Err(e) && e
                    == RuntimeError::Rules(RulesErrorKind::IllegalAction(a))))
                &&& legal ==> final(self).board@ == play_bits(old(self).board@, a)
                    && final(self).current_player == 1 - old(self).current_player
                    && final(self).options == old(self).options
                    && (board_wf(old(self).board@) ==> board_wf(final(self).board@))
                    && final(self).full_moves == old(self).full_moves + (if old(self).current_player
                    == 1 {
                    1int
                } else {
                    0int
                }) && (if old(self).last_piece_count == count_pieces_spec(final(self).board@) {
                    final(self).half_moves == old(self).half_moves + 1
                        && final(self).last_piece_count == old(self).last_piece_count
                } else {
                    final(self).half_moves == 0 && final(self).last_piece_count
                        == count_pieces_spec(final(self).board@)
                })
            },
    {
        let action = match string_to_action(&self.board, action_string) {
            Ok(a) => a,
            Err(e) => {
                return Err(RuntimeError::Parse(e));
            },
        };
        match self.play(action) {
            Ok(()) => Ok(()),
            Err(e) => Err(RuntimeError::Rules(e)),
        }
    }
}

impl Game {
    /// Searches and returns the best action at a given depth.
    ///
    /// With the opening book, its action is returned when it was searched at
    /// least as deep. The information lines are added to `info` when the
    /// options ask for them.
    pub fn search_to_depth(
        &self,
        depth: u64,
        opening_book: Option<&OpeningBook>,
        transposition_table: &mut Option<SearchTable>,
        info: &mut Vec<String>,
    ) -> (r: Option<(Action, Score)>)
        requires
            board_wf(self.board@),
            self.current_player <= 1,
            table_ok(*old(transposition_table)),
        ensures
            table_ok(*final(transposition_table)),
            final(transposition_table).is_some() == old(transposition_table).is_some(),
            !self.options.verbose ==> final(info)@ == old(info)@,
            r matches Some(res) ==> action_on_board(res.0),
            r matches Some(res) ==> player_actions(self.board@, self.current_player).contains(res.0)
                || (self.options.use_book && (book_response(
                opening_book,
                board_cells(self.board@),
                self.current_player,
            ) matches Some(e) && e.0 == res.0)),
            !self.options.use_book && depth > 0 && player_actions(self.board@, self.current_player).len()
                > 0 ==> r is Some,
            !(self.options.use_book && book_answer(opening_book, board_cells(self.board@), self.current_player, depth) is Some) && (!self.options.use_table
                || old(transposition_table).is_none()) ==> (r matches Some(res) ==> (exists|d: nat|
                1 <= d <= depth && #[trigger] root_bound(self.board@, self.current_player, res.1, d)) && (
            BASE_ALPHA <= res.1 <= BASE_BETA ==> root_bound(
                self.board@,
                self.current_player,
                res.1,
                depth as nat,
            ) && root_action_bound(self.board@, self.current_player, res.0, res.1, depth as nat))),
            self.options.use_book && book_answer(opening_book, board_cells(self.board@), self.current_player, depth)
                is Some ==> r == book_answer(opening_book, board_cells(self.board@), self.current_player, depth)
                && *final(transposition_table) == *old(transposition_table),
            !(self.options.use_book && book_answer(opening_book, board_cells(self.board@), self.current_player, depth)
                is Some) ==> (r is Some <==> depth > 0 && player_actions(
                self.board@,
                self.current_player,
            ).len() > 0),
            !(self.options.use_book && book_answer(opening_book, board_cells(self.board@), self.current_player, depth)
                is Some) ==> (r matches Some(res) ==> player_actions(self.board@, self.current_player).contains(
                res.0,
            )),
    {
        if self.options.use_book {
            let cells = self.board.to_cells();
            if let Some((action, book_depth, score)) = search_book(
                &self.board,
                &cells,
                self.current_player,
                self.options.verbose,
                opening_book,
                info,
            ) {
                if book_depth >= depth {
                    return Some((action, score));
                }
            }
        }
        let result = if self.options.use_table {
            search_iterative(
                &self.board,
                self.current_player,
                depth,
                &None,
                self.options.verbose,
                transposition_table,
                info,
            )
        } else {
            let mut no_table: Option<SearchTable> = None;
            search_iterative(
                &self.board,
                self.current_player,
                depth,
                &None,
                self.options.verbose,
                &mut no_table,
                info,
            )
        };
        proof {
            if let Some(res) = result {
                lemma_listed_on_board(self.board@, self.current_player, res.0);
            }
        }
        result
    }

    /// Searches and returns the best action after a given time.
    ///
    /// With the opening book, its action is returned. The information lines
    /// are added to `info` when the options ask for them.
    pub fn search_to_time(
        &self,
        movetime: u64,
        opening_book: Option<&OpeningBook>,
        transposition_table: &mut Option<SearchTable>,
        info: &mut Vec<String>,
    ) -> (r: Option<(Action, Score)>)
        requires
            board_wf(self.board@),
            self.current_player <= 1,
            table_ok(*old(transposition_table)),
        ensures
            table_ok(*final(transposition_table)),
            final(transposition_table).is_some() == old(transposition_table).is_some(),
            !self.options.verbose ==> final(info)@ == old(info)@,
            r matches Some(res) ==> action_on_board(res.0),
            r matches Some(res) ==> player_actions(self.board@, self.current_player).contains(res.0)
                || (self.options.use_book && (book_response(
                opening_book,
                board_cells(self.board@),
                self.current_player,
            ) matches Some(e) && e.0 == res.0)),
            self.options.use_book ==> (book_response(opening_book, board_cells(self.board@), self.current_player) matches Some(
                e,
            ) ==> (action_on_board(e.0) ==> (r matches Some(res) && res.0 == e.0 && res.1 == e.1 as Score))),
            !self.options.use_book && (!self.options.use_table || old(transposition_table).is_none())
                ==> (r matches Some(res) ==> (exists|d: nat| d >= 1 && #[trigger] root_bound(
                self.board@,
                self.current_player,
                res.1,
                d,
            )) && (BASE_ALPHA <= res.1 <= BASE_BETA ==> exists|d: nat|
                d >= 1 && #[trigger] root_bound(self.board@, self.current_player, res.1, d)
                    && root_action_bound(self.board@, self.current_player, res.0, res.1, d))),
    {
        let mut depth_done: u64 = 0;
        let r = self.search_to_time_clocked(movetime, opening_book, transposition_table, info, &mut depth_done);
        proof {
            if let Some(res) = r {
                if !self.options.use_book && (!self.options.use_table || old(transposition_table).is_none()) {
                    let d = depth_done as nat;
                    if BASE_ALPHA <= res.1 <= BASE_BETA {
                        assert(root_bound(self.board@, self.current_player, res.1, d));
                        assert(root_action_bound(self.board@, self.current_player, res.0, res.1, d));
                    }
                }
            }
        }
        r
    }

    /// The search of [`Self::search_to_time`], which sets `depth_done` to the
    /// last depth searched before the time was up; once the first depth is
    /// searched, an action is found, and without a table its score is that of
    /// the searches up to `depth_done`.
    pub fn search_to_time_clocked(
        &self,
        movetime: u64,
        opening_book: Option<&OpeningBook>,
        transposition_table: &mut Option<SearchTable>,
        info: &mut Vec<String>,
        depth_done: &mut u64,
    ) -> (r: Option<(Action, Score)>)
        requires
            board_wf(self.board@),
            self.current_player <= 1,
            table_ok(*old(transposition_table)),
        ensures
            table_ok(*final(transposition_table)),
            final(transposition_table).is_some() == old(transposition_table).is_some(),
            !self.options.verbose ==> final(info)@ == old(info)@,
            r matches Some(res) ==> action_on_board(res.0),
            r matches Some(res) ==> player_actions(self.board@, self.current_player).contains(res.0)
                || (self.options.use_book && (book_response(
                opening_book,
                board_cells(self.board@),
                self.current_player,
            ) matches Some(e) && e.0 == res.0)),
            self.options.use_book ==> (book_response(opening_book, board_cells(self.board@), self.current_player) matches Some(
                e,
            ) ==> (action_on_board(e.0) ==> (r matches Some(res) && res.0 == e.0 && res.1 == e.1 as Score))),
            !self.options.use_book && *final(depth_done) >= 1 && player_actions(
                self.board@,
                self.current_player,
            ).len() > 0 ==> r is Some,
            !self.options.use_book && (!self.options.use_table || old(transposition_table).is_none())
                ==> (r matches Some(res) ==> (exists|d: nat|
                1 <= d <= *final(depth_done) && #[trigger] root_bound(
                self.board@,
                self.current_player,
                res.1,
                d,
            )) && (BASE_ALPHA <= res.1 <= BASE_BETA ==> root_bound(
                self.board@,
                self.current_player,
                res.1,
                *final(depth_done) as nat,
            ) && root_action_bound(self.board@, self.current_player, res.0, res.1, *final(depth_done) as nat))),
    {
        *depth_done = 0;
        if self.options.use_book {
            let cells = self.board.to_cells();
            if let Some((action, _depth, score)) = search_book(
                &self.board,
                &cells,
                self.current_player,
                self.options.verbose,
                opening_book,
                info,
            ) {
                return Some((action, score));
            }
        }
        let start = now();
        let end_time = match checked_add(&start, from_millis(movetime)) {
            Some(end_time) => end_time,
            None => {
                return None;
            },
        };
        let result = if self.options.use_table {
            search_iterative_clocked(
                &self.board,
                self.current_player,
                u64::MAX,
                &Some(end_time),
                self.options.verbose,
                transposition_table,
                info,
                depth_done,
            )
        } else {
            let mut no_table: Option<SearchTable> = None;
            search_iterative_clocked(
                &self.board,
                self.current_player,
                u64::MAX,
                &Some(end_time),
                self.options.verbose,
                &mut no_table,
                info,
                depth_done,
            )
        };
        proof {
            if let Some(res) = result {
                lemma_listed_on_board(self.board@, self.current_player, res.0);
            }
        }
        result
    }
}

} // verus!
