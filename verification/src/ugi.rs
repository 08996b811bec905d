//! This module implements the UGI protocol.
//!
//! The engine answers the commands of the protocol: each command gives the
//! lines to print and the errors to report, in order.
use vstd::prelude::*;

use crate::bitboard;
use crate::bitboard::cells_bits;
use crate::board::{book_answer, cells_piece_count, cells_valid, play_state, start_cells, state_after, Board};
use crate::errors::{ParseError, RuntimeError, UgiErrorKind};
use crate::hash::search::SearchTable;
use crate::logic::movegen::player_actions;
use crate::logic::perft::count_actions_spec;
use crate::logic::rules::{has_arrived, is_action_legal, is_win_spec, winner_spec};
use crate::logic::translate::{
    action_to_string, cell_notation_ok, count_slashes, empty_cells, notation_player,
    parsed_action, psn_parse,
    push_text, string_to_action, string_to_cells, string_to_player, valid_cells,
};
use crate::logic::MAX_HALF_MOVES;
use crate::piece::is_valid_cell;
use crate::search::alphabeta::{root_action_bound, root_bound, BASE_ALPHA, BASE_BETA};
use crate::search::openings::OpeningBook;
use crate::utils::parse_bool_arg;

verus! {

/// What the engine answers: a line to print or an error to report.
#[derive(Debug)]
pub enum UgiOutput {
    /// A line to print
    Line(String),
    /// An error to report
    Error(RuntimeError),
    /// A parsing error to report
    ParseError(ParseError),
}

/// The arguments of the `go` command that the engine answers.
#[derive(Debug, Clone, PartialEq, Eq)]
pub enum GoArgs {
    /// Search to a depth
    Depth {
        /// The depth
        depth: u64,
    },
    /// Search for a time in milliseconds
    Movetime {
        /// The time
        time: u64,
    },
    /// Play an action given in string representation
    Manual {
        /// The action
        action_string: String,
    },
}

/// The arguments of the `position` command.
#[derive(Debug, Clone, PartialEq, Eq)]
pub enum PositionArgs {
    /// The starting position, then the words `moves` and the actions to play, if any
    Startpos {
        /// The words after `startpos`
        moves: Vec<String>,
    },
    /// A position in Pijersi Standard Notation, then the words `moves` and the actions to play, if any
    Fen {
        /// The cells
        fen: String,
        /// The player
        player: String,
        /// The half move counter
        half_moves: u64,
        /// The full move counter
        full_moves: u64,
        /// The words after the counters
        moves: Vec<String>,
    },
}

/// The arguments of the `query` command.
#[derive(Debug, Clone, PartialEq, Eq)]
pub enum QueryArgs {
    /// Whether the game is over
    Gameover,
    /// Whether the first player is to move
    P1turn,
    /// The result of the game
    Result,
    /// Whether an action is legal
    Islegal {
        /// The action
        action_string: String,
    },
    /// The position in Pijersi Standard Notation
    Fen,
}

/// The arguments of the `setoption` command.
#[derive(Debug, Clone, PartialEq, Eq)]
pub enum SetoptionArgs {
    /// Using the opening book
    UseBook {
        /// `true` or `false`
        value: String,
    },
    /// Printing the info logs during searches
    Verbose {
        /// `true` or `false`
        value: String,
    },
}

/// The target platform of the build.
///
/// Gives `current_platform::CURRENT_PLATFORM`, which the build sets; its text is not stated.
#[verifier::external_body]
pub(crate) fn target_platform() -> (r: &'static str) {
    current_platform::CURRENT_PLATFORM
}

/// The platform that the build ran on.
///
/// Gives `current_platform::COMPILED_ON`, which the build sets; its text is not stated.
#[verifier::external_body]
pub(crate) fn compiled_on() -> (r: &'static str) {
    current_platform::COMPILED_ON
}

/// A line made of a text.
fn text_line(text: &str) -> (r: UgiOutput)
    ensures
        r matches UgiOutput::Line(l) && l@ == text@,
{
    let mut line = String::new();
    push_text(&mut line, text);
    UgiOutput::Line(line)
}

/// Whether two texts are equal.
pub fn same_text(a: &str, b: &str) -> (r: bool)
    ensures
        r == (a@ == b@),
{
    let n = a.unicode_len();
    if n != b.unicode_len() {
        return false;
    }
    let mut i: usize = 0;
    while i < n
        invariant
            n == a@.len(),
            n == b@.len(),
            i <= n,
            forall|j: int| 0 <= j < i ==> a@[j] == b@[j],
        decreases n - i,
    {
        if a.get_char(i) != b.get_char(i) {
            return false;
        }
        i += 1;
    }
    assert(a@ =~= b@);
    true
}

/// The words joined with single spaces.
pub open spec fn joined(words: Seq<Seq<char>>) -> Seq<char>
    decreases words.len(),
{
    if words.len() == 0 {
        seq![]
    } else if words.len() == 1 {
        words[0]
    } else {
        joined(words.drop_last()) + seq![' '] + words.last()
    }
}

/// Joins the words with single spaces.
pub fn join_words(words: &Vec<String>) -> (r: String)
    ensures
        r@ == joined(words@.map_values(|w: String| w@)),
{
    let ghost ws = words@.map_values(|w: String| w@);
    let mut r = String::new();
    let mut i: usize = 0;
    while i < words.len()
        invariant
            ws == words@.map_values(|w: String| w@),
            i <= words@.len(),
            r@ == joined(ws.subrange(0, i as int)),
        decreases words@.len() - i,
    {
        if i > 0 {
            push_text(&mut r, " ");
            proof {
                reveal_strlit(" ");
            }
        }
        push_text(&mut r, words[i].as_str());
        proof {
            assert(ws.subrange(0, i + 1).drop_last() =~= ws.subrange(0, i as int));
        }
        i += 1;
    }
    proof {
        assert(ws.subrange(0, words@.len() as int) =~= ws);
    }
    r
}

/// Valid cells can be written down.
proof fn lemma_valid_cells_notation(cells: Seq<u8>)
    requires
        cells.len() == 45,
        cells_valid(cells),
    ensures
        valid_cells(cells),
{
    assert forall|k: int| 0 <= k < 45 implies cell_notation_ok(#[trigger] cells[k]) by {
        assert(is_valid_cell(cells[k]));
    }
}

/// The UgiEngine struct that implements the UGI protocol.
pub struct UgiEngine {
    /// The board of the game
    pub board: Board,
    /// The opening book, once loaded
    pub opening_book: Option<OpeningBook>,
}

/// The engine can answer every command: its board holds valid cells and its
/// player is white or black.
pub open spec fn engine_ok(engine: &UgiEngine) -> bool {
    cells_valid(engine.board.cells@) && engine.board.current_player <= 1
}

impl Default for UgiEngine {
    /// A new engine (see [`UgiEngine::new`]).
    fn default() -> (r: Self)
        ensures
            engine_ok(&r),
            r.board.cells@ == start_cells(),
    {
        UgiEngine::new()
    }
}

/// The line that answers a yes-or-no query.
pub open spec fn response_line(answer: bool) -> Seq<char> {
    if answer {
        "response true"@
    } else {
        "response false"@
    }
}

impl UgiEngine {
    /// Creates a new UgiEngine: the board is at the starting position and no book is loaded.
    pub fn new() -> (r: Self)
        ensures
            engine_ok(&r),
            r.board.cells@ == start_cells(),
            r.board.current_player == 0,
            r.opening_book is None,
    {
        let mut new_self = Self { board: Board::new(), opening_book: None };
        new_self.board.init();
        new_self
    }

    /// The identification of the engine and its options.
    pub fn ugi(&self) -> (r: Vec<String>)
        ensures
            r@.len() == 6,
            r@[0]@ == "id name Natural Selection 0.1.0"@,
            r@[1]@ == "id author Eclypse-Prime"@,
            r@[3]@ == "option name verbose type check default true"@,
            r@[4]@ == "option name use-book type check default true"@,
            r@[5]@ == "ugiok"@,
    {
        let mut lines: Vec<String> = Vec::new();
        let mut line = String::new();
        push_text(&mut line, "id name Natural Selection 0.1.0");
        lines.push(line);
        let mut line = String::new();
        push_text(&mut line, "id author Eclypse-Prime");
        lines.push(line);
        let mut line = String::new();
        push_text(&mut line, "info target platform ");
        push_text(&mut line, target_platform());
        push_text(&mut line, " compiled on ");
        push_text(&mut line, compiled_on());
        lines.push(line);
        let mut line = String::new();
        push_text(&mut line, "option name verbose type check default true");
        lines.push(line);
        let mut line = String::new();
        push_text(&mut line, "option name use-book type check default true");
        lines.push(line);
        let mut line = String::new();
        push_text(&mut line, "ugiok");
        lines.push(line);
        lines
    }

    /// Keeps the opening book and answers that the engine is ready.
    pub fn isready(&mut self, opening_book: OpeningBook) -> (r: String)
        ensures
            r@ == "readyok"@,
            final(self).board == old(self).board,
            final(self).opening_book == Some(opening_book),
    {
        self.opening_book = Some(opening_book);
        let mut line = String::new();
        push_text(&mut line, "readyok");
        line
    }

    /// Starts a new game: the board goes back to the starting position.
    pub fn uginewgame(&mut self)
        ensures
            engine_ok(final(self)),
            final(self).board.cells@ == start_cells(),
            final(self).board.current_player == 0,
            final(self).opening_book == old(self).opening_book,
    {
        self.board.init();
    }
}

/// The cells notation of a position can be read by [`string_to_cells`].
pub open spec fn fen_readable(fen: Seq<char>) -> bool {
    fen.len() * 9 + 45 < usize::MAX && (count_slashes(fen, fen.len() as int) == 6 ==> psn_parse(
        fen,
        0,
        0,
        empty_cells(),
    ) is Some)
}

/// The state of a board: cells, player, half move counter and full move counter.
pub open spec fn board_state(board: Board) -> (Seq<u8>, u8, u64, u64) {
    (board.cells@, board.current_player, board.half_moves, board.full_moves)
}

/// The state after the actions written in `moves` from position `i` on are
/// played one after the other, `None` where one of them cannot be read or is
/// not legal. Once a move counter has reached its greatest value, the actions
/// left are not played.
pub open spec fn replay(
    state: (Seq<u8>, crate::logic::Player, u64, u64, u64),
    moves: Seq<Seq<char>>,
    i: int,
) -> Option<(Seq<u8>, crate::logic::Player, u64, u64, u64)>
    decreases moves.len() - i,
{
    if i >= moves.len() || i < 0 || state.3 == u64::MAX || state.2 == u64::MAX {
        Some(state)
    } else {
        match parsed_action(cells_bits(state.0), moves[i]) {
            None => None,
            Some(a) => if player_actions(cells_bits(state.0), state.1).contains(
                (a as int % 16777216) as u32,
            ) {
                replay(state_after(state, a), moves, i + 1)
            } else {
                None
            },
        }
    }
}

/// Plays the actions from `start` on. If there is an invalid action in the list, stops and rolls back to the initial state.
///
/// Playing stops when a move counter has reached its largest value.
fn play_actions(board: &mut Board, actions: &Vec<String>, start: usize) -> (r: Option<RuntimeError>)
    requires
        cells_valid(old(board).cells@),
        old(board).current_player <= 1,
    ensures
        cells_valid(final(board).cells@),
        final(board).current_player <= 1,
        final(board).options == old(board).options,
        r is Some ==> board_state(*final(board)) == board_state(*old(board)),
        r is Some == replay(play_state(*old(board)), actions@.map_values(|w: String| w@), start as int) is None,
        r is None ==> replay(play_state(*old(board)), actions@.map_values(|w: String| w@), start as int)
            == Some(play_state(*final(board))),
{
    let (cells, player, half_moves, full_moves) = board.get_state();
    let mut i: usize = start;
    while i < actions.len()
        invariant
            cells_valid(board.cells@),
            board.current_player <= 1,
            board.options == old(board).options,
            (cells@, player, half_moves, full_moves) == board_state(*old(board)),
            cells_valid(cells@),
            player <= 1,
            replay(play_state(*old(board)), actions@.map_values(|w: String| w@), start as int)
                == replay(play_state(*board), actions@.map_values(|w: String| w@), i as int),
        decreases actions@.len() - i,
    {
        let ghost moves = actions@.map_values(|w: String| w@);
        assert(moves[i as int] == actions@[i as int]@);
        if board.full_moves == u64::MAX || board.half_moves == u64::MAX {
            return None;
        }
        match board.play_from_string(actions[i].as_str()) {
            Ok(()) => {},
            Err(e) => {
                board.set_state(&cells, player, half_moves, full_moves);
                return Some(e);
            },
        }
        i += 1;
    }
    None
}

/// The cells and the player of PSN/FEN arguments can both be read.
pub open spec fn fen_ok(fen: Seq<char>, player: Seq<char>) -> bool {
    count_slashes(fen, fen.len() as int) == 6 && notation_player(player) is Some
}

/// The state that PSN/FEN arguments set (see [`fen_ok`]).
pub open spec fn fen_state(fen: Seq<char>, player: Seq<char>, half_moves: u64, full_moves: u64) -> (
    Seq<u8>,
    crate::logic::Player,
    u64,
    u64,
    u64,
) {
    let cells = psn_parse(fen, 0, 0, empty_cells()).unwrap();
    (cells, notation_player(player).unwrap(), half_moves, full_moves, cells_piece_count(cells) as u64)
}

/// The state of the starting position.
pub open spec fn start_state() -> (Seq<u8>, crate::logic::Player, u64, u64, u64) {
    (start_cells(), 0, 0, 1, cells_piece_count(start_cells()) as u64)
}

/// Sets the state of the board using PSN/FEN arguments, and returns the errors of the arguments that cannot be read.
fn set_fen(board: &mut Board, fen: &str, player: &str, half_moves: u64, full_moves: u64) -> (r: Vec<UgiOutput>)
    requires
        fen_readable(fen@),
        cells_valid(old(board).cells@),
        old(board).current_player <= 1,
    ensures
        cells_valid(final(board).cells@),
        final(board).current_player <= 1,
        final(board).options == old(board).options,
        r@.len() == 0 <==> fen_ok(fen@, player@),
        r@.len() == 0 ==> play_state(*final(board)) == fen_state(fen@, player@, half_moves, full_moves),
        r@.len() > 0 ==> *final(board) == *old(board),
{
    let new_cells = string_to_cells(fen);
    let new_player = string_to_player(player);
    let mut errors: Vec<UgiOutput> = Vec::new();
    match (new_cells, new_player) {
        (Ok(new_cells), Ok(new_player)) => {
            proof {
                crate::logic::translate::lemma_psn_parse_valid(fen@, 0, 0, empty_cells());
            }
            board.set_state(&new_cells, new_player, half_moves, full_moves);
        },
        (Err(e), Ok(_new_player)) => {
            errors.push(UgiOutput::ParseError(e));
        },
        (Ok(_new_cells), Err(e)) => {
            errors.push(UgiOutput::ParseError(e));
        },
        (Err(e1), Err(e2)) => {
            errors.push(UgiOutput::ParseError(e1));
            errors.push(UgiOutput::ParseError(e2));
        },
    }
    errors
}

/// Plays an action given as a string, and returns the error if it cannot be
/// read or is not legal (the board then stays as it was). Once a move counter
/// has reached its greatest value, no action is played.
fn play_manual(board: &mut Board, action_string: &str) -> (r: Vec<UgiOutput>)
    requires
        cells_valid(old(board).cells@),
        old(board).current_player <= 1,
    ensures
        cells_valid(final(board).cells@),
        final(board).current_player <= 1,
        final(board).options == old(board).options,
        ({
            let played = replay(play_state(*old(board)), seq![action_string@], 0);
            &&& r@.len() <= 1
            &&& r@.len() == 0 <==> played is Some
            &&& played matches Some(st) ==> play_state(*final(board)) == st
            &&& played is None ==> *final(board) == *old(board)
        }),
{
    let ghost before = play_state(*board);
    let ghost moves = seq![action_string@];
    let mut out: Vec<UgiOutput> = Vec::new();
    if board.full_moves == u64::MAX || board.half_moves == u64::MAX {
        return out;
    }
    let ghost parsed = parsed_action(cells_bits(before.0), moves[0]);
    assert(moves[0] == action_string@);
    match board.play_from_string(action_string) {
        Ok(()) => {
            proof {
                let a = parsed->0;
                assert(replay(state_after(before, a), moves, 1) == Some(state_after(before, a)));
            }
        },
        Err(e) => {
            out.push(UgiOutput::Error(e));
        },
    }
    out
}

/// The opening book's answer to a search of the engine's position `depth`
/// moves deep (see [`book_answer`]).
pub open spec fn engine_book_answer(engine: UgiEngine, depth: u64) -> Option<
    (crate::logic::actions::Action, crate::search::Score),
> {
    match engine.opening_book {
        Some(b) => book_answer(Some(&b), engine.board.cells@, engine.board.current_player, depth),
        None => None,
    }
}

/// The last line of the answer to `go depth <depth>`: the book's action when
/// the book is in use and answers for that depth; otherwise an action of the
/// move generator found by the search, or `------` when the depth is 0 or there
/// is no action.
pub open spec fn depth_answer(engine: UgiEngine, depth: u64, line: Seq<char>) -> bool {
    let bits = cells_bits(engine.board.cells@);
    let actions = player_actions(bits, engine.board.current_player);
    match engine_book_answer(engine, depth) {
        Some(x) if engine.board.options.use_book => line == bestmove_line(bits, Some(x.0)),
        _ => if depth > 0 && actions.len() > 0 {
            exists|a: crate::logic::actions::Action, score: crate::search::Score|
                #[trigger] searched_answer(bits, engine.board.current_player, depth, a, score) && line
                    == bestmove_line(bits, Some(a))
        } else {
            line == bestmove_line(bits, None)
        },
    }
}

/// The action `a`, with its score, is the answer of a search `depth` moves
/// deep: an action of the move generator whose score bounds the value of the
/// position searched to some depth up to `depth` (a search ends early on a win
/// or a loss); inside the base window, the score bounds the position's value at
/// `depth` and that of the action from above.
pub open spec fn searched_answer(
    v: Seq<u64>,
    player: crate::logic::Player,
    depth: u64,
    a: crate::logic::actions::Action,
    score: crate::search::Score,
) -> bool {
    &&& player_actions(v, player).contains(a)
    &&& exists|d: nat| 1 <= d <= depth && #[trigger] root_bound(v, player, score, d)
    &&& BASE_ALPHA <= score <= BASE_BETA ==> root_bound(v, player, score, depth as nat)
        && root_action_bound(v, player, a, score, depth as nat)
}

/// The line that gives the best action found, or `------` when there is none.
pub open spec fn bestmove_line(v: Seq<u64>, action: Option<crate::logic::actions::Action>) -> Seq<char> {
    match action {
        Some(a) => "bestmove "@ + crate::logic::translate::action_string(v, a),
        None => "bestmove ------"@,
    }
}

/// The line that answers a query on the result of the game.
pub open spec fn result_line(won: bool, winner: Option<u8>, draw: bool) -> Seq<char> {
    if won {
        match winner {
            Some(p) => if p == 0 {
                "response p1win"@
            } else if p == 1 {
                "response p2win"@
            } else {
                "response none"@
            },
            None => "response none"@,
        }
    } else if draw {
        "response draw"@
    } else {
        "response none"@
    }
}

impl UgiEngine {
    /// Answers the `go` command: searches to a depth or for a time and gives
    /// the best action (after the information lines of the search), or plays
    /// an action given in string representation.
    pub fn go(&mut self, go_args: GoArgs) -> (r: Vec<UgiOutput>)
        requires
            engine_ok(old(self)),
        ensures
            engine_ok(final(self)),
            final(self).opening_book == old(self).opening_book,
            final(self).board.options == old(self).board.options,
            !(go_args is Manual) ==> final(self).board == old(self).board && r@.len() > 0 && (exists|
                a: Option<crate::logic::actions::Action>,
            |
                #![trigger bestmove_line(cells_bits(old(self).board.cells@), a)]
                (r@.last() matches UgiOutput::Line(l) && l@ == bestmove_line(
                    cells_bits(old(self).board.cells@),
                    a,
                )) && (a matches Some(action) ==> player_actions(
                    cells_bits(old(self).board.cells@),
                    old(self).board.current_player,
                ).contains(action) || old(self).board.options.use_book)),
            go_args matches GoArgs::Depth { depth } ==> (r@.last() matches UgiOutput::Line(l)
                && depth_answer(*old(self), depth, l@)),
            go_args matches GoArgs::Manual { action_string } ==> {
                let played = replay(play_state(old(self).board), seq![action_string@], 0);
                &&& r@.len() <= 1
                &&& r@.len() == 0 <==> played is Some
                &&& played matches Some(st) ==> play_state(final(self).board) == st
                &&& played is None ==> final(self).board == old(self).board
            },
    {
        match go_args {
            GoArgs::Depth { depth } => {
                let mut info: Vec<String> = Vec::new();
                let mut no_table: Option<SearchTable> = None;
                let book = self.opening_book.as_ref();
                proof {
                    assert(engine_book_answer(*self, depth) == book_answer(
                        book,
                        self.board.cells@,
                        self.board.current_player,
                        depth,
                    ));
                }
                let result = self.board.search_to_depth(depth, book, &mut no_table, &mut info);
                let out = self.answer_search(result, info);
                proof {
                    let bits = cells_bits(self.board.cells@);
                    if let Some(res) = result {
                        assert(bestmove_line(bits, Some(res.0)) == bestmove_line(bits, Some(res.0)));
                        if !(self.board.options.use_book && engine_book_answer(*self, depth) is Some) {
                            assert(searched_answer(bits, self.board.current_player, depth, res.0, res.1));
                        }
                    }
                }
                out
            },
            GoArgs::Movetime { time } => {
                let mut info: Vec<String> = Vec::new();
                let mut no_table: Option<SearchTable> = None;
                let result = self.board.search_to_time(
                    time,
                    self.opening_book.as_ref(),
                    &mut no_table,
                    &mut info,
                );
                self.answer_search(result, info)
            },
            GoArgs::Manual { action_string } => play_manual(&mut self.board, action_string.as_str()),
        }
    }

    /// The information lines of a search, then the best action.
    fn answer_search(
        &self,
        result: Option<(crate::logic::actions::Action, crate::search::Score)>,
        info: Vec<String>,
    ) -> (r: Vec<UgiOutput>)
        requires
            result matches Some(res) ==> crate::logic::translate::action_on_board(res.0),
        ensures
            r@.len() == info@.len() + 1,
            r@.last() matches UgiOutput::Line(l) && l@ == bestmove_line(
                cells_bits(self.board.cells@),
                match result {
                    Some(res) => Some(res.0),
                    None => None,
                },
            ),
    {
        let mut out: Vec<UgiOutput> = Vec::new();
        let mut i: usize = 0;
        while i < info.len()
            invariant
                i <= info@.len(),
                out@.len() == i,
            decreases info@.len() - i,
        {
            out.push(UgiOutput::Line(info[i].clone()));
            i += 1;
        }
        let mut line = String::new();
        match result {
            Some((action, _score)) => {
                let bits = bitboard::Board::from_cells(&self.board.cells);
                let action_string = action_to_string(&bits, action);
                push_text(&mut line, "bestmove ");
                push_text(&mut line, action_string.as_str());
            },
            None => {
                push_text(&mut line, "bestmove ------");
            },
        }
        out.push(UgiOutput::Line(line));
        out
    }
}

/// The words after a position start a list of actions: none, or `moves` followed by at least one action.
pub open spec fn moves_ok(moves: Seq<String>) -> bool {
    moves.len() == 0 || (moves.len() > 1 && moves[0]@ == "moves"@)
}

impl UgiEngine {
    /// Answers the `position` command: sets the starting position or a
    /// position in Pijersi Standard Notation, then plays the actions that
    /// follow the word `moves`. An invalid list of words is reported and leaves
    /// the board as it was; an action that cannot be played is reported and
    /// brings the board back to the position that was set.
    #[verifier::rlimit(40)]
    pub fn position(&mut self, position_args: PositionArgs) -> (r: Vec<UgiOutput>)
        requires
            engine_ok(old(self)),
            position_args matches PositionArgs::Fen { fen, .. } ==> fen_readable(fen@),
        ensures
            engine_ok(final(self)),
            final(self).opening_book == old(self).opening_book,
            final(self).board.options == old(self).board.options,
            position_args matches PositionArgs::Startpos { moves } ==> {
                &&& !moves_ok(moves@) ==> (final(self).board == old(self).board && r@.len() == 1
                    && (r@[0] matches UgiOutput::Error(RuntimeError::UGI(
                    UgiErrorKind::InvalidUGIPosition(words),
                )) && words@ == joined(moves@.map_values(|w: String| w@))))
                &&& moves_ok(moves@) ==> (r@.len() == 0 <==> replay(
                    start_state(),
                    moves@.map_values(|w: String| w@),
                    1,
                ) is Some)
                &&& moves_ok(moves@) && r@.len() == 0 ==> Some(play_state(final(self).board)) == replay(
                    start_state(),
                    moves@.map_values(|w: String| w@),
                    1,
                )
                &&& moves_ok(moves@) && r@.len() > 0 ==> board_state(final(self).board) == (
                    start_cells(),
                    0u8,
                    0u64,
                    1u64,
                ) && r@.len() == 1
            },
            position_args matches PositionArgs::Fen { fen, player, half_moves, full_moves, moves } ==> {
                let set = if fen_ok(fen@, player@) {
                    fen_state(fen@, player@, half_moves, full_moves)
                } else {
                    play_state(old(self).board)
                };
                &&& !moves_ok(moves@) ==> (final(self).board == old(self).board && r@.len() == 1
                    && (r@[0] matches UgiOutput::Error(RuntimeError::UGI(
                    UgiErrorKind::InvalidUGIPosition(words),
                )) && words@ == joined(moves@.map_values(|w: String| w@))))
                &&& moves_ok(moves@) ==> (r@.len() == 0 <==> fen_ok(fen@, player@) && replay(
                    set,
                    moves@.map_values(|w: String| w@),
                    1,
                ) is Some)
                &&& moves_ok(moves@) ==> (replay(set, moves@.map_values(|w: String| w@), 1) matches Some(
                    st,
                ) ==> play_state(final(self).board) == st)
                &&& moves_ok(moves@) && replay(set, moves@.map_values(|w: String| w@), 1) is None
                    ==> board_state(final(self).board) == (set.0, set.1, set.2, set.3)
            },
    {
        match position_args {
            PositionArgs::Startpos { moves } => {
                let mut out: Vec<UgiOutput> = Vec::new();
                let n = moves.len();
                if n == 0 {
                    self.board.init();
                } else if n == 1 || !same_text(moves[0].as_str(), "moves") {
                    out.push(
                        UgiOutput::Error(
                            RuntimeError::UGI(UgiErrorKind::InvalidUGIPosition(join_words(&moves))),
                        ),
                    );
                } else {
                    self.board.init();
                    if let Some(e) = play_actions(&mut self.board, &moves, 1) {
                        out.push(UgiOutput::Error(e));
                    }
                }
                out
            },
            PositionArgs::Fen { fen, player, half_moves, full_moves, moves } => {
                let mut out: Vec<UgiOutput> = Vec::new();
                let n = moves.len();
                if n == 0 {
                    out = set_fen(&mut self.board, fen.as_str(), player.as_str(), half_moves, full_moves);
                } else if n == 1 || !same_text(moves[0].as_str(), "moves") {
                    out.push(
                        UgiOutput::Error(
                            RuntimeError::UGI(UgiErrorKind::InvalidUGIPosition(join_words(&moves))),
                        ),
                    );
                } else {
                    out = set_fen(&mut self.board, fen.as_str(), player.as_str(), half_moves, full_moves);
                    if let Some(e) = play_actions(&mut self.board, &moves, 1) {
                        out.push(UgiOutput::Error(e));
                    }
                }
                out
            },
        }
    }

    /// Answers the `query` command with one line.
    pub fn query(&self, query_args: QueryArgs) -> (r: Vec<UgiOutput>)
        requires
            engine_ok(self),
        ensures
            r@.len() == 1,
            r@[0] matches UgiOutput::Line(l) && l@ == match query_args {
                QueryArgs::Gameover => response_line(
                    is_win_spec(cells_bits(self.board.cells@)) || count_actions_spec(
                        cells_bits(self.board.cells@),
                        self.board.current_player,
                    ) == 0 || self.board.half_moves >= MAX_HALF_MOVES,
                ),
                QueryArgs::P1turn => response_line(self.board.current_player == 0),
                QueryArgs::Result => result_line(
                    is_win_spec(cells_bits(self.board.cells@)) || count_actions_spec(
                        cells_bits(self.board.cells@),
                        self.board.current_player,
                    ) == 0,
                    winner_spec(cells_bits(self.board.cells@)),
                    self.board.half_moves >= MAX_HALF_MOVES,
                ),
                QueryArgs::Islegal { action_string } => response_line(
                    crate::logic::translate::parsed_action(cells_bits(self.board.cells@), action_string@) matches Some(a)
                        && player_actions(cells_bits(self.board.cells@), self.board.current_player).contains(
                        (a as int % 16777216) as u32,
                    ),
                ),
                QueryArgs::Fen => crate::logic::translate::psn_rows(self.board.cells@, 0) + seq![' '] + (
                if self.board.current_player == 0 {
                    seq!['w']
                } else {
                    seq!['b']
                }) + seq![' '] + crate::logic::translate::decimal_chars(self.board.half_moves as nat)
                    + seq![' '] + crate::logic::translate::decimal_chars(self.board.full_moves as nat),
            },
            query_args is Result && has_arrived(cells_bits(self.board.cells@), 0) ==> (r@[0] matches UgiOutput::Line(
                l,
            ) && l@ == "response p1win"@),
            query_args is Result && has_arrived(cells_bits(self.board.cells@), 1) && !has_arrived(
                cells_bits(self.board.cells@),
                0,
            ) ==> (r@[0] matches UgiOutput::Line(l) && l@ == "response p2win"@),
    {
        proof {
            crate::logic::actions::lemma_cells_roundtrip(self.board.cells@);
            crate::logic::rules::lemma_winner_arrived(cells_bits(self.board.cells@));
        }
        let mut out: Vec<UgiOutput> = Vec::new();
        match query_args {
            QueryArgs::Gameover => {
                let over = self.board.is_win() || self.board.is_draw();
                if over {
                    out.push(text_line("response true"));
                } else {
                    out.push(text_line("response false"));
                }
            },
            QueryArgs::P1turn => {
                if self.board.current_player == 0 {
                    out.push(text_line("response true"));
                } else {
                    out.push(text_line("response false"));
                }
            },
            QueryArgs::Result => {
                if self.board.is_win() {
                    let winner = self.board.get_winner();
                    match winner {
                        Some(0) => {
                            out.push(text_line("response p1win"));
                        },
                        Some(1) => {
                            out.push(text_line("response p2win"));
                        },
                        _ => {
                            out.push(text_line("response none"));
                        },
                    }
                } else if self.board.is_draw() {
                    out.push(text_line("response draw"));
                } else {
                    out.push(text_line("response none"));
                }
            },
            QueryArgs::Islegal { action_string } => {
                let bits = bitboard::Board::from_cells(&self.board.cells);
                let action_result = string_to_action(&bits, action_string.as_str());
                match action_result {
                    Ok(action) => {
                        if is_action_legal(&bits, self.board.current_player, action) {
                            out.push(text_line("response true"));
                        } else {
                            out.push(text_line("response false"));
                        }
                    },
                    Err(_) => {
                        out.push(text_line("response false"));
                    },
                }
            },
            QueryArgs::Fen => {
                proof {
                    lemma_valid_cells_notation(self.board.cells@);
                }
                out.push(UgiOutput::Line(self.board.get_string_state()));
            },
        }
        out
    }

    /// Answers the `setoption` command: sets an option to `true` or `false`,
    /// or reports a value that is neither.
    pub fn setoption(&mut self, option: SetoptionArgs) -> (r: Vec<UgiOutput>)
        requires
            engine_ok(old(self)),
        ensures
            engine_ok(final(self)),
            final(self).opening_book == old(self).opening_book,
            board_state(final(self).board) == board_state(old(self).board),
            final(self).board.last_piece_count == old(self).board.last_piece_count,
            match option {
                SetoptionArgs::UseBook { value } => if value@ == "true"@ || value@ == "false"@ {
                    r@.len() == 0 && final(self).board.options.use_book == (value@ == "true"@)
                        && final(self).board.options.verbose == old(self).board.options.verbose
                        && final(self).board.options.use_table == old(self).board.options.use_table
                } else {
                    r@.len() == 1 && final(self).board.options == old(self).board.options
                },
                SetoptionArgs::Verbose { value } => if value@ == "true"@ || value@ == "false"@ {
                    r@.len() == 0 && final(self).board.options.verbose == (value@ == "true"@)
                        && final(self).board.options.use_book == old(self).board.options.use_book
                        && final(self).board.options.use_table == old(self).board.options.use_table
                } else {
                    r@.len() == 1 && final(self).board.options == old(self).board.options
                },
            },
    {
        let mut out: Vec<UgiOutput> = Vec::new();
        proof {
            reveal_strlit("true");
            reveal_strlit("false");
            assert("true"@ =~= seq!['t', 'r', 'u', 'e']);
            assert("false"@ =~= seq!['f', 'a', 'l', 's', 'e']);
        }
        match option {
            SetoptionArgs::UseBook { value } => match parse_bool_arg(value.as_str()) {
                Ok(value) => {
                    self.board.options.use_book = value;
                },
                Err(e) => {
                    out.push(UgiOutput::ParseError(e));
                },
            },
            SetoptionArgs::Verbose { value } => match parse_bool_arg(value.as_str()) {
                Ok(value) => {
                    self.board.options.verbose = value;
                },
                Err(e) => {
                    out.push(UgiOutput::ParseError(e));
                },
            },
        }
        out
    }
}

} // verus!
