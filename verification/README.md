# pijersi-rs

A Pijersi game engine whose logic is verified with Verus: move generation,
rules, notation, evaluation, alpha-beta search, transposition table, opening
book and the UGI command handling, each with contracts over mathematical
models of the board.

## Layout

- `src/` — the verified library.
  - `bitboard.rs` — the board as 16 bitboards, its view as a sequence of
    words and the pieces read from them.
  - `logic/` — action encoding and play (`actions`), move generation
    (`movegen`), rules (`rules`), counting of positions (`perft`), cell
    indices and neighbour tables (`index`, `lookup`), notation (`translate`).
  - `search/` — evaluation and quiescence search (`eval`), principal
    variation search with iterative deepening (`alphabeta`), opening book
    (`openings`).
  - `hash/` — Zobrist hashing of positions and the transposition table.
  - `board.rs`, `game.rs` — the engine state kept as cells or as bitboards.
  - `ugi.rs` — the decisions of the UGI protocol, from command to answer.
- `tests/` — tests run against the compiled library.
- `app/` — the command-line program: argument and command parsing, printing,
  loading the opening book file, error display.

## Main properties proved

- Playing a legal action keeps the board well formed; cells and bitboards
  convert into each other and stay in step.
- The notations (actions, cells, board strings, full state strings) read back
  as what was written.
- Without a transposition table, where no check of the clock found the time
  up, and with a static evaluation within 8192 of the board's score (as from a
  root evaluated exactly), the quiescence search and the alpha-beta search
  return fail-soft bounds of the negamax value of the position; inside the
  search window, that value. At the root, every score below the base beta
  bounds its action's value from above, and the best score, reached by its
  action alone, is that action's value. A timed search keeps only the depths
  searched before the time was up.
- The captures of a player are its actions that take a piece; the quiescence
  search follows those and the moves that reach the far row.
- With a transposition table, a search changes the table only by storing
  results of searches no deeper than its own, and leaves for its position
  either the entry found before or the score it returns. The entries keep the
  node type that the search expected rather than the bound that the score
  turned out to be, so a search with the table can return another score than
  the search without it (`test_table_search_can_differ` shows one position).
- The transposition table keeps one entry per position, replaced only by a
  deeper one or an equally deep one of a PV node, and reading gives back the
  kept entry (empty slots hold none); the incremental evaluation equals the
  full one.
