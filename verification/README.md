# rust_chess_engine

A chess engine library whose rules, notation and search are proved correct
with Verus, with a small terminal program around it.

## What is proved

- **Rules.** A 0x88 board with reversible make/unmake (`unmake` restores
  the position, its key and its history), Zobrist keys kept equal to the
  hash of the position, and a move generator whose list is exactly the
  legal moves (`movegen::legal`), castling and en passant included.
- **Notation.** FEN reading and writing, SAN rendering and reading (every
  legal move's SAN reads back as that move), UCI move text (the UCI text of
  a legal move reads back as that move, promotions of either side
  included), PGN export and import, and EPD suites.
- **Search.** Quiescence, null-move pruning and negamax with a
  transposition table inside iterative deepening: the board ends as it
  started, any move returned is legal, a mated or stalemated side scores
  as such, and without a time limit the search reaches the depth asked for
  and always finds a move when there is one.
- **Evaluation.** The evaluation terms, each proved to change sign when the
  position is mirrored.
- **Front ends.** The UCI command handler, the game controller that decides
  what a player's command line does, perft, the opening book, and account
  checks.

## Layout

- `src/` — the verified library, one module per subject (`board`, `movegen`,
  `san`, `pgn`, `search`, `uci`, `ui`, ...). Public proof functions named
  `lemma_*` state the laws that relate several functions.
- `tests/` — tests on concrete positions.
- `app/` — the terminal program: menus, prompts, files, the UCI loop on
  standard input.

The only outside crate is `sha2`, for password digests.
