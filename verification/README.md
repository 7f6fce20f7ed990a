# snowhead

A UCI chess engine written in Verus: the library under `src/` carries
`requires`/`ensures` contracts that Verus proves, and `app/` is the thin program
around it (the UCI loop, the clock and threads, option files, the tuning batch).

Layout of `src/`:

- `types/` — squares, pieces, moves, bitboards and scores, with their arithmetic.
- `attacks/`, `attacks.rs` — attack tables of every piece, sliding attacks and lines.
- `position/classic/` — a mailbox-and-bitboard position: FEN reading and writing, making
  and taking back moves (hash key and piece-square value kept up to date), legality and
  check detection.
- `position.rs`, `board.rs` — the position the search plays on, held in a
  `cozy_chess::Board`; `board.rs` holds the trusted wrappers of that crate.
- `evaluate/`, `psqt.rs` — piece-square tables and the tapered evaluation, with the
  incremental update of the running score.
- `movegen/`, `movepick.rs` — move values, insertion sorts and the move picker.
- `search/`, `search.rs` — alpha-beta and quiescence search, principal variation, root
  moves, perft and the search thread's bookkeeping.
- `tt.rs`, `zobrist.rs`, `rng.rs` — transposition table, hashing keys, random numbers.
- `uci/`, `uciset.rs`, `timeman.rs` — parsing of UCI commands and options, time limits.
- `bench/`, `tune.rs` — EPD records and the parameter file of the tuner.

The laws that span several functions are public proof functions, among them
`lemma_do_undo_restores` (taking back a move restores the position, its key and its
running value), `lemma_incremental_psq` (the incremental score equals the score counted
afresh), `lemma_legal_king_step_safe` (a legal king step lands on an unattacked square),
`MovePicker::lemma_handed_once` (the picker hands each listed move out once, and all of
them before it answers `None`), `lemma_save_then_probe` (a probe finds what was saved) and
`lemma_psq_mirror`. The results of the `cozy_chess` board's methods are named in
`board.rs`; perft, the evaluation, the move lists and the search are stated over them.
