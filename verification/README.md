# rust_engine

A chess engine whose core is written and proved in Verus.

- `src/` is the verified library: bitboards and attack tables, positions (FEN reading, making
  and taking back moves, Zobrist keys), move generation and legality, staged move picking,
  the transposition table, the evaluation with its endgame scaling, the search (quiescence,
  alpha-beta, iterative deepening), UCI and SAN/PGN text handling, the tuning layout of the
  evaluation weights (packing, bounds, projection) and the text of tuned weights.
- `tests/` holds the tests of the library, perft counts among them.
- `app/` is the UCI program around the library: it reads commands, keeps the game and prints
  the search's answers.

The evaluation weights are read by the program from a file of packed values (see
`FullTuningConfig::unpack`); without one it plays with zero weights.
An opening book in the 16-byte entry format (key, move, weight) may be named as a second
argument; when it holds a legal move for the position, the program plays the heaviest one
without searching.
