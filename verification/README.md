# Greenseer

A UCI chess engine: negamax with alpha-beta pruning, principal variation search, reverse
futility and null move pruning, quiescence search, killer moves and MVV-LVA move ordering, a
transposition table shared by lazy-SMP search threads, and a hand-tuned evaluation.

## Layout

- `src/` is the verified library.
  - `engine/bitboard.rs`, `engine/board.rs`: bitboards and the position the evaluator reads.
  - `engine/utils/`: pawn, king-zone and file masks, pawn structure and king-shield terms,
    capture flags, and the transposition table (entry packing, mate-score conversion,
    replacement policy, store and lookup).
  - `engine/eval.rs`: material and the integer positional terms (piece-square tables,
    mobility, king-attack units, pawn structure, rook files, bishop pair, doubled pawns, early
    queen moves, tempo).
  - `engine/ordering.rs`: move ordering.
  - `engine/search.rs`: the search's shared state and, one decision at a time, what a
    negamax node and the iterative-deepening root do.
  - `engine/lists.rs`: the fixed-capacity move lists of `arrayvec`.
  - `uci.rs`: reading UCI commands and planning searches; `evaluate.rs`: a random mover.
- `app/` drives the search with the move generator of `oxi_chess_lib`, applies the
  floating-point parts of the evaluation and of time management, runs the search threads and
  speaks UCI on standard input and output.
- `tests/` exercises the library.
