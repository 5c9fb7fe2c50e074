# chicory

A chess engine core speaking the Universal Chess Interface, with its board
logic verified by Verus.

`src/` is the verified library:

- `board` — the position (twelve bitboards, side to move, castling rights,
  en-passant square, counters, summaries and Zobrist hash) and the moves that
  change it: piece moves, castling and promotions, each with an exact
  contract. For a well-formed position whose hash is in step, the
  incrementally updated hash is proved equal to the hash computed from
  scratch under conditions each move states (for instance, a move of a piece
  other than a pawn keeps it in step only when no en-passant square is open);
- `tables` — the Zobrist keys and the hash of a position;
- `fen` — reading Forsyth-Edwards Notation;
- `notation` — long algebraic notation of squares and moves, and playing a
  move given as text;
- `eval` — the integer terms of the static evaluation and move ordering;
- `search` — the decisions of the alpha-beta search at one node: repetition
  counts, transposition-table look-ups, window updates;
- `uci` — the interface commands that set up positions and searches;
- `display` — a text diagram of a position;
- `perft` — sharing the moves of a position out among threads;
- `laws` — proofs that the board operations keep a position well formed and,
  under their stated conditions, its hash in step;
- `consistency` — proofs that different ways of making the same move agree;
- `bits`, `text` — bitboard and text helpers.

`app/` is the program around it: the command loop, the threads that search
and count move paths, the floating-point blend of the king terms, and the
calls into the move generator.
