# chess

Board representation, move tables and FEN reading for a chess engine, verified with Verus.

- `src/square.rs`: squares `A1..H8`, numbered `8 * rank + file`; files, ranks and offsets.
- `src/bitboard.rs`: `BitBoard`, a set of squares in a `u64`, viewed as a set of indices;
  boards built from lists of squares and from step paths (`from_square_shifts`).
- `src/move_gen/leaping_pieces.rs`: the king, knight and pawn tables, proved equal to their
  geometric definitions for every square.
- `src/position.rs`: pieces, sides, game state, the start position, the piece on a square and
  the text of a board.
- `src/fen.rs`: reading a position from Forsyth-Edwards Notation, against a specification of
  the notation.
- `src/search.rs`: moves and their text, search parameters and the rules that stop a search.
- `src/perft.rs`: per-depth perft counts.
- `app/lib.rs`: serde, tabled and thiserror copies of library types, the timed perft and search
  (which take a move generator and an evaluator), the UCI `info` line and the log setup.
