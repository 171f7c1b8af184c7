//! Board representation and move tables for a chess engine.
pub mod square;
pub mod bitboard;
pub mod text;
pub mod position;
pub mod move_gen;
pub mod fen;
pub mod search;
pub mod perft;
