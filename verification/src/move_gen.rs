//! Move generation tables.
pub mod leaping_pieces;
