//! Basic chess types: squares, pieces, moves, bitboards and scores.

pub mod square;
pub mod piece;
pub mod moves;
pub mod bitboard;
pub mod score;
