//! Snowhead: a chess engine library whose board logic, evaluation tables,
//! move ordering and search bookkeeping carry machine-checked contracts.

pub mod types;
pub mod attacks;
pub mod evaluate;
pub mod board;
pub mod movegen;
pub mod uci;
pub mod position;
pub mod rng;
pub mod zobrist;
pub mod tt;
pub mod search;
pub mod timeman;
pub mod psqt;
pub mod tune;
pub mod uciset;
pub mod bench;
pub mod movepick;
