//! Search limits as set by the UCI `go` command (signed clock values).

use vstd::prelude::*;
use crate::timeman::system_now;

verus! {

/// The limits of a search: clocks and increments (white, black), moves to go, depth,
/// fixed move time, mate search, perft depth, infinite search, node limit, and when the
/// search started.
#[derive(Debug, Clone, Copy)]
pub struct UCILimits {
    pub time: [i64; 2],
    pub inc: [i64; 2],
    pub movestogo: i32,
    pub depth: u32,
    pub movetime: i64,
    pub mate: u32,
    pub perft: u32,
    pub infinite: bool,
    pub nodes: u64,
    pub start_time: std::time::SystemTime,
}

impl UCILimits {
    /// No limits set, started now.
    pub fn new() -> (l: UCILimits)
        ensures
            l.time@ == seq![0i64, 0i64],
            l.inc@ == seq![0i64, 0i64],
            l.movestogo == 0,
            l.depth == 0,
            l.movetime == 0,
            l.mate == 0,
            l.perft == 0,
            !l.infinite,
            l.nodes == 0,
    {
        UCILimits {
            time: [0; 2],
            inc: [0; 2],
            movestogo: 0,
            depth: 0,
            movetime: 0,
            mate: 0,
            perft: 0,
            infinite: false,
            nodes: 0,
            start_time: system_now(),
        }
    }

    /// The clock decides when to stop: no mate search, move time, depth, node limit,
    /// perft or infinite search was asked for.
    pub fn use_time_management(&self) -> (b: bool)
        ensures
            b == (self.mate == 0 && self.movetime == 0 && self.depth == 0 && self.nodes == 0
                && self.perft == 0 && !self.infinite),
    {
        self.mate == 0 && self.movetime == 0 && self.depth == 0 && self.nodes == 0 && self.perft == 0
            && !self.infinite
    }
}

} // verus!
