//! Time management: how long to think about a move, from the clock, the increments
//! and the moves to go, or from a fixed move time. Durations are in nanoseconds.

use vstd::prelude::*;
use crate::types::piece::Color;
use crate::uci::command::GoOptions;
use crate::uci::option::UciOptions;

verus! {

/// The most moves to go that the clock is shared among.
pub const MAX_MOVES_TO_GO: u64 = 20;

/// Nanoseconds in 2^64 seconds: every `Duration` is shorter.
pub const MAX_DURATION_NANOS: u128 = 18_446_744_073_709_551_616_000_000_000;

/// Nanoseconds per millisecond.
pub const NANOS_PER_MILLI: u128 = 1_000_000;

/// A point in time of the system clock.
#[verifier::external_type_specification]
#[verifier::external_body]
pub struct ExSystemTime(std::time::SystemTime);

/// `SystemTime::now`: the current time of the system clock. Nothing is stated of it.
#[verifier::external_body]
pub(crate) fn system_now() -> std::time::SystemTime {
    std::time::SystemTime::now()
}

/// `SystemTime::elapsed`: the nanoseconds from `t` to now, 0 when the clock reads
/// earlier than `t`. The value depends on the clock; only that it is below the
/// largest `Duration` (2^64 seconds) is stated.
#[verifier::external_body]
fn nanos_since(t: &std::time::SystemTime) -> (n: u128)
    ensures
        n < MAX_DURATION_NANOS,
{
    match t.elapsed() {
        Ok(d) => d.as_nanos(),
        Err(_) => 0,
    }
}

/// The time to spend on the move, in milliseconds: the fixed move time less the
/// overhead (at least 0), or else the time left plus the increments over the moves to
/// go (at least `MAX_MOVES_TO_GO`), less the overhead (at least 0), shared among the
/// moves to go.
pub open spec fn move_time_ms(go: GoOptions, overhead: u64, us: int) -> int {
    if go.movetime > 0 {
        if go.movetime >= overhead { go.movetime - overhead } else { 0 }
    } else {
        let mtg = if go.movestogo >= MAX_MOVES_TO_GO { go.movestogo as int } else { MAX_MOVES_TO_GO as int };
        let total = go.time[us] + go.inc[us] * mtg;
        let left = if total >= overhead { total - overhead } else { 0 };
        left / mtg
    }
}

/// The inputs for which the time computation does not overflow.
pub open spec fn time_fits(go: GoOptions, us: int) -> bool {
    go.movetime > 0 || go.time[us] + go.inc[us] * (if go.movestogo >= MAX_MOVES_TO_GO {
        go.movestogo as int
    } else {
        MAX_MOVES_TO_GO as int
    }) <= u64::MAX
}

/// Whether the time computation for side `us` does not overflow (see `time_fits`).
pub fn time_fits_for(go: &GoOptions, us: Color) -> (r: bool)
    requires
        us.0 < 2,
    ensures
        r == time_fits(*go, us.0 as int),
{
    if go.movetime > 0 {
        return true;
    }
    let u = us.0 as usize;
    let mtg: u64 = if go.movestogo >= MAX_MOVES_TO_GO { go.movestogo } else { MAX_MOVES_TO_GO };
    match go.inc[u].checked_mul(mtg) {
        None => {
            assert(go.inc[u as int] * mtg > u64::MAX);
            assert(go.time[u as int] + go.inc[u as int] * mtg > u64::MAX) by (nonlinear_arith)
                requires go.inc[u as int] * mtg > u64::MAX, go.time[u as int] >= 0;
            false
        },
        Some(x) => go.time[u].checked_add(x).is_some(),
    }
}

/// The elapsed time `elapsed` has reached `limit`.
pub open spec fn time_reached(elapsed: u128, limit: u128) -> bool {
    elapsed >= limit
}

/// Whether another iteration fits: not once half the optimum time has passed, nor when
/// the elapsed time times `node_ratio` (cut to 32 bits) reaches the maximum time.
pub open spec fn deeper_spec(elapsed: u128, optimum: u128, maximum: u128, node_ratio: u64) -> bool {
    elapsed < optimum / 2 && elapsed * (node_ratio as u32) < maximum
}

/// The search clock: when the search started, and the optimum and maximum thinking
/// times in nanoseconds.
#[derive(Debug, Clone, Copy)]
pub struct TimeManager {
    start_time: std::time::SystemTime,
    opt_time: u128,
    max_time: u128,
}

impl TimeManager {
    /// The optimum thinking time.
    pub closed spec fn optimum_spec(&self) -> u128 {
        self.opt_time
    }

    /// The maximum thinking time.
    pub closed spec fn maximum_spec(&self) -> u128 {
        self.max_time
    }

    /// The start time.
    pub closed spec fn start_spec(&self) -> std::time::SystemTime {
        self.start_time
    }

    /// A clock started at `start_time`. With time management, the maximum time is the
    /// move time (`move_time_ms`) and the optimum nine tenths of it; otherwise both are 0.
    pub fn new(
        start_time: std::time::SystemTime,
        go_options: &GoOptions,
        uci_options: &UciOptions,
        us: Color,
    ) -> (tm: TimeManager)
        requires
            us.0 < 2,
            time_fits(*go_options, us.0 as int),
        ensures
            tm.start_spec() == start_time,
            go_options.uses_time_management() ==> tm.maximum_spec() == move_time_ms(
                *go_options,
                uci_options.move_overhead,
                us.0 as int,
            ) * 1_000_000 && tm.optimum_spec() == 9 * tm.maximum_spec() / 10,
            !go_options.uses_time_management() ==> tm.maximum_spec() == 0 && tm.optimum_spec() == 0,
    {
        let mut time_manager = TimeManager { start_time: start_time, opt_time: 0, max_time: 0 };
        time_manager.init(go_options, uci_options, us);
        time_manager
    }

    fn init(&mut self, go_options: &GoOptions, uci_options: &UciOptions, us: Color)
        requires
            us.0 < 2,
            time_fits(*go_options, us.0 as int),
            old(self).opt_time == 0,
            old(self).max_time == 0,
        ensures
            final(self).start_time == old(self).start_time,
            go_options.uses_time_management() ==> final(self).max_time == move_time_ms(
                *go_options,
                uci_options.move_overhead,
                us.0 as int,
            ) * 1_000_000 && final(self).opt_time == 9 * final(self).max_time / 10,
            !go_options.uses_time_management() ==> final(self).max_time == 0 && final(self).opt_time == 0,
    {
        if !go_options.use_time_management() {
            return;
        }
        let movetime_ms: u64 = if go_options.movetime > 0 {
            go_options.movetime.saturating_sub(uci_options.move_overhead)
        } else {
            let mtg: u64 = if go_options.movestogo >= MAX_MOVES_TO_GO { go_options.movestogo } else { MAX_MOVES_TO_GO };
            let c = us.0 as usize;
            assert(go_options.inc[c as int] * mtg <= u64::MAX) by (nonlinear_arith)
                requires
                    go_options.time[c as int] + go_options.inc[c as int] * mtg <= u64::MAX,
                    go_options.time[c as int] >= 0;
            let time_left = (go_options.time[c] + go_options.inc[c] * mtg).saturating_sub(uci_options.move_overhead);
            time_left / mtg
        };
        let movetime: u128 = movetime_ms as u128 * NANOS_PER_MILLI;
        self.opt_time = 9 * movetime / 10;
        self.max_time = movetime;
    }

    /// The nanoseconds since the start (read from the system clock).
    pub fn elapsed(&self) -> (n: u128)
        ensures
            n < MAX_DURATION_NANOS,
    {
        nanos_since(&self.start_time)
    }

    /// The optimum thinking time.
    pub fn optimum(&self) -> (t: u128)
        ensures
            t == self.optimum_spec(),
    {
        self.opt_time
    }

    /// The maximum thinking time.
    pub fn maximum(&self) -> (t: u128)
        ensures
            t == self.maximum_spec(),
    {
        self.max_time
    }

    /// The current time of the system clock.
    pub fn current() -> std::time::SystemTime {
        system_now()
    }

    /// The nanoseconds since `previous_time` (read from the system clock).
    pub fn elapsed_since(previous_time: std::time::SystemTime) -> u128 {
        nanos_since(&previous_time)
    }

    /// Whether the elapsed time has reached the optimum (read from the system clock).
    pub fn should_stop(&self) -> (b: bool)
        ensures
            exists|e: u128| e < MAX_DURATION_NANOS && b == #[trigger] time_reached(e, self.optimum_spec()),
    {
        let e = self.elapsed();
        let b = e >= self.optimum();
        assert(e < MAX_DURATION_NANOS && b == time_reached(e, self.optimum_spec()));
        b
    }

    /// Whether the elapsed time has reached the maximum (read from the system clock).
    pub fn must_stop(&self) -> (b: bool)
        ensures
            exists|e: u128| e < MAX_DURATION_NANOS && b == #[trigger] time_reached(e, self.maximum_spec()),
    {
        let e = self.elapsed();
        let b = e >= self.maximum();
        assert(e < MAX_DURATION_NANOS && b == time_reached(e, self.maximum_spec()));
        b
    }
}

impl GoOptions {
    /// The clock decides when to stop: no mate search, depth, node limit, perft or
    /// infinite search was asked for.
    pub open spec fn uses_time_management(self) -> bool {
        self.mate == 0 && self.depth == 0 && self.nodes == 0 && self.perft == 0 && !self.infinite
    }

    /// Whether the clock decides when to stop (see `uses_time_management`).
    pub fn use_time_management(self) -> (b: bool)
        ensures
            b == self.uses_time_management(),
    {
        self.mate == 0 && self.depth == 0 && self.nodes == 0 && self.perft == 0 && !self.infinite
    }
}

/// Decides `deeper_spec` from the elapsed, optimum and maximum times.
pub fn deeper_allowed(elapsed: u128, optimum: u128, maximum: u128, node_ratio: u64) -> (b: bool)
    requires
        elapsed < MAX_DURATION_NANOS,
    ensures
        b == deeper_spec(elapsed, optimum, maximum, node_ratio),
{
    if elapsed >= optimum / 2 {
        return false;
    }
    let ratio = node_ratio as u32;
    assert(elapsed * ratio <= u128::MAX) by (nonlinear_arith)
        requires elapsed < MAX_DURATION_NANOS, ratio <= u32::MAX;
    let next_time = elapsed * ratio as u128;
    if next_time >= maximum {
        return false;
    }
    true
}

} // verus!
