//! The search thread: the state of one search (node counts, root moves, principal
//! variation, clock) and the steps of its iterative deepening.

use vstd::prelude::*;
use crate::board::ChessMove;
use crate::evaluate::score::{Value, VALUE_INFINITE};
use crate::movegen::movevalue::MoveValue;
use crate::movegen::MAX_MOVES;
use crate::position::Position;
use crate::search::pv::{PrincipalVariation, is_line_len, line_bounded};
use crate::search::rootmoves::RootMoves;
use crate::search::{alphabeta, MAX_SEARCH_PLY};
use crate::timeman::{TimeManager, deeper_allowed, deeper_spec, MAX_DURATION_NANOS};
use crate::uci::command::GoOptions;

verus! {

/// The deepest iteration when the clock decides.
pub const MAX_PLY: u32 = 128;

/// The nodes counted at one ply.
#[derive(Debug)]
pub struct SearchStack {
    node_count: u64,
}

impl SearchStack {
    /// The node count.
    pub closed spec fn count(&self) -> u64 {
        self.node_count
    }

    /// No node counted.
    pub fn new() -> (s: SearchStack)
        ensures
            s.count() == 0,
    {
        SearchStack { node_count: 0 }
    }

    fn incr_node_count_by(&mut self, incr: u64)
        ensures
            final(self).node_count == (old(self).node_count + incr) % 0x1_0000_0000_0000_0000,
    {
        self.node_count = self.node_count.wrapping_add(incr);
    }
}

/// The ratio of this iteration's nodes to the previous one's, plus one, at most 20.
pub open spec fn node_ratio_spec(nodes: u64, prev_nodes: u64) -> u64 {
    let r = nodes / prev_nodes + 1;
    (if r < 20 { r } else { 20 }) as u64
}

/// The state of a search.
pub struct SearchThread {
    pv: PrincipalVariation,
    ss: Vec<SearchStack>,
    go_options: GoOptions,
    time_manager: TimeManager,
    eval: Value,
    root_moves: RootMoves,
    node_count: u64,
    aborted: bool,
    search_log: Ghost<Seq<(int, int, int, int)>>,
}

/// A record of the searched nodes, each as (ply, beta, result, justification), is sound
/// when every node whose justification is a position `k` (not negative) met a node one
/// ply deeper, recorded before it at `k`, whose negated result reaches its `beta`: every
/// cutoff recorded is earned by a child.
pub open spec fn log_sound(log: Seq<(int, int, int, int)>) -> bool {
    forall|i: int| 0 <= i < log.len() && (#[trigger] log[i]).3 >= 0 ==> {
        let k = log[i].3;
        &&& k < i
        &&& log[k].0 == log[i].0 + 1
        &&& -log[k].2 >= log[i].1
    }
}

/// Nodes per second for `nodes` nodes in `nanos` nanoseconds: the nodes times a million
/// over the whole microseconds, cut to 64 bits; 0 before a microsecond has passed.
pub open spec fn nps_spec(nodes: u64, nanos: u128) -> u64 {
    let micros = nanos / 1000;
    if micros == 0 {
        0
    } else {
        ((1_000_000 * nodes as int / micros as int) % 0x1_0000_0000_0000_0000) as u64
    }
}

/// Nodes per second (see `nps_spec`).
pub fn nodes_per_second(nodes: u64, nanos: u128) -> (r: u64)
    requires
        nanos < MAX_DURATION_NANOS,
    ensures
        r == nps_spec(nodes, nanos),
{
    let micros = nanos / 1000;
    if micros == 0 {
        return 0;
    }
    assert(1_000_000 * (nodes as int) <= u128::MAX) by (nonlinear_arith)
        requires nodes <= u64::MAX;
    let n = 1_000_000u128 * nodes as u128 / micros;
    assert(n as u64 == (n % 0x1_0000_0000_0000_0000) as u64) by (bit_vector);
    n as u64
}

impl SearchThread {
    /// The number of plies that have a node count.
    pub closed spec fn ss_len(&self) -> nat {
        self.ss@.len()
    }

    /// The node count at `ply`.
    pub closed spec fn ss_count(&self, ply: int) -> u64 {
        self.ss@[ply].count()
    }

    /// The nodes counted below the root.
    pub closed spec fn nodes_spec(&self) -> u64 {
        self.node_count
    }

    /// Whether the search was stopped by the clock.
    pub closed spec fn aborted_spec(&self) -> bool {
        self.aborted
    }

    /// The options of the `go` command.
    pub closed spec fn go_options_spec(&self) -> GoOptions {
        self.go_options
    }

    /// The clock.
    pub closed spec fn time_manager_spec(&self) -> TimeManager {
        self.time_manager
    }

    /// The root moves.
    pub closed spec fn root_moves_spec(&self) -> RootMoves {
        self.root_moves
    }

    /// The principal variation of the last finished iteration.
    pub closed spec fn pv_spec(&self) -> PrincipalVariation {
        self.pv
    }

    /// The value found by the last iteration.
    pub closed spec fn eval_spec(&self) -> Value {
        self.eval
    }

    /// The record of the nodes searched, oldest first (see `log_sound`).
    pub closed spec fn log_spec(&self) -> Seq<(int, int, int, int)> {
        self.search_log@
    }

    /// The root moves are well formed and the record of nodes is sound.
    pub open spec fn wf(&self) -> bool {
        &&& self.root_moves_spec().wf()
        &&& log_sound(self.log_spec())
    }

    /// Appends a node to the record.
    pub(crate) fn record_node(&mut self, Ghost(node): Ghost<(int, int, int, int)>)
        requires
            old(self).wf(),
            node.3 >= 0 ==> {
                let k = node.3;
                &&& k < old(self).log_spec().len()
                &&& old(self).log_spec()[k].0 == node.0 + 1
                &&& -old(self).log_spec()[k].2 >= node.1
            },
        ensures
            final(self).wf(),
            final(self).log_spec() == old(self).log_spec().push(node),
            final(self).ss_len() == old(self).ss_len(),
            forall|p: int| 0 <= p < old(self).ss_len() ==> #[trigger] final(self).ss_count(p) == old(self).ss_count(p),
            final(self).nodes_spec() == old(self).nodes_spec(),
            final(self).aborted_spec() == old(self).aborted_spec(),
            final(self).go_options_spec() == old(self).go_options_spec(),
            final(self).time_manager_spec() == old(self).time_manager_spec(),
            final(self).root_moves_spec() == old(self).root_moves_spec(),
            final(self).pv_spec() == old(self).pv_spec(),
            final(self).eval_spec() == old(self).eval_spec(),
    {
        proof {
            let old_log = self.search_log@;
            self.search_log = Ghost(old_log.push(node));
            assert forall|i: int| 0 <= i < self.search_log@.len() && (#[trigger] self.search_log@[i]).3 >= 0 implies {
                let k = self.search_log@[i].3;
                &&& k < i
                &&& self.search_log@[k].0 == self.search_log@[i].0 + 1
                &&& -self.search_log@[k].2 >= self.search_log@[i].1
            } by {
                if i < old_log.len() {
                    assert(old_log[i] == self.search_log@[i]);
                }
            }
        }
    }

    /// Law: every cutoff in the record of searched nodes is earned by a child one ply
    /// deeper, searched before it, whose negated value reaches the node's `beta`.
    pub proof fn lemma_cutoffs_earned(&self, i: int)
        requires
            self.wf(),
            0 <= i < self.log_spec().len(),
            self.log_spec()[i].3 >= 0,
        ensures
            ({
                let k = self.log_spec()[i].3;
                &&& 0 <= k < i
                &&& self.log_spec()[k].0 == self.log_spec()[i].0 + 1
                &&& -self.log_spec()[k].2 >= self.log_spec()[i].1
            }),
    {
    }

    /// A search for `go_options` under the clock `time_manager`: nothing counted, no
    /// root moves, an empty line and value 0.
    pub fn new(go_options: GoOptions, time_manager: TimeManager) -> (t: SearchThread)
        ensures
            t.wf(),
            t.ss_len() == 0,
            t.nodes_spec() == 0,
            !t.aborted_spec(),
            t.go_options_spec() == go_options,
            t.time_manager_spec() == time_manager,
            t.root_moves_spec().values()@.len() == 0,
            t.root_moves_spec().values().idx_spec() == 0,
            t.eval_spec().0 == 0,
            forall|i: int| 0 <= i < MAX_MOVES ==> (#[trigger] t.pv_spec().moves@[i]) is None,
    {
        SearchThread {
            pv: PrincipalVariation::new(),
            ss: Vec::new(),
            go_options: go_options,
            time_manager: time_manager,
            eval: Value(0),
            root_moves: RootMoves::new(),
            node_count: 0,
            aborted: false,
            search_log: Ghost(Seq::empty()),
        }
    }

    /// Records the value `alpha` of root move `mv` (see `RootMoves::insert`), when the
    /// list has room for it.
    pub fn update_root_moves(&mut self, mv: ChessMove, alpha: Value, depth: i32)
        requires
            old(self).wf(),
            mv.wf(),
        ensures
            final(self).log_spec() == old(self).log_spec(),
            final(self).wf(),
            final(self).ss_len() == old(self).ss_len(),
            final(self).nodes_spec() == old(self).nodes_spec(),
            final(self).aborted_spec() == old(self).aborted_spec(),
            final(self).go_options_spec() == old(self).go_options_spec(),
            final(self).time_manager_spec() == old(self).time_manager_spec(),
            (depth == 1 && old(self).root_moves_spec().values()@.len() < MAX_MOVES) ==> final(self).root_moves_spec().values()@
                == old(self).root_moves_spec().values()@.push(MoveValue::new_spec(mv, alpha)),
            (depth != 1 && old(self).root_moves_spec().values().idx_spec() < MAX_MOVES) ==> final(self).root_moves_spec().values().idx_spec()
                == old(self).root_moves_spec().values().idx_spec() + 1,
            depth != 1 ==> final(self).root_moves_spec().values()@.len() == old(self).root_moves_spec().values()@.len(),
    {
        let move_value = MoveValue::new(mv, alpha);
        if depth == 1 {
            if self.root_moves.len() < MAX_MOVES {
                self.root_moves.insert(move_value, depth);
            }
        } else if self.root_moves.idx() < MAX_MOVES {
            self.root_moves.insert(move_value, depth);
        }
    }

    /// The root move under the cursor, without advancing it (see `RootMoves::next_move`).
    pub fn next_root_move(&mut self) -> (r: Option<ChessMove>)
        requires
            old(self).wf(),
        ensures
            final(self).log_spec() == old(self).log_spec(),
            final(self).wf(),
            final(self).ss_len() == old(self).ss_len(),
            final(self).nodes_spec() == old(self).nodes_spec(),
            final(self).aborted_spec() == old(self).aborted_spec(),
            final(self).go_options_spec() == old(self).go_options_spec(),
            final(self).time_manager_spec() == old(self).time_manager_spec(),
            final(self).root_moves_spec().values()@ == old(self).root_moves_spec().values()@,
            old(self).root_moves_spec().values().idx_spec() < old(self).root_moves_spec().values()@.len() ==> r
                == Some(
                old(self).root_moves_spec().values()@[old(self).root_moves_spec().values().idx_spec() as int].move_spec(),
            ) && final(self).root_moves_spec().values().idx_spec() == old(self).root_moves_spec().values().idx_spec(),
            old(self).root_moves_spec().values().idx_spec() >= old(self).root_moves_spec().values()@.len() ==> r is None,
    {
        self.root_moves.next_move()
    }

    /// Counts a node at `ply`: a count is opened for the ply if it has none, and the
    /// nodes below the root go up by one (modulo 2^64).
    pub fn incr_node_count(&mut self, ply: u32)
        requires
            ply <= old(self).ss_len(),
        ensures
            final(self).log_spec() == old(self).log_spec(),
            final(self).ss_len() == if ply < old(self).ss_len() { old(self).ss_len() as int } else { ply + 1 },
            final(self).ss_count(ply as int) == (if ply < old(self).ss_len() {
                old(self).ss_count(ply as int) + 1
            } else {
                1
            }) % 0x1_0000_0000_0000_0000,
            forall|p: int| 0 <= p < old(self).ss_len() && p != ply ==> #[trigger] final(self).ss_count(p)
                == old(self).ss_count(p),
            final(self).nodes_spec() == if ply > 0 {
                (old(self).nodes_spec() + 1) % 0x1_0000_0000_0000_0000
            } else {
                old(self).nodes_spec() as int
            },
            final(self).pv_spec() == old(self).pv_spec(),
            final(self).go_options_spec() == old(self).go_options_spec(),
            final(self).time_manager_spec() == old(self).time_manager_spec(),
            final(self).eval_spec() == old(self).eval_spec(),
            final(self).root_moves_spec() == old(self).root_moves_spec(),
            final(self).aborted_spec() == old(self).aborted_spec(),
    {
        if self.ss.len() <= ply as usize {
            self.push_new_stack();
        }
        let p = ply as usize;
        let mut entry = SearchStack::new();
        std::mem::swap(&mut entry, &mut self.ss[p]);
        entry.incr_node_count_by(1);
        std::mem::swap(&mut entry, &mut self.ss[p]);
        if ply > 0 {
            self.node_count = self.node_count.wrapping_add(1);
        }
    }

    /// Whether another iteration fits in the time: always without time management;
    /// otherwise `deeper_spec` on the time elapsed, read from the clock.
    pub fn can_search_deeper(&self, node_ratio: u64) -> (b: bool)
        ensures
            !self.go_options_spec().uses_time_management() ==> b,
            self.go_options_spec().uses_time_management() ==> exists|e: u128|
                e < MAX_DURATION_NANOS && b == #[trigger] deeper_spec(
                    e,
                    self.time_manager_spec().optimum_spec(),
                    self.time_manager_spec().maximum_spec(),
                    node_ratio,
                ),
    {
        if !self.go_options.use_time_management() {
            return true;
        }
        let elapsed_time = self.elapsed_time();
        let b = deeper_allowed(elapsed_time, self.time_manager.optimum(), self.time_manager.maximum(), node_ratio);
        assert(elapsed_time < MAX_DURATION_NANOS && b == deeper_spec(
            elapsed_time,
            self.time_manager_spec().optimum_spec(),
            self.time_manager_spec().maximum_spec(),
            node_ratio,
        ));
        b
    }

    /// Whether the search must stop: once aborted it stays so; with time management it
    /// aborts when the nodes below the root are a multiple of 1024 and the maximum time
    /// has passed (read from the clock).
    pub fn must_stop_searching(&mut self) -> (b: bool)
        ensures
            final(self).log_spec() == old(self).log_spec(),
            b == final(self).aborted_spec(),
            old(self).aborted_spec() ==> b,
            (!old(self).go_options_spec().uses_time_management() || old(self).nodes_spec() % 1024 != 0) ==> b
                == old(self).aborted_spec(),
            final(self).nodes_spec() == old(self).nodes_spec(),
            final(self).ss_len() == old(self).ss_len(),
            final(self).go_options_spec() == old(self).go_options_spec(),
            final(self).time_manager_spec() == old(self).time_manager_spec(),
            final(self).root_moves_spec() == old(self).root_moves_spec(),
            final(self).pv_spec() == old(self).pv_spec(),
    {
        if self.aborted {
            return true;
        }
        self.aborted = self.go_options.use_time_management() && self.nodes() % 1024 == 0
            && self.time_manager.must_stop();
        self.aborted
    }

    /// Whether the search was stopped by the clock.
    pub fn aborted(&self) -> (b: bool)
        ensures
            b == self.aborted_spec(),
    {
        self.aborted
    }

    fn push_new_stack(&mut self)
        ensures
            final(self).ss@ == old(self).ss@.push(SearchStack { node_count: 0 }),
            final(self).pv == old(self).pv,
            final(self).go_options == old(self).go_options,
            final(self).time_manager == old(self).time_manager,
            final(self).eval == old(self).eval,
            final(self).root_moves == old(self).root_moves,
            final(self).node_count == old(self).node_count,
            final(self).aborted == old(self).aborted,
            final(self).search_log == old(self).search_log,
    {
        self.ss.push(SearchStack::new());
    }

    /// The length of the principal variation.
    pub fn depth(&self) -> (d: usize)
        ensures
            is_line_len(self.pv_spec().moves@, d as int),
    {
        self.pv.len()
    }

    /// The deepest ply that counted a node.
    pub fn seldepth(&self) -> (d: usize)
        requires
            self.ss_len() >= 1,
        ensures
            d == self.ss_len() - 1,
    {
        self.ss.len() - 1
    }

    /// The nodes counted below the root.
    pub fn nodes(&self) -> (n: u64)
        ensures
            n == self.nodes_spec(),
    {
        self.node_count
    }

    /// The nanoseconds since the search started (read from the clock).
    pub fn elapsed_time(&self) -> (n: u128)
        ensures
            n < MAX_DURATION_NANOS,
    {
        self.time_manager.elapsed()
    }

    /// Nodes per second over the time elapsed (read from the clock; see
    /// `nodes_per_second`).
    pub fn nps(&self) -> (r: u64)
        ensures
            exists|e: u128| e < MAX_DURATION_NANOS && r == #[trigger] nps_spec(self.nodes_spec(), e),
    {
        let e = self.elapsed_time();
        let r = nodes_per_second(self.nodes(), e);
        assert(e < MAX_DURATION_NANOS && r == nps_spec(self.nodes_spec(), e));
        r
    }

    /// The value of the last iteration.
    pub fn score(&self) -> (v: i32)
        ensures
            v == self.eval_spec().0,
    {
        self.eval.0 as i32
    }

    /// The principal variation of the last finished iteration.
    pub fn pv(&self) -> (p: PrincipalVariation)
        ensures
            p == self.pv_spec(),
    {
        self.pv
    }

    /// The deepest iteration: `MAX_PLY` when the clock decides, else the depth asked for.
    pub fn max_depth(&self) -> (d: i32)
        ensures
            self.go_options_spec().uses_time_management() ==> d == MAX_PLY,
            !self.go_options_spec().uses_time_management() ==> d == self.go_options_spec().depth as i32,
    {
        if self.go_options.use_time_management() {
            MAX_PLY as i32
        } else {
            self.go_options.depth as i32
        }
    }

    /// `node_ratio_spec` of the nodes counted and those of the previous iteration.
    pub fn node_ratio(&self, prev_nodes: u64) -> (r: u64)
        requires
            prev_nodes > 0,
        ensures
            r == node_ratio_spec(self.nodes_spec(), prev_nodes),
    {
        let q = self.nodes() / prev_nodes;
        if q < 19 { q + 1 } else { 20 }
    }

    /// One iteration of the deepening at `depth`: recomputes the position's score,
    /// searches the full window from the root, and, unless the clock stopped the search,
    /// keeps the value and principal variation found and sorts the root moves for the
    /// next iteration. Answers whether the iteration finished. The position is left as
    /// it was, but for its recomputed score.
    pub fn iterate(&mut self, pos: &mut Position, depth: i32) -> (finished: bool)
        requires
            old(self).wf(),
            old(pos).wf(),
            1 <= depth,
            depth < MAX_SEARCH_PLY,
        ensures
            final(self).wf(),
            final(pos).wf(),
            final(pos).board_spec() == old(pos).board_spec(),
            final(pos).stack_spec() == old(pos).stack_spec(),
            finished == !final(self).aborted_spec(),
            final(self).ss_len() >= 1,
            final(self).go_options_spec() == old(self).go_options_spec(),
            final(self).time_manager_spec() == old(self).time_manager_spec(),
    {
        pos.init_psq();
        let alpha = Value(VALUE_INFINITE).neg();
        let beta = Value(VALUE_INFINITE);
        let mut pv = PrincipalVariation::new();
        let eval = alphabeta(pos, 0, depth, alpha, beta, &mut pv, self);
        self.eval = eval;
        if self.aborted() {
            return false;
        }
        self.pv = pv;
        self.root_moves.sort();
        true
    }
}

} // verus!
