//! Staged move picking: good captures first, then quiet moves, then bad captures.

use vstd::prelude::*;
use crate::board::ChessMove;
use crate::movegen::movevalue::{MoveValue, MoveValues, moves_wf};
use crate::movegen::{MAX_MOVES, generate_captures, generate_quiet, capture_cands, captures_valued, quiet_moves};
use crate::board::{legal_moves_of, colors_of, side_of};
use crate::position::Position;

verus! {

/// The stages of move picking, in the order they are walked.
#[derive(Debug, Clone, Copy, PartialEq, Eq, Structural)]
pub enum Stage {
    Init,
    PvMove,
    KillerOne,
    KillerTwo,
    CounterMove,
    GenCaptures,
    GoodCaptures,
    GenQuiet,
    Quiet,
    BadCaptures,
}

/// The stage after `s`: each stage leads to the next one, good captures skip to the
/// bad ones when quiet moves are skipped and the side to move is not in check, and
/// the bad captures are the last stage.
pub open spec fn next_stage_spec(s: Stage, is_check: bool, skip_quiets: bool) -> Stage {
    match s {
        Stage::Init => Stage::PvMove,
        Stage::PvMove => Stage::KillerOne,
        Stage::KillerOne => Stage::KillerTwo,
        Stage::KillerTwo => Stage::CounterMove,
        Stage::CounterMove => Stage::GenCaptures,
        Stage::GenCaptures => Stage::GoodCaptures,
        Stage::GoodCaptures => if skip_quiets && !is_check { Stage::BadCaptures } else { Stage::GenQuiet },
        Stage::GenQuiet => Stage::Quiet,
        Stage::Quiet => Stage::BadCaptures,
        Stage::BadCaptures => Stage::BadCaptures,
    }
}

/// How many stages are left after `s`.
pub open spec fn stages_left(s: Stage) -> nat {
    match s {
        Stage::Init => 9,
        Stage::PvMove => 8,
        Stage::KillerOne => 7,
        Stage::KillerTwo => 6,
        Stage::CounterMove => 5,
        Stage::GenCaptures => 4,
        Stage::GoodCaptures => 3,
        Stage::GenQuiet => 2,
        Stage::Quiet => 1,
        Stage::BadCaptures => 0,
    }
}

/// The stages before the captures are generated.
pub open spec fn before_captures(s: Stage) -> bool {
    stages_left(s) >= 4
}

impl Stage {
    /// The first stage.
    pub fn new() -> (s: Stage)
        ensures
            s == Stage::Init,
    {
        Stage::Init
    }

    /// Moves to the next stage (see `next_stage_spec`).
    pub fn next(&mut self, is_check: bool, skip_quiets: bool)
        ensures
            *final(self) == next_stage_spec(*old(self), is_check, skip_quiets),
    {
        match *self {
            Stage::Init => *self = Stage::PvMove,
            Stage::PvMove => *self = Stage::KillerOne,
            Stage::KillerOne => *self = Stage::KillerTwo,
            Stage::KillerTwo => *self = Stage::CounterMove,
            Stage::CounterMove => *self = Stage::GenCaptures,
            Stage::GenCaptures => *self = Stage::GoodCaptures,
            Stage::GoodCaptures => {
                if skip_quiets && !is_check {
                    *self = Stage::BadCaptures;
                } else {
                    *self = Stage::GenQuiet;
                }
            },
            Stage::GenQuiet => *self = Stage::Quiet,
            Stage::Quiet => *self = Stage::BadCaptures,
            Stage::BadCaptures => {},
        }
    }
}

/// The picker lists, before its quiet moves, the captures of board `b` (see
/// `generate_captures`), each valued, in some order; after them, no more moves than
/// there are quiet legal moves.
#[verifier::opaque]
pub open spec fn captures_listed(p: MovePicker, b: cozy_chess::Board) -> bool {
    let them = colors_of(b, side_of(b) ^ 1);
    let c = capture_cands(b, legal_moves_of(b), them);
    &&& p.start_quiet_spec() == c.len()
    &&& captures_valued(p.moves_spec()@.take(c.len() as int), c)
    &&& p.moves_spec()@.len() - p.start_quiet_spec() <= quiet_moves(legal_moves_of(b), them).len()
    &&& p.quiets_added_spec() ==> {
        let q = quiet_moves(legal_moves_of(b), them).len();
        let fitted = if q <= MAX_MOVES { q as int } else { MAX_MOVES as int };
        p.moves_spec()@.len() - p.start_quiet_spec() == (if c.len() + fitted <= MAX_MOVES { fitted } else { 0 })
    }
}

/// Whether the captures of a board are listed depends on the list and where the quiet
/// moves start only.
proof fn lemma_captures_listed_same(p: MovePicker, q: MovePicker, b: cozy_chess::Board)
    requires
        p.moves_spec()@ == q.moves_spec()@,
        p.start_quiet_spec() == q.start_quiet_spec(),
        p.quiets_added_spec() == q.quiets_added_spec(),
    ensures
        captures_listed(p, b) == captures_listed(q, b),
{
    reveal(captures_listed);
}

/// A picker that has generated its quiet moves, is done and has handed out nothing found
/// neither a capture nor a quiet move on board `b`.
pub proof fn lemma_nothing_handed(p: MovePicker, b: cozy_chess::Board)
    requires
        p.wf(),
        p.done(),
        p.handed_spec().len() == 0,
        captures_listed(p, b),
        p.quiets_added_spec(),
    ensures
        capture_cands(b, legal_moves_of(b), colors_of(b, side_of(b) ^ 1)).len() == 0,
        quiet_moves(legal_moves_of(b), colors_of(b, side_of(b) ^ 1)).len() == 0,
{
    reveal(captures_listed);
    p.lemma_handed_once();
    if p.listed().len() > 0 {
        assert(p.handed_spec().contains(0));
    }
    assert(p.moves_spec()@.len() == 0);
}

/// A picker that has not generated its captures has handed out nothing.
pub proof fn lemma_fresh_handed(p: MovePicker)
    requires
        p.wf(),
        before_captures(p.stage_spec()),
    ensures
        p.handed_spec().len() == 0,
{
}

/// A board with no legal move has nothing listed.
pub proof fn lemma_nothing_listed(p: MovePicker, b: cozy_chess::Board)
    requires
        captures_listed(p, b),
        legal_moves_of(b).len() == 0,
    ensures
        p.moves_spec()@.len() == 0,
        p.listed().len() == 0,
{
    reveal(captures_listed);
    let them = colors_of(b, side_of(b) ^ 1);
    assert(capture_cands(b, legal_moves_of(b), them).len() == 0);
    assert(quiet_moves(legal_moves_of(b), them).len() == 0);
}

/// A range grows at its end by its end.
proof fn lemma_range_push(a: int, x: int)
    requires
        a <= x,
    ensures
        range_seq(a, x).push(x) == range_seq(a, x + 1),
{
    assert(range_seq(a, x).push(x) =~= range_seq(a, x + 1));
}

/// Pushing onto a concatenation pushes onto its last part.
proof fn lemma_concat_push(p: Seq<int>, q: Seq<int>, v: int)
    ensures
        (p + q).push(v) == p + q.push(v),
{
    assert((p + q).push(v) =~= p + q.push(v));
}

/// An empty range adds nothing.
proof fn lemma_concat_empty(p: Seq<int>, y: int)
    ensures
        p + range_seq(y, y) == p,
{
    assert(p + range_seq(y, y) =~= p);
}

/// The integers `a`, `a + 1`, ..., `b - 1`.
pub open spec fn range_seq(a: int, b: int) -> Seq<int> {
    Seq::new((b - a) as nat, |i: int| a + i)
}

/// The picker: its stage, the list of moves (captures first, quiet moves after
/// them), where the quiet moves start and where the bad captures start, and (as a
/// record for the proofs) the list positions of the moves handed out so far.
pub struct MovePicker {
    stage: Stage,
    move_values: MoveValues<MAX_MOVES>,
    start_bad_captures: usize,
    start_quiet: usize,
    handed: Ghost<Seq<int>>,
    quiets_added: Ghost<bool>,
}

impl MovePicker {
    /// The stage.
    pub closed spec fn stage_spec(&self) -> Stage {
        self.stage
    }

    /// The moves generated so far: captures, then quiet moves.
    pub closed spec fn moves_spec(&self) -> MoveValues<MAX_MOVES> {
        self.move_values
    }

    /// Where the quiet moves start (the number of captures).
    pub closed spec fn start_quiet_spec(&self) -> int {
        self.start_quiet as int
    }

    /// The cursor into the list of moves.
    pub closed spec fn cursor(&self) -> int {
        self.move_values.idx_spec() as int
    }

    /// The quiet moves have been generated (whether or not they fitted in the list).
    pub closed spec fn quiets_added_spec(&self) -> bool {
        self.quiets_added@
    }

    /// The list positions of the moves handed out so far, in order.
    pub closed spec fn handed_spec(&self) -> Seq<int> {
        self.handed@
    }

    /// The moves listed so far (captures, then quiet moves).
    pub closed spec fn listed(&self) -> Seq<ChessMove> {
        self.move_values@.map_values(|v: MoveValue| v.move_spec())
    }

    /// The moves handed out so far, in order.
    pub open spec fn handed_moves(&self) -> Seq<ChessMove> {
        self.handed_spec().map_values(|k: int| self.listed()[k])
    }

    /// Every move has been handed out: the picker only answers `None` from now on.
    pub closed spec fn done(&self) -> bool {
        self.stage == Stage::BadCaptures && self.move_values.idx_spec() >= self.start_quiet
    }

    /// The picker's bookkeeping is consistent with its stage.
    pub closed spec fn wf(&self) -> bool {
        &&& self.move_values.wf()
        &&& moves_wf(self.move_values@)
        &&& self.move_values.idx_spec() <= self.move_values@.len() <= MAX_MOVES
        &&& self.start_bad_captures <= self.start_quiet <= self.move_values@.len()
        &&& before_captures(self.stage) ==> self.move_values@.len() == 0 && self.move_values.idx_spec() == 0
        &&& self.stage == Stage::GoodCaptures ==> self.move_values@.len() == self.start_quiet
            && self.move_values.idx_spec() <= self.start_quiet
        &&& self.stage == Stage::GenQuiet ==> self.move_values@.len() == self.start_quiet
        &&& self.stage == Stage::Quiet ==> self.move_values.idx_spec() >= self.start_quiet
        &&& before_captures(self.stage) ==> self.handed@ == Seq::<int>::empty()
        &&& self.stage == Stage::GoodCaptures ==> self.start_bad_captures == self.start_quiet && self.handed@
            == range_seq(0, self.move_values.idx_spec() as int)
        &&& self.stage == Stage::GenQuiet ==> self.handed@ == range_seq(0, self.start_bad_captures as int)
        &&& self.stage == Stage::Quiet ==> self.handed@ == range_seq(0, self.start_bad_captures as int) + range_seq(
            self.start_quiet as int, self.move_values.idx_spec() as int)
        &&& self.stage == Stage::BadCaptures ==> {
            &&& self.start_bad_captures <= self.move_values.idx_spec() <= self.start_quiet
            &&& self.handed@ == range_seq(0, self.start_bad_captures as int) + range_seq(self.start_quiet as int,
                self.move_values@.len() as int) + range_seq(self.start_bad_captures as int,
                self.move_values.idx_spec() as int)
        }
    }

    /// A picker at its first stage, with no moves.
    pub fn new() -> (p: MovePicker)
        ensures
            p.wf(),
            p.stage_spec() == Stage::Init,
            p.moves_spec()@.len() == 0,
            p.cursor() == 0,
            p.handed_spec().len() == 0,
    {
        MovePicker {
            stage: Stage::Init,
            move_values: MoveValues::<MAX_MOVES>::new(),
            start_bad_captures: 0,
            start_quiet: 0,
            handed: Ghost(Seq::empty()),
            quiets_added: Ghost(false),
        }
    }

    /// The stage.
    pub fn stage(&self) -> (s: Stage)
        ensures
            s == self.stage_spec(),
    {
        self.stage
    }

    /// The next move, walking the stages: captures of value at least zero in order of
    /// value, then the quiet moves, then the captures from where the first one of
    /// negative value was met up to the quiet moves. A move returned is the list entry
    /// just passed by the cursor: in the good-capture stage a capture of value at least
    /// zero, in the quiet stage a quiet move, in the bad-capture stage a capture. `None`
    /// once the bad captures are exhausted; the picker then stays in that stage.
    #[verifier::rlimit(100)]
    #[verifier::spinoff_prover]
    pub fn next_move(&mut self, pos: &Position, skip_quiets: bool) -> (r: Option<ChessMove>)
        requires
            old(self).wf(),
        ensures
            final(self).wf(),
            0 <= final(self).cursor() <= MAX_MOVES,
            r is Some ==> stages_left(final(self).stage_spec()) < stages_left(old(self).stage_spec()) || (
            final(self).stage_spec() == old(self).stage_spec() && final(self).cursor() > old(self).cursor()),
            r matches Some(m) ==> m.wf(),
            r is None ==> final(self).stage_spec() == Stage::BadCaptures,
            r is Some ==> final(self).handed_spec() == old(self).handed_spec().push(final(self).cursor() - 1),
            r is None ==> final(self).handed_spec() == old(self).handed_spec() && final(self).done(),
            old(self).done() ==> r is None && *final(self) == *old(self),
            old(self).listed().len() <= final(self).listed().len(),
            old(self).listed() == final(self).listed().take(old(self).listed().len() as int),
            before_captures(old(self).stage_spec()) && !before_captures(final(self).stage_spec()) ==> captures_listed(
                *final(self), pos.board_spec()),
            !skip_quiets && before_captures(old(self).stage_spec()) && r is None ==> final(self).quiets_added_spec(),
            r matches Some(m) ==> {
                let k = final(self).moves_spec().idx_spec() - 1;
                let vs = final(self).moves_spec()@;
                &&& 0 <= k < vs.len()
                &&& m == vs[k].move_spec()
                &&& final(self).stage_spec() == Stage::GoodCaptures ==> k < final(self).start_quiet_spec()
                    && vs[k].value_spec() >= 0
                &&& final(self).stage_spec() == Stage::Quiet ==> k >= final(self).start_quiet_spec()
                &&& final(self).stage_spec() == Stage::BadCaptures ==> k < final(self).start_quiet_spec()
                &&& (final(self).stage_spec() == Stage::GoodCaptures || final(self).stage_spec() == Stage::Quiet
                    || final(self).stage_spec() == Stage::BadCaptures)
            },
    {
        loop
            invariant
                self.wf(),
                old(self).wf(),
                stages_left(self.stage) < stages_left(old(self).stage) || (self.stage == old(self).stage
                    && self.move_values.idx_spec() >= old(self).move_values.idx_spec()),
                self.handed@ == old(self).handed@,
                old(self).move_values@.len() <= self.move_values@.len(),
                old(self).move_values@ == self.move_values@.take(old(self).move_values@.len() as int),
                old(self).done() ==> *self == *old(self),
                before_captures(old(self).stage) && !before_captures(self.stage) ==> captures_listed(*self,
                    pos.board_spec()),
                !skip_quiets && before_captures(old(self).stage) && stages_left(self.stage) <= 1 ==> self.quiets_added@,
            ensures
                self.wf(),
                self.stage == Stage::BadCaptures,
                self.done(),
                self.handed@ == old(self).handed@,
                old(self).move_values@.len() <= self.move_values@.len(),
                old(self).move_values@ == self.move_values@.take(old(self).move_values@.len() as int),
                old(self).done() ==> *self == *old(self),
                before_captures(old(self).stage) && !before_captures(self.stage) ==> captures_listed(*self,
                    pos.board_spec()),
                !skip_quiets && before_captures(old(self).stage) && stages_left(self.stage) <= 1 ==> self.quiets_added@,
            decreases stages_left(self.stage),
        {
            let ghost loop_start = *self;
            match self.stage {
                Stage::Init => {
                    self.next_stage(pos.is_check(), skip_quiets);
                },
                Stage::PvMove => {
                    self.next_stage(pos.is_check(), skip_quiets);
                },
                Stage::KillerOne => {
                    self.next_stage(pos.is_check(), skip_quiets);
                },
                Stage::KillerTwo => {
                    self.next_stage(pos.is_check(), skip_quiets);
                },
                Stage::CounterMove => {
                    self.next_stage(pos.is_check(), skip_quiets);
                },
                Stage::GenCaptures => {
                    self.move_values = generate_captures(pos);
                    proof {
                        self.quiets_added = Ghost(false);
                    }
                    self.start_quiet = self.move_values.len();
                    assert(self.move_values@.take(self.move_values@.len() as int) =~= self.move_values@);
                    proof {
                        reveal(captures_listed);
                    }
                    self.start_bad_captures = self.start_quiet;
                    self.next_stage(pos.is_check(), skip_quiets);
                    assert(self.handed@ =~= range_seq(0, 0));
                },
                Stage::GoodCaptures => {
                    match self.move_values.next() {
                        None => {
                            self.next_stage(pos.is_check(), skip_quiets);
                            proof {
                                let x = self.start_quiet as int;
                                lemma_concat_empty(range_seq(0, x), x);
                                lemma_concat_empty(range_seq(0, x) + range_seq(x, x), x);
                            }
                        },
                        Some(move_value) => {
                            if move_value.value().0 >= 0 {
                                let ghost k = self.move_values.idx_spec() - 1;
                                proof {
                                    lemma_range_push(0, k);
                                    self.handed@ = self.handed@.push(k);
                                }
                                proof {
                                lemma_captures_listed_same(loop_start, *self, pos.board_spec());
                            }
                            return Some(move_value.chess_move());
                            } else {
                                self.decr_current(1);
                                self.start_bad_captures = self.current();
                                self.next_stage(pos.is_check(), skip_quiets);
                                proof {
                                    let x = self.start_bad_captures as int;
                                    let y = self.start_quiet as int;
                                    lemma_concat_empty(range_seq(0, x), y);
                                    lemma_concat_empty(range_seq(0, x) + range_seq(y, y), x);
                                }
                            }
                        },
                    }
                },
                Stage::GenQuiet => {
                    let ghost before = *self;
                    let quiet = generate_quiet(pos);
                    if self.move_values.len() + quiet.len() <= MAX_MOVES {
                        self.move_values.extend(&quiet);
                    }
                    proof {
                        self.quiets_added = Ghost(true);
                    }
                    self.set_current(self.start_quiet);
                    self.next_stage(pos.is_check(), skip_quiets);
                    proof {
                        reveal(captures_listed);
                        if captures_listed(before, pos.board_spec()) {
                            assert(self.move_values@.take(self.start_quiet as int) =~= before.move_values@.take(
                                self.start_quiet as int));
                            assert(self.move_values@.len() - self.start_quiet <= quiet.view().len());
                        }
                    }
                    proof {
                        lemma_concat_empty(range_seq(0, self.start_bad_captures as int), self.start_quiet as int);
                    }
                },
                Stage::Quiet => {
                    match self.move_values.next() {
                        None => {
                            self.set_current(self.start_bad_captures);
                            self.next_stage(pos.is_check(), skip_quiets);
                            proof {
                                lemma_concat_empty(range_seq(0, self.start_bad_captures as int) + range_seq(
                                    self.start_quiet as int, self.move_values@.len() as int),
                                    self.start_bad_captures as int);
                            }
                        },
                        Some(move_value) => {
                            let ghost k = self.move_values.idx_spec() - 1;
                            proof {
                                lemma_concat_push(range_seq(0, self.start_bad_captures as int), range_seq(
                                    self.start_quiet as int, k), k);
                                lemma_range_push(self.start_quiet as int, k);
                                self.handed@ = self.handed@.push(k);
                            }
                            proof {
                                lemma_captures_listed_same(loop_start, *self, pos.board_spec());
                            }
                            return Some(move_value.chess_move());
                        },
                    }
                },
                Stage::BadCaptures => {
                    if self.current() >= self.start_quiet {
                        break;
                    }
                    match self.move_values.next() {
                        None => break,
                        Some(move_value) => {
                            let ghost k = self.move_values.idx_spec() - 1;
                            proof {
                                lemma_concat_push(range_seq(0, self.start_bad_captures as int) + range_seq(
                                    self.start_quiet as int, self.move_values@.len() as int), range_seq(
                                    self.start_bad_captures as int, k), k);
                                lemma_range_push(self.start_bad_captures as int, k);
                                self.handed@ = self.handed@.push(k);
                            }
                            proof {
                                lemma_captures_listed_same(loop_start, *self, pos.board_spec());
                            }
                            return Some(move_value.chess_move());
                        },
                    }
                },
            }
            proof {
                if loop_start.move_values@ == self.move_values@ && loop_start.start_quiet == self.start_quiet
                    && loop_start.quiets_added == self.quiets_added {
                    lemma_captures_listed_same(loop_start, *self, pos.board_spec());
                }
            }
        }
        None
    }

    /// Law: no list entry is handed out twice, every entry handed out is a listed move,
    /// and once the picker is done every listed move has been handed out.
    pub proof fn lemma_handed_once(&self)
        requires
            self.wf(),
        ensures
            forall|i: int, j: int| 0 <= i < j < self.handed_spec().len() ==> self.handed_spec()[i]
                != self.handed_spec()[j],
            forall|i: int| 0 <= i < self.handed_spec().len() ==> 0 <= #[trigger] self.handed_spec()[i]
                < self.listed().len(),
            self.done() ==> forall|k: int| 0 <= k < self.listed().len() ==> self.handed_spec().contains(k),
    {
        let h = self.handed@;
        let sb = self.start_bad_captures as int;
        let sq = self.start_quiet as int;
        let len = self.move_values@.len() as int;
        let idx = self.move_values.idx_spec() as int;
        if self.stage == Stage::BadCaptures && idx >= sq {
            assert forall|k: int| 0 <= k < len implies h.contains(k) by {
                if k < sb {
                    assert(h[k] == k);
                } else if k >= sq {
                    assert(h[sb + (k - sq)] == k);
                } else {
                    assert(h[sb + (len - sq) + (k - sb)] == k);
                }
            }
        }
    }

    fn next_stage(&mut self, is_check: bool, skip_quiets: bool)
        ensures
            final(self).stage == next_stage_spec(old(self).stage, is_check, skip_quiets),
            final(self).move_values == old(self).move_values,
            final(self).start_quiet == old(self).start_quiet,
            final(self).start_bad_captures == old(self).start_bad_captures,
            final(self).handed == old(self).handed,
            final(self).quiets_added == old(self).quiets_added,
    {
        self.stage.next(is_check, skip_quiets);
    }

    fn current(&self) -> (i: usize)
        ensures
            i == self.move_values.idx_spec(),
    {
        self.move_values.idx()
    }

    fn set_current(&mut self, idx: usize)
        ensures
            final(self).move_values.idx_spec() == idx,
            final(self).move_values@ == old(self).move_values@,
            final(self).move_values.wf() == old(self).move_values.wf(),
            final(self).stage == old(self).stage,
            final(self).start_quiet == old(self).start_quiet,
            final(self).start_bad_captures == old(self).start_bad_captures,
            final(self).handed == old(self).handed,
            final(self).quiets_added == old(self).quiets_added,
    {
        self.move_values.set_idx(idx);
    }

    fn decr_current(&mut self, n: usize)
        requires
            old(self).move_values.idx_spec() >= n,
        ensures
            final(self).move_values.idx_spec() == old(self).move_values.idx_spec() - n,
            final(self).move_values@ == old(self).move_values@,
            final(self).move_values.wf() == old(self).move_values.wf(),
            final(self).stage == old(self).stage,
            final(self).start_quiet == old(self).start_quiet,
            final(self).start_bad_captures == old(self).start_bad_captures,
            final(self).handed == old(self).handed,
            final(self).quiets_added == old(self).quiets_added,
    {
        self.move_values.decr_idx(n);
    }
}

} // verus!
