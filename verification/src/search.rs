//! The search: alpha-beta with null-move pruning and a quiescence search, both
//! fail-hard: a value at or above `beta` is reported as `beta`.

use vstd::prelude::*;
use crate::evaluate::score::{Value, VALUE_DRAW, mated_in_spec};
use crate::movegen::movepick::{MovePicker, Stage, stages_left, lemma_nothing_listed, lemma_nothing_handed,
    lemma_fresh_handed};
use crate::board::{checkers_of, legal_moves_of, colors_of, side_of};
use crate::movegen::{capture_cands, quiet_moves};
use crate::evaluate::score::{wrap16, lemma_wrap16_small};
use crate::evaluate::evaluation_of;
use crate::movegen::MAX_MOVES;
use crate::position::Position;
use crate::search::pv::{PrincipalVariation, line_bounded};
use crate::search::thread::SearchThread;

pub mod perft;
pub mod pv;
pub mod rootmoves;
pub mod thread;

verus! {

/// Neither a capture nor a quiet move is found on board `b` (see `capture_cands` and
/// `quiet_moves`): the move picker has nothing to offer.
pub open spec fn no_moves_found(b: cozy_chess::Board) -> bool {
    let them = colors_of(b, side_of(b) ^ 1);
    &&& capture_cands(b, legal_moves_of(b), them).len() == 0
    &&& quiet_moves(legal_moves_of(b), them).len() == 0
}

/// A negated value reaching `beta` after the wrapped negation reaches it unwrapped too.
proof fn lemma_neg_reaches(child: i16, beta: i16)
    requires
        wrap16(-child) >= beta,
    ensures
        -child >= beta,
{
    lemma_wrap16_small(-child);
}

/// The deepest ply a search reaches; the quiescence search stands pat there.
pub const MAX_SEARCH_PLY: u32 = 250;

/// Fail-hard answer for the window `(alpha, beta)`: `beta` itself, or a value at least
/// `alpha` that, when the window is not empty, lies below `beta`.
pub open spec fn fail_hard(r: i16, alpha: i16, beta: i16) -> bool {
    r == beta || (alpha <= r && (alpha < beta ==> r < beta))
}

/// The position is as it was: board, saved boards, running score, saved scores and tables.
pub open spec fn restored(after: Position, before: Position) -> bool {
    &&& after.wf()
    &&& after.board_spec() == before.board_spec()
    &&& after.stack_spec() == before.stack_spec()
    &&& after.evaluator_spec().psq_spec() == before.evaluator_spec().psq_spec()
    &&& after.evaluator_spec().stack() == before.evaluator_spec().stack()
    &&& after.evaluator_spec().tables() == before.evaluator_spec().tables()
}

/// What a search call may change of the thread: its node counts grow, it keeps its
/// options, clock and well-formedness, and calls below the root leave the root moves.
pub open spec fn thread_kept(after: SearchThread, before: SearchThread, ply: u32) -> bool {
    &&& after.wf()
    &&& after.ss_len() >= before.ss_len()
    &&& after.ss_len() >= ply + 1
    &&& after.go_options_spec() == before.go_options_spec()
    &&& after.time_manager_spec() == before.time_manager_spec()
    &&& ply > 0 ==> after.root_moves_spec() == before.root_moves_spec()
}

/// Alpha-beta search of `depth` plies at `ply` plies from the root, with window
/// `(alpha, beta)`; at depth 0 or less the quiescence search answers. A null move is
/// tried first (cut off when it scores at least `beta`). At the root, from depth 2 on,
/// the moves come from the thread's root moves, best first; elsewhere from a move
/// picker. A move scoring at least `beta` cuts off with `beta`; one raising `alpha`
/// becomes the principal variation. At the root every move's value is recorded. With
/// no move: 0 (stalemate) or the value of being mated at `ply` (checkmate). The position
/// is left as it was.
pub fn alphabeta(
    pos: &mut Position,
    ply: u32,
    depth: i32,
    alpha: Value,
    beta: Value,
    pv: &mut PrincipalVariation,
    thread: &mut SearchThread,
) -> (r: Value)
    requires
        old(pos).wf(),
        old(thread).wf(),
        ply <= old(thread).ss_len(),
        ply <= MAX_SEARCH_PLY,
        depth > 0 ==> ply + depth <= MAX_SEARCH_PLY,
        depth >= -1_000_000,
        line_bounded(old(pv).moves@, MAX_SEARCH_PLY - ply),
    ensures
        restored(*final(pos), *old(pos)),
        thread_kept(*final(thread), *old(thread), ply),
        line_bounded(final(pv).moves@, MAX_SEARCH_PLY - ply),
        fail_hard(r.0, alpha.0, beta.0) || r.0 == (if checkers_of(old(pos).board_spec()) == 0 {
            VALUE_DRAW as int
        } else {
            mated_in_spec(ply as int)
        }),
        depth > 0 && !(ply == 0 && depth > 1) && legal_moves_of(old(pos).board_spec()).len() == 0 ==> r == beta
            || r.0 == (if checkers_of(old(pos).board_spec()) == 0 {
            VALUE_DRAW as int
        } else {
            mated_in_spec(ply as int)
        }),
        final(thread).log_spec().len() > old(thread).log_spec().len(),
        final(thread).log_spec().last().0 == ply,
        final(thread).log_spec().last().1 == beta.0,
        final(thread).log_spec().last().2 == r.0,
        depth > 0 && !(ply == 0 && depth > 1) && alpha.0 < beta.0 && r.0 == beta.0 ==> final(thread).log_spec().last().3
            >= 0 || no_moves_found(old(pos).board_spec()),
        depth > 0 && ply == 0 && depth > 1 && alpha.0 < beta.0 && r.0 == beta.0 ==> final(thread).log_spec().last().3
            >= 0 || r.0 == (if checkers_of(old(pos).board_spec()) == 0 {
            VALUE_DRAW as int
        } else {
            mated_in_spec(ply as int)
        }),
    decreases depth,
{
    let ghost alpha0 = alpha.0;
    let mut alpha = alpha;
    let mut child_pv = PrincipalVariation::new();
    let mut any_legal = false;
    let root_node = ply == 0;

    if depth <= 0 {
        let r = qsearch(pos, ply, depth, alpha, beta, &mut child_pv, thread);
        thread.record_node(Ghost((ply as int, beta.0 as int, r.0 as int, -1)));
        return r;
    }

    let ghost pos0 = *pos;
    let ghost thread0 = *thread;

    thread.incr_node_count(ply);

    // Null move pruning.
    let played_null = pos.do_null_move();
    if played_null {
        let child = alphabeta(pos, ply + 1, depth - 1, beta.neg(), beta.neg().add(Value(1)), &mut child_pv, thread);
        let ghost k = thread.log_spec().len() - 1;
        let eval = child.neg();
        pos.undo_move();
        proof {
            assert(pos0.stack_spec().push(pos0.board_spec()).drop_last() =~= pos0.stack_spec());
            assert(pos0.evaluator_spec().stack().push(pos0.evaluator_spec().psq_spec()).drop_last()
                =~= pos0.evaluator_spec().stack());
        }
        if eval.0 >= beta.0 {
            proof {
                lemma_neg_reaches(child.0, beta.0);
            }
            thread.record_node(Ghost((ply as int, beta.0 as int, beta.0 as int, k)));
            return beta;
        }
    }

    let mut mpick = MovePicker::new();
    let use_root = root_node && depth > 1;
    loop
        invariant_except_break
            !use_root && !any_legal ==> mpick.stage_spec() == Stage::Init,
        invariant
            pos0 == *old(pos),
            thread0 == *old(thread),
            restored(*pos, pos0),
            thread_kept(*thread, thread0, ply),
            mpick.wf(),
            0 <= mpick.cursor() <= MAX_MOVES,
            use_root == (ply == 0 && depth > 1),
            root_node == (ply == 0),
            use_root ==> thread.root_moves_spec().values().idx_spec() <= MAX_MOVES,
            ply <= MAX_SEARCH_PLY,
            depth > 0,
            ply + depth <= MAX_SEARCH_PLY,
            line_bounded(pv.moves@, MAX_SEARCH_PLY - ply),
            line_bounded(child_pv.moves@, MAX_SEARCH_PLY - ply - 1),
            alpha.0 >= alpha0,
            alpha0 < beta.0 ==> alpha.0 < beta.0,
            alpha0 >= beta.0 ==> alpha.0 == alpha0,
            !use_root && legal_moves_of(pos0.board_spec()).len() == 0 ==> !any_legal,
            thread.log_spec().len() >= thread0.log_spec().len(),
        ensures
            restored(*pos, pos0),
            thread_kept(*thread, thread0, ply),
            line_bounded(pv.moves@, MAX_SEARCH_PLY - ply),
            alpha.0 >= alpha0,
            alpha0 < beta.0 ==> alpha.0 < beta.0,
            alpha0 >= beta.0 ==> alpha.0 == alpha0,
            !use_root && legal_moves_of(pos0.board_spec()).len() == 0 ==> !any_legal,
            !use_root && !any_legal ==> no_moves_found(pos0.board_spec()),
            thread.log_spec().len() >= thread0.log_spec().len(),
        decreases
            (if use_root { 0 } else { stages_left(mpick.stage_spec()) as int }),
            (if use_root { MAX_MOVES - thread.root_moves_spec().values().idx_spec() } else {
                MAX_MOVES - mpick.cursor()
            }),
    {
        let ghost idx_before = thread.root_moves_spec().values().idx_spec();
        let ghost stage_before = mpick.stage_spec();
        let ghost cursor_before = mpick.cursor();
        let ghost mp0 = mpick;
        let mv_option = if use_root {
            thread.next_root_move()
        } else {
            mpick.next_move(pos, false)
        };
        let mv = match mv_option {
            Some(m) => m,
            None => {
                proof {
                    if !use_root && !any_legal {
                        lemma_fresh_handed(mp0);
                        lemma_nothing_handed(mpick, pos0.board_spec());
                    }
                }
                break;
            },
        };
        proof {
            if !use_root && !any_legal && legal_moves_of(pos0.board_spec()).len() == 0 {
                lemma_nothing_listed(mpick, pos0.board_spec());
                mpick.lemma_handed_once();
                assert(mpick.handed_spec()[0] < mpick.listed().len());
            }
            if use_root {
                let vs = thread.root_moves_spec().values()@;
                assert(vs[idx_before as int].move_spec().wf());
                thread.root_moves_spec().values().lemma_len_bound();
            }
        }
        any_legal = true;

        let ghost pos1 = *pos;
        pos.do_move(mv);
        let child = alphabeta(pos, ply + 1, depth - 1, beta.neg(), alpha.neg(), &mut child_pv, thread);
        let ghost k = thread.log_spec().len() - 1;
        let eval = child.neg();
        pos.undo_move();
        proof {
            assert(pos1.stack_spec().push(pos1.board_spec()).drop_last() =~= pos1.stack_spec());
            assert(pos1.evaluator_spec().stack().push(pos1.evaluator_spec().psq_spec()).drop_last()
                =~= pos1.evaluator_spec().stack());
        }

        if eval.0 >= beta.0 {
            proof {
                lemma_neg_reaches(child.0, beta.0);
            }
            thread.record_node(Ghost((ply as int, beta.0 as int, beta.0 as int, k)));
            return beta;
        }
        if eval.0 > alpha.0 {
            alpha = eval;
            let ghost old_pv = pv.moves@;
            assert(child_pv.moves@[MAX_SEARCH_PLY - ply - 1] is None);
            pv.update(&mv, &child_pv);
            proof {
                let k = MAX_SEARCH_PLY - ply - 1;
                let n = choose|n: int| #![trigger crate::search::pv::is_line_len(child_pv.moves@, n)]
                    crate::search::pv::is_line_len(child_pv.moves@, n)
                    && (forall|i: int| 0 <= i < n ==> #[trigger] pv.moves@[i + 1] == child_pv.moves@[i])
                    && (forall|i: int| n + 1 <= i < MAX_MOVES ==> #[trigger] pv.moves@[i] == old_pv[i]);
                if n > k {
                    assert(child_pv.moves@[k] is Some);
                }
                assert forall|i: int| k + 1 <= i < pv.moves@.len() implies (#[trigger] pv.moves@[i]) is None by {
                    assert(pv.moves@[i] == old_pv[i]);
                }
            }
        }

        if root_node {
            thread.update_root_moves(mv, alpha, depth);
        }
    }

    if !any_legal {
        let r = if !pos.is_check() {
            Value(VALUE_DRAW)
        } else {
            Value::mated_in(ply)
        };
        thread.record_node(Ghost((ply as int, beta.0 as int, r.0 as int, -1)));
        return r;
    }
    thread.record_node(Ghost((ply as int, beta.0 as int, alpha.0 as int, -1)));
    alpha
}

/// Quiescence search at `ply` plies from the root with window `(alpha, beta)`: the
/// position's own evaluation stands pat (cutting off at `beta`, raising `alpha`), then
/// the captures (all moves when in check) are searched in turn, fail-hard. In check with
/// no move: the value of being mated at `ply`. At `MAX_SEARCH_PLY` only the evaluation
/// counts. The position is left as it was.
pub fn qsearch(
    pos: &mut Position,
    ply: u32,
    depth: i32,
    alpha: Value,
    beta: Value,
    pv: &mut PrincipalVariation,
    thread: &mut SearchThread,
) -> (r: Value)
    requires
        old(pos).wf(),
        old(thread).wf(),
        ply <= old(thread).ss_len(),
        ply <= MAX_SEARCH_PLY,
        depth + 3 * ply >= -1_000_000,
        line_bounded(old(pv).moves@, MAX_SEARCH_PLY - ply),
    ensures
        restored(*final(pos), *old(pos)),
        thread_kept(*final(thread), *old(thread), ply),
        line_bounded(final(pv).moves@, MAX_SEARCH_PLY - ply),
        fail_hard(r.0, alpha.0, beta.0) || (r.0 == mated_in_spec(ply as int) && checkers_of(old(pos).board_spec())
            != 0),
        final(thread).log_spec() == old(thread).log_spec(),
        ({
            let e = evaluation_of(old(pos).evaluator_spec().psq_spec(), old(pos).board_spec());
            &&& e >= beta.0 ==> r == beta && *final(pv) == *old(pv)
            &&& r.0 == beta.0 || r.0 >= e || (r.0 == mated_in_spec(ply as int) && checkers_of(old(pos).board_spec())
                != 0)
        }),
    decreases MAX_SEARCH_PLY - ply,
{
    let ghost alpha0 = alpha.0;
    let mut alpha = alpha;
    let mut child_pv = PrincipalVariation::new();
    let mut any_move = false;
    let ghost pos0 = *pos;
    let ghost thread0 = *thread;

    thread.incr_node_count(ply);

    let eval = pos.evaluate();
    let ghost e = eval.0;
    if eval.0 >= beta.0 {
        return beta;
    }
    if eval.0 > alpha.0 {
        alpha = eval;
    }
    if ply >= MAX_SEARCH_PLY {
        return alpha;
    }

    let mut mpick = MovePicker::new();
    loop
        invariant
            pos0 == *old(pos),
            thread0 == *old(thread),
            restored(*pos, pos0),
            thread_kept(*thread, thread0, ply),
            mpick.wf(),
            0 <= mpick.cursor() <= MAX_MOVES,
            ply < MAX_SEARCH_PLY,
            depth + 3 * ply >= -1_000_000,
            e == evaluation_of(pos0.evaluator_spec().psq_spec(), pos0.board_spec()),
            e < beta.0,
            alpha.0 >= e,
            thread.log_spec() == thread0.log_spec(),
            line_bounded(pv.moves@, MAX_SEARCH_PLY - ply),
            line_bounded(child_pv.moves@, MAX_SEARCH_PLY - ply - 1),
            alpha.0 >= alpha0,
            alpha0 < beta.0 ==> alpha.0 < beta.0,
            alpha0 >= beta.0 ==> alpha.0 == alpha0,
        ensures
            restored(*pos, pos0),
            thread_kept(*thread, thread0, ply),
            line_bounded(pv.moves@, MAX_SEARCH_PLY - ply),
            alpha.0 >= alpha0,
            alpha0 < beta.0 ==> alpha.0 < beta.0,
            alpha0 >= beta.0 ==> alpha.0 == alpha0,
            alpha.0 >= e,
            thread.log_spec() == thread0.log_spec(),
        decreases stages_left(mpick.stage_spec()), MAX_MOVES - mpick.cursor(),
    {
        let mv = match mpick.next_move(pos, true) {
            Some(m) => m,
            None => break,
        };
        any_move = true;

        let ghost pos1 = *pos;
        pos.do_move(mv);
        let child = qsearch(pos, ply + 1, depth - 3, beta.neg(), alpha.neg(), &mut child_pv, thread);
        let eval = child.neg();
        pos.undo_move();
        proof {
            assert(pos1.stack_spec().push(pos1.board_spec()).drop_last() =~= pos1.stack_spec());
            assert(pos1.evaluator_spec().stack().push(pos1.evaluator_spec().psq_spec()).drop_last()
                =~= pos1.evaluator_spec().stack());
        }

        if eval.0 >= beta.0 {
            return beta;
        }
        if eval.0 > alpha.0 {
            alpha = eval;
            let ghost old_pv = pv.moves@;
            assert(child_pv.moves@[MAX_SEARCH_PLY - ply - 1] is None);
            pv.update(&mv, &child_pv);
            proof {
                let k = MAX_SEARCH_PLY - ply - 1;
                let n = choose|n: int| #![trigger crate::search::pv::is_line_len(child_pv.moves@, n)]
                    crate::search::pv::is_line_len(child_pv.moves@, n)
                    && (forall|i: int| 0 <= i < n ==> #[trigger] pv.moves@[i + 1] == child_pv.moves@[i])
                    && (forall|i: int| n + 1 <= i < MAX_MOVES ==> #[trigger] pv.moves@[i] == old_pv[i]);
                if n > k {
                    assert(child_pv.moves@[k] is Some);
                }
                assert forall|i: int| k + 1 <= i < pv.moves@.len() implies (#[trigger] pv.moves@[i]) is None by {
                    assert(pv.moves@[i] == old_pv[i]);
                }
            }
        }
    }

    if !any_move && pos.is_check() {
        return Value::mated_in(ply);
    }

    alpha
}

} // verus!
