//! Move generation for the board of `cozy_chess`: captures ordered by the value
//! of the victim less that of the attacker, and quiet moves in generation order.

use vstd::prelude::*;
use crate::board::{ChessMove, PieceKind, board_legal_moves, board_colors, board_side_to_move, legal_moves_of,
    colors_of, side_of, piece_on_of};
use crate::evaluate::score::Value;
use crate::movegen::movevalue::{MoveValue, MoveValues, sorted_desc, moves_wf, lemma_moves_wf_permutation};
use crate::position::Position;
use crate::types::bitboard::bb_has;

pub mod movevalue;
pub mod movepick;


verus! {

broadcast use vstd::multiset::group_multiset_axioms;

/// The most moves a list holds.
pub const MAX_MOVES: usize = 256;

/// The value of each kind of piece for capture ordering, pawn to king.
pub const LVA_MVV: [i16; 6] = [100, 320, 330, 500, 900, 20000];

/// The entry of `LVA_MVV` for kind `k`.
pub open spec fn lva_mvv_spec(k: int) -> i16 {
    if k == 0 { 100 } else if k == 1 { 320 } else if k == 2 { 330 } else if k == 3 { 500 }
    else if k == 4 { 900 } else { 20000 }
}

/// The ordering value of a capture: the victim's value less the attacker's.
pub open spec fn capture_value(attacker: PieceKind, victim: PieceKind) -> i16 {
    (lva_mvv_spec(victim.0 as int) - lva_mvv_spec(attacker.0 as int)) as i16
}

/// The moves of `s` whose destination is not in `them`, in order.
pub open spec fn quiet_moves(s: Seq<ChessMove>, them: u64) -> Seq<ChessMove>
    decreases s.len(),
{
    if s.len() == 0 {
        s
    } else {
        let rest = quiet_moves(s.drop_last(), them);
        if bb_has(them, s.last().to.0 as int) { rest } else { rest.push(s.last()) }
    }
}

/// The captures among the moves `s` on board `b`, in order, as (move, attacker kind,
/// victim kind): the moves landing on a square of `them` with a piece read on both
/// origin and destination, as many as fit in a list.
pub open spec fn capture_cands(b: cozy_chess::Board, s: Seq<ChessMove>, them: u64) -> Seq<(ChessMove, PieceKind, PieceKind)>
    decreases s.len(),
{
    if s.len() == 0 {
        Seq::empty()
    } else {
        let rest = capture_cands(b, s.drop_last(), them);
        let mv = s.last();
        if bb_has(them, mv.to.0 as int) && rest.len() < MAX_MOVES {
            match (piece_on_of(b, mv.from.0), piece_on_of(b, mv.to.0)) {
                (Some(a), Some(v)) => rest.push((mv, a, v)),
                _ => rest,
            }
        } else {
            rest
        }
    }
}

/// `r` holds the captures `c`, each valued by `capture_value`, in some order.
pub open spec fn captures_valued(r: Seq<MoveValue>, c: Seq<(ChessMove, PieceKind, PieceKind)>) -> bool {
    exists|b: Seq<MoveValue>|
        #![trigger b.to_multiset()]
        b.len() == c.len() && (forall|i: int| 0 <= i < b.len() ==> (#[trigger] b[i]).move_spec() == c[i].0
            && b[i].value_spec() == capture_value(c[i].1, c[i].2)) && r.to_multiset() == b.to_multiset()
}

/// The value a capture by a piece of kind `attacker` of one of kind `victim` is ordered by.
pub fn score_kinds(attacker: PieceKind, victim: PieceKind) -> (v: Value)
    requires
        attacker.0 < 6,
        victim.0 < 6,
    ensures
        v.0 == capture_value(attacker, victim),
{
    Value(LVA_MVV[victim.0 as usize] - LVA_MVV[attacker.0 as usize])
}

/// The captures given as (move, attacker kind, victim kind), each valued by
/// `capture_value` and ordered from the highest value down; among equal values the
/// earlier capture comes first.
pub fn order_captures(cands: &Vec<(ChessMove, PieceKind, PieceKind)>) -> (r: MoveValues<MAX_MOVES>)
    requires
        cands.len() <= MAX_MOVES,
        forall|i: int| 0 <= i < cands.len() ==> (#[trigger] cands[i]).1.0 < 6 && cands[i].2.0 < 6,
    ensures
        r.wf(),
        r.idx_spec() == 0,
        r@.len() == cands.len(),
        sorted_desc(r@),
        (forall|i: int| 0 <= i < cands.len() ==> (#[trigger] cands[i]).0.wf()) ==> moves_wf(r@),
        captures_valued(r@, cands@),
{
    let mut move_values = MoveValues::<MAX_MOVES>::new();
    let ghost mut b: Seq<MoveValue> = Seq::empty();
    let mut i: usize = 0;
    while i < cands.len()
        invariant
            i <= cands.len(),
            cands.len() <= MAX_MOVES,
            forall|j: int| 0 <= j < cands.len() ==> (#[trigger] cands[j]).1.0 < 6 && cands[j].2.0 < 6,
            move_values.wf(),
            move_values.idx_spec() == 0,
            move_values@.len() == i,
            sorted_desc(move_values@),
            b.len() == i,
            forall|j: int| 0 <= j < b.len() ==> (#[trigger] b[j]).move_spec() == cands[j].0
                && b[j].value_spec() == capture_value(cands[j].1, cands[j].2),
            move_values@.to_multiset() == b.to_multiset(),
        decreases cands.len() - i,
    {
        let (mv, attacker, victim) = cands[i];
        let move_value = MoveValue::new(mv, score_kinds(attacker, victim));
        move_values.insert_sort(move_value);
        proof {
            b.to_multiset_ensures();
            b = b.push(move_value);
            b.to_multiset_ensures();
        }
        i = i + 1;
    }
    proof {
        if forall|i: int| 0 <= i < cands.len() ==> (#[trigger] cands[i]).0.wf() {
            assert(moves_wf(b));
            lemma_moves_wf_permutation(move_values@, b);
        }
    }
    move_values
}

/// The quiet moves of `moves` (destination not in `them`) with value zero, in order,
/// as many as fit in a list.
pub fn list_quiet(moves: &Vec<ChessMove>, them: u64) -> (r: MoveValues<MAX_MOVES>)
    ensures
        r.wf(),
        r.idx_spec() == 0,
        r@.len() == if quiet_moves(moves@, them).len() <= MAX_MOVES {
            quiet_moves(moves@, them).len() as int
        } else {
            MAX_MOVES as int
        },
        forall|i: int| 0 <= i < r@.len() ==> (#[trigger] r@[i]).move_spec() == quiet_moves(moves@, them)[i]
            && r@[i].value_spec() == 0,
        (forall|i: int| 0 <= i < moves.len() ==> (#[trigger] moves[i]).wf()) ==> moves_wf(r@),
{
    let mut move_values = MoveValues::<MAX_MOVES>::new();
    let mut i: usize = 0;
    while i < moves.len()
        invariant
            i <= moves.len(),
            move_values.wf(),
            move_values.idx_spec() == 0,
            move_values@.len() == if quiet_moves(moves@.subrange(0, i as int), them).len() <= MAX_MOVES {
                quiet_moves(moves@.subrange(0, i as int), them).len() as int
            } else {
                MAX_MOVES as int
            },
            forall|j: int| 0 <= j < move_values@.len() ==> (#[trigger] move_values@[j]).move_spec()
                == quiet_moves(moves@.subrange(0, i as int), them)[j] && move_values@[j].value_spec() == 0,
            (forall|j: int| 0 <= j < moves.len() ==> (#[trigger] moves[j]).wf()) ==> moves_wf(move_values@),
        decreases moves.len() - i,
    {
        let mv = moves[i];
        let to = mv.to.0;
        proof {
            let s = moves@.subrange(0, i + 1);
            assert(s.drop_last() =~= moves@.subrange(0, i as int));
            assert(s.last() == mv);
        }
        let hit = to < 64 && (them >> (to as u64)) & 1 == 1;
        assert(hit == bb_has(them, to as int));
        if !hit && move_values.len() < MAX_MOVES {
            move_values.push(MoveValue::new(mv, Value(0)));
        }
        i = i + 1;
    }
    proof {
        assert(moves@.subrange(0, moves@.len() as int) =~= moves@);
    }
    move_values
}

/// The legal captures of the position, each valued by the victim's value less the
/// attacker's, from the highest value down. Which moves are legal is the board's
/// answer: the ordering is stated, the set of moves is that of `order_captures`.
pub fn generate_captures(pos: &Position) -> (r: MoveValues<MAX_MOVES>)
    ensures
        r.wf(),
        r.idx_spec() == 0,
        r@.len() <= MAX_MOVES,
        sorted_desc(r@),
        moves_wf(r@),
        r@.len() == capture_cands(pos.board_spec(), legal_moves_of(pos.board_spec()), colors_of(pos.board_spec(),
            side_of(pos.board_spec()) ^ 1)).len(),
        captures_valued(r@, capture_cands(pos.board_spec(), legal_moves_of(pos.board_spec()), colors_of(
            pos.board_spec(), side_of(pos.board_spec()) ^ 1))),
{
    let board = pos.board();
    let them = board_side_to_move(board).flip();
    let targets = board_colors(board, them);
    let moves = board_legal_moves(board);
    let mut cands: Vec<(ChessMove, PieceKind, PieceKind)> = Vec::new();
    let mut i: usize = 0;
    while i < moves.len()
        invariant
            i <= moves.len(),
            cands.len() <= MAX_MOVES,
            forall|j: int| 0 <= j < moves.len() ==> (#[trigger] moves[j]).wf(),
            forall|j: int| 0 <= j < cands.len() ==> (#[trigger] cands[j]).1.0 < 6 && cands[j].2.0 < 6,
            forall|j: int| 0 <= j < cands.len() ==> (#[trigger] cands[j]).0.wf(),
            *board == pos.board_spec(),
            moves@ == legal_moves_of(*board),
            targets == colors_of(*board, side_of(*board) ^ 1),
            cands@ == capture_cands(*board, moves@.subrange(0, i as int), targets),
        decreases moves.len() - i,
    {
        let mv = moves[i];
        proof {
            let s = moves@.subrange(0, i + 1);
            assert(s.drop_last() =~= moves@.subrange(0, i as int));
            assert(s.last() == mv);
        }
        let to = mv.to.0;
        let hit = to < 64 && (targets >> (to as u64)) & 1 == 1;
        assert(hit == bb_has(targets, to as int));
        if hit && cands.len() < MAX_MOVES {
            if let Some(attacker) = pos.piece_on(mv.from) {
                if let Some(victim) = pos.piece_on(mv.to) {
                    cands.push((mv, attacker, victim));
                }
            }
        }
        i = i + 1;
    }
    proof {
        assert(moves@.subrange(0, moves@.len() as int) =~= moves@);
    }
    order_captures(&cands)
}

/// The legal moves of the position whose destination holds no piece of the opponent,
/// in the board's generation order, with value zero.
pub fn generate_quiet(pos: &Position) -> (r: MoveValues<MAX_MOVES>)
    ensures
        r.wf(),
        r.idx_spec() == 0,
        r@.len() <= MAX_MOVES,
        forall|i: int| 0 <= i < r@.len() ==> (#[trigger] r@[i]).value_spec() == 0,
        moves_wf(r@),
        ({
            let q = quiet_moves(legal_moves_of(pos.board_spec()), colors_of(pos.board_spec(), side_of(pos.board_spec())
                ^ 1));
            &&& r@.len() == if q.len() <= MAX_MOVES { q.len() as int } else { MAX_MOVES as int }
            &&& forall|i: int| 0 <= i < r@.len() ==> (#[trigger] r@[i]).move_spec() == q[i]
        }),
{
    let board = pos.board();
    let them = board_side_to_move(board).flip();
    let targets = board_colors(board, them);
    let moves = board_legal_moves(board);
    list_quiet(&moves, targets)
}

} // verus!
