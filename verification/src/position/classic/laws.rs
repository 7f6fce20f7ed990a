//! Laws of the classic position that follow the pieces onto the board after a move, with
//! the geometry of rays, lines and pins they rest on.

use vstd::prelude::*;
use crate::attacks::{sq_bit, ray, sliding_spec, slider_dir, step_ok};
use crate::attacks::attack_bb::{attacks_spec, knight_spec, step_bit};
use crate::types::bitboard::bb_has;
use crate::position::classic::{Position, sel_bits, occupied_pred, type_pred, color_pred, lemma_sel_bits_has,
    lemma_piece_code};
use crate::position::classic::inline::{type_set, color_set, piece_set, attackers_spec};
use crate::position::classic::game::{legal_spec, move_fits, board_after, king_sq, gives_check_spec, promo_of, pc_of,
    blockers_upto, lone_blocker, snipers_of, king_blockers, check_info_current, check_squares_spec};
use crate::attacks::attack_bb::{line_spec, between_spec};
use vstd::std_specs::bits::axiom_u64_trailing_zeros;
use crate::types::moves::{Move, NORMAL, PROMOTION};
use crate::types::piece::{Piece, PAWN, KNIGHT, BISHOP, ROOK, QUEEN, KING, WHITE, BLACK};

verus! {

/// Reading one bit of a combination of bit sets.
proof fn lemma_bit_ops(x: u64, y: u64, j: u64)
    by (bit_vector)
    requires
        j < 64,
    ensures
        ((x | y) >> j) & 1 == 1 <==> ((x >> j) & 1 == 1 || (y >> j) & 1 == 1),
        ((x & y) >> j) & 1 == 1 <==> ((x >> j) & 1 == 1 && (y >> j) & 1 == 1),
        ((x ^ y) >> j) & 1 == 1 <==> ((x >> j) & 1 == 1) != ((y >> j) & 1 == 1),
        ((!x) >> j) & 1 == 1 <==> !((x >> j) & 1 == 1),
        ((x >> j) & 1 == 1) <==> (x & (1u64 << j) != 0),
        !((0u64 >> j) & 1 == 1),
        y < 64 ==> ((((1u64 << y) >> j) & 1 == 1) <==> y == j),
{
}

/// `bb_has` over the bit operations, on one square.
proof fn lemma_has(x: u64, y: u64, j: int)
    requires
        0 <= j < 64,
    ensures
        bb_has(x | y, j) == (bb_has(x, j) || bb_has(y, j)),
        bb_has(x & y, j) == (bb_has(x, j) && bb_has(y, j)),
        bb_has(x ^ y, j) == (bb_has(x, j) != bb_has(y, j)),
        bb_has(!x, j) == !bb_has(x, j),
        !bb_has(0, j),
        bb_has(x, j) == (x & (1u64 << (j as u64)) != 0),
{
    lemma_bit_ops(x, y, j as u64);
}

/// A square is in the set of itself alone and no other square is.
proof fn lemma_has_sq(f: int, j: int)
    requires
        0 <= f < 64,
        0 <= j < 64,
    ensures
        bb_has(sq_bit(f), j) == (f == j),
{
    lemma_bit_ops(0, f as u64, j as u64);
}

/// A selected set has square `j` exactly when the piece there is selected.
proof fn lemma_sel_has(b: Seq<Piece>, f: spec_fn(Piece) -> bool, j: int)
    requires
        b.len() == 64,
        0 <= j < 64,
    ensures
        bb_has(sel_bits(b, f, 64), j) == f(b[j]),
{
    lemma_sel_bits_has(b, f, 64, j as u64);
    lemma_has(sel_bits(b, f, 64), 0, j);
}

/// A ray depends on the blockers only square by square.
proof fn lemma_ray_agree(s: int, d: int, a: u64, c: u64)
    requires
        forall|k: int| 0 <= k < 64 ==> bb_has(a, k) == bb_has(c, k),
    ensures
        ray(s, d, a) == ray(s, d, c),
    decreases (if d > 0 { 64 - s } else { s + 1 }),
{
    if 0 <= s < 64 && d != 0 && crate::attacks::step_ok(s, d) && !bb_has(a, s) {
        lemma_ray_agree(s + d, d, a, c);
    }
}

/// Sliding attacks depend on the blockers only square by square.
proof fn lemma_sliding_agree(pt: u32, sq: int, a: u64, c: u64)
    requires
        forall|k: int| 0 <= k < 64 ==> bb_has(a, k) == bb_has(c, k),
    ensures
        sliding_spec(pt, sq, a) == sliding_spec(pt, sq, c),
{
    lemma_ray_agree(sq, slider_dir(pt, 0), a, c);
    lemma_ray_agree(sq, slider_dir(pt, 1), a, c);
    lemma_ray_agree(sq, slider_dir(pt, 2), a, c);
    lemma_ray_agree(sq, slider_dir(pt, 3), a, c);
}

/// The attacks from `sq` agree for two occupancies that agree away from `sq`.
proof fn lemma_attacks_agree(pt: u32, sq: int, a: u64, c: u64)
    requires
        0 <= sq < 64,
        forall|k: int| 0 <= k < 64 && k != sq ==> bb_has(a, k) == bb_has(c, k),
    ensures
        attacks_spec(pt, sq, a) == attacks_spec(pt, sq, c),
{
    let ba = a & !sq_bit(sq);
    let bc = c & !sq_bit(sq);
    assert forall|k: int| 0 <= k < 64 implies bb_has(ba, k) == bb_has(bc, k) by {
        lemma_has(a, !sq_bit(sq), k);
        lemma_has(c, !sq_bit(sq), k);
        lemma_has(sq_bit(sq), 0, k);
        lemma_has_sq(sq, k);
    }
    lemma_sliding_agree(BISHOP, sq, ba, bc);
    lemma_sliding_agree(ROOK, sq, ba, bc);
}

/// One square of the law below.
proof fn lemma_king_step_square(pos: Position, m: Move, j: int)
    requires
        pos.wf(),
        move_fits(pos.board_spec(), m, pos.side_spec().0),
        m.type_spec() == NORMAL,
        pos.board_spec()[m.from_spec() as int].0 & 7 == KING,
        legal_spec(pos, m),
        0 <= j < 64,
    ensures
        !bb_has(attackers_spec(board_after(pos.board_spec(), m, pos.side_spec().0), m.to_spec() as int, type_set(
            board_after(pos.board_spec(), m, pos.side_spec().0), 0)) & color_set(board_after(pos.board_spec(), m,
            pos.side_spec().0), (1 - pos.side_spec().0) as u32), j),
{
    let b = pos.board_spec();
    let us = pos.side_spec().0;
    let them = (1 - us) as u32;
    let from = m.from_spec() as int;
    let to = m.to_spec() as int;
    let b2 = board_after(b, m, us);
    let occ1 = type_set(b, 0) ^ sq_bit(from);
    let occ2 = type_set(b2, 0);
    assert(b.len() == 64);
    assert(b2 == b.update(from, Piece(0)).update(to, b[from]));
    // Away from `to`, the occupancies agree: the king left `from`, the rest stayed.
    assert forall|k: int| 0 <= k < 64 && k != to implies bb_has(occ2, k) == bb_has(occ1, k) by {
        lemma_sel_has(b2, occupied_pred(), k);
        lemma_sel_has(b, occupied_pred(), k);
        lemma_has(type_set(b, 0), sq_bit(from), k);
        lemma_has_sq(from, k);
        lemma_sel_has(b, occupied_pred(), from);
    }
    lemma_attacks_agree(ROOK, to, occ2, occ1);
    lemma_attacks_agree(BISHOP, to, occ2, occ1);
    let t2 = attackers_spec(b2, to, occ2);
    let t1 = attackers_spec(b, to, occ1);
    let c2 = color_set(b2, them);
    let c1 = color_set(b, them);
    lemma_has(t2, c2, j);
    lemma_has(t1, c1, j);
    lemma_sel_has(b2, color_pred(them), j);
    lemma_sel_has(b, color_pred(them), j);
    if bb_has(t2, j) && bb_has(c2, j) {
        // An enemy piece on `j` after the move: it stood there before.
        assert(j != to && j != from);
        assert(b2[j] == b[j]);
        let pw = crate::attacks::pawn_attacks_spec(BLACK, sq_bit(to));
        let pb = crate::attacks::pawn_attacks_spec(WHITE, sq_bit(to));
        let kn = attacks_spec(KNIGHT, to, type_set(b, 0));
        let kn2 = attacks_spec(KNIGHT, to, type_set(b2, 0));
        let rk = attacks_spec(ROOK, to, occ1);
        let bs = attacks_spec(BISHOP, to, occ1);
        let kg = attacks_spec(KING, to, type_set(b, 0));
        let kg2 = attacks_spec(KING, to, type_set(b2, 0));
        assert(kn == kn2);
        assert(kg == kg2);
        lemma_sel_has(b, type_pred(PAWN), j);
        lemma_sel_has(b2, type_pred(PAWN), j);
        lemma_sel_has(b, color_pred(WHITE), j);
        lemma_sel_has(b2, color_pred(WHITE), j);
        lemma_sel_has(b, color_pred(BLACK), j);
        lemma_sel_has(b2, color_pred(BLACK), j);
        lemma_sel_has(b, type_pred(KNIGHT), j);
        lemma_sel_has(b2, type_pred(KNIGHT), j);
        lemma_sel_has(b, type_pred(ROOK), j);
        lemma_sel_has(b2, type_pred(ROOK), j);
        lemma_sel_has(b, type_pred(BISHOP), j);
        lemma_sel_has(b2, type_pred(BISHOP), j);
        lemma_sel_has(b, type_pred(QUEEN), j);
        lemma_sel_has(b2, type_pred(QUEEN), j);
        lemma_sel_has(b, type_pred(KING), j);
        lemma_sel_has(b2, type_pred(KING), j);
        let wp1 = piece_set(b, WHITE, PAWN);
        let wp2 = piece_set(b2, WHITE, PAWN);
        let bp1 = piece_set(b, BLACK, PAWN);
        let bp2 = piece_set(b2, BLACK, PAWN);
        lemma_has(color_set(b, WHITE), type_set(b, PAWN), j);
        lemma_has(color_set(b2, WHITE), type_set(b2, PAWN), j);
        lemma_has(color_set(b, BLACK), type_set(b, PAWN), j);
        lemma_has(color_set(b2, BLACK), type_set(b2, PAWN), j);
        let rq1 = type_set(b, ROOK) | type_set(b, QUEEN);
        let rq2 = type_set(b2, ROOK) | type_set(b2, QUEEN);
        let bq1 = type_set(b, BISHOP) | type_set(b, QUEEN);
        let bq2 = type_set(b2, BISHOP) | type_set(b2, QUEEN);
        lemma_has(type_set(b, ROOK), type_set(b, QUEEN), j);
        lemma_has(type_set(b2, ROOK), type_set(b2, QUEEN), j);
        lemma_has(type_set(b, BISHOP), type_set(b, QUEEN), j);
        lemma_has(type_set(b2, BISHOP), type_set(b2, QUEEN), j);
        let a1 = pw & wp1;
        let a2 = pb & bp1;
        let a3 = kn & type_set(b, KNIGHT);
        let a4 = rk & rq1;
        let a5 = bs & bq1;
        let a6 = kg & type_set(b, KING);
        let e1 = pw & wp2;
        let e2 = pb & bp2;
        let e3 = kn & type_set(b2, KNIGHT);
        let e4 = rk & rq2;
        let e5 = bs & bq2;
        let e6 = kg & type_set(b2, KING);
        lemma_has(pw, wp1, j);
        lemma_has(pw, wp2, j);
        lemma_has(pb, bp1, j);
        lemma_has(pb, bp2, j);
        lemma_has(kn, type_set(b, KNIGHT), j);
        lemma_has(kn, type_set(b2, KNIGHT), j);
        lemma_has(rk, rq1, j);
        lemma_has(rk, rq2, j);
        lemma_has(bs, bq1, j);
        lemma_has(bs, bq2, j);
        lemma_has(kg, type_set(b, KING), j);
        lemma_has(kg, type_set(b2, KING), j);
        assert(t1 == a1 | a2 | a3 | a4 | a5 | a6);
        assert(t2 == e1 | e2 | e3 | e4 | e5 | e6);
        lemma_has(a1 | a2 | a3 | a4 | a5, a6, j);
        lemma_has(a1 | a2 | a3 | a4, a5, j);
        lemma_has(a1 | a2 | a3, a4, j);
        lemma_has(a1 | a2, a3, j);
        lemma_has(a1, a2, j);
        lemma_has(e1 | e2 | e3 | e4 | e5, e6, j);
        lemma_has(e1 | e2 | e3 | e4, e5, j);
        lemma_has(e1 | e2 | e3, e4, j);
        lemma_has(e1 | e2, e3, j);
        lemma_has(e1, e2, j);
        assert(bb_has(t1, j));
        assert(bb_has(t1 & c1, j));
        assert(t1 & c1 == 0);
    }
}

/// Law: a legal king step (not castling) takes the king to a square that no piece of the
/// other side attacks on the board after the move.
pub proof fn lemma_legal_king_step_safe(pos: Position, m: Move)
    requires
        pos.wf(),
        move_fits(pos.board_spec(), m, pos.side_spec().0),
        m.type_spec() == NORMAL,
        pos.board_spec()[m.from_spec() as int].0 & 7 == KING,
        legal_spec(pos, m),
    ensures
        forall|j: int| 0 <= j < 64 ==> !#[trigger] bb_has(attackers_spec(board_after(pos.board_spec(), m,
            pos.side_spec().0), m.to_spec() as int, type_set(board_after(pos.board_spec(), m, pos.side_spec().0), 0))
            & color_set(board_after(pos.board_spec(), m, pos.side_spec().0), (1 - pos.side_spec().0) as u32), j),
{
    assert forall|j: int| 0 <= j < 64 implies !#[trigger] bb_has(attackers_spec(board_after(pos.board_spec(), m,
        pos.side_spec().0), m.to_spec() as int, type_set(board_after(pos.board_spec(), m, pos.side_spec().0), 0))
        & color_set(board_after(pos.board_spec(), m, pos.side_spec().0), (1 - pos.side_spec().0) as u32), j) by {
        lemma_king_step_square(pos, m, j);
    }
}

/// The squares of a ray lie on the board, strictly beyond its start in its direction,
/// and the ray leaves its start only when the step is on the board and the start is free.
proof fn lemma_ray_beyond(s: int, d: int, occ: u64, e: int)
    requires
        bb_has(ray(s, d, occ), e),
    ensures
        0 <= e < 64,
        0 <= s < 64,
        d != 0,
        step_ok(s, d),
        !bb_has(occ, s),
        d > 0 ==> e > s,
        d < 0 ==> e < s,
    decreases (if d > 0 { 64 - s } else { s + 1 }),
{
    if 0 <= s < 64 && d != 0 && step_ok(s, d) && !bb_has(occ, s) {
        lemma_has(sq_bit(s + d), ray(s + d, d, occ), e);
        lemma_has_sq(s + d, e);
        if e != s + d {
            lemma_ray_beyond(s + d, d, occ, e);
        }
    } else {
        lemma_has(0, 0, e);
    }
}

/// A ray that reaches a free square `u` goes on one more step when that step is on the board.
proof fn lemma_ray_extend(t: int, e: int, o: u64, u: int)
    requires
        bb_has(ray(t, e, o), u),
        step_ok(u, e),
        !bb_has(o, u),
    ensures
        bb_has(ray(t, e, o), u + e),
    decreases (if e > 0 { 64 - t } else { t + 1 }),
{
    lemma_ray_beyond(t, e, o, u);
    let r1 = ray(t + e, e, o);
    lemma_has(sq_bit(t + e), r1, u);
    lemma_has_sq(t + e, u);
    lemma_has(sq_bit(t + e), r1, u + e);
    if u == t + e {
        lemma_has(sq_bit(u + e), ray(u + e, e, o), u + e);
        lemma_has_sq(u + e, u + e);
    } else {
        lemma_ray_extend(t + e, e, o, u);
    }
}

/// Rays are symmetric: when the ray from `s` along `d` reaches `t`, the ray from `t`
/// along `-d` reaches `s`, with `t` itself not blocking.
proof fn lemma_ray_sym(s: int, d: int, a: u64, t: int)
    requires
        bb_has(ray(s, d, a), t),
    ensures
        bb_has(ray(t, -d, a & !sq_bit(t)), s),
    decreases (if d > 0 { 64 - s } else { s + 1 }),
{
    let o = a & !sq_bit(t);
    lemma_ray_beyond(s, d, a, t);
    lemma_has(sq_bit(s + d), ray(s + d, d, a), t);
    lemma_has_sq(s + d, t);
    assert(step_ok(s + d, -d));
    lemma_has(a, !sq_bit(t), s + d);
    lemma_has(sq_bit(t), 0, s + d);
    lemma_has_sq(t, s + d);
    if t == s + d {
        lemma_has(a, !sq_bit(t), t);
        lemma_has(sq_bit(t), 0, t);
        lemma_has_sq(t, t);
        lemma_has(sq_bit(t - d), ray(t - d, -d, o), s);
        lemma_has_sq(s, s);
    } else {
        lemma_ray_beyond(s + d, d, a, t);
        lemma_ray_sym(s + d, d, a, t);
        lemma_ray_extend(t, -d, o, s + d);
    }
}

/// Whether a ray reaches square `e` does not depend on whether `e` itself blocks.
proof fn lemma_ray_reach_except(s: int, d: int, a: u64, c: u64, e: int)
    requires
        bb_has(ray(s, d, a), e),
        forall|k: int| 0 <= k < 64 && k != e ==> bb_has(a, k) == bb_has(c, k),
    ensures
        bb_has(ray(s, d, c), e),
    decreases (if d > 0 { 64 - s } else { s + 1 }),
{
    lemma_ray_beyond(s, d, a, e);
    lemma_has(sq_bit(s + d), ray(s + d, d, a), e);
    lemma_has(sq_bit(s + d), ray(s + d, d, c), e);
    lemma_has_sq(s + d, e);
    if e != s + d {
        lemma_ray_reach_except(s + d, d, a, c, e);
    }
}

/// A rook or a bishop on `s` that attacks `t` would be attacked back from `t` by the same
/// kind of piece, for blockers that agree away from `s` and `t`.
proof fn lemma_slider_sym(pt: u32, s: int, t: int, a: u64, c: u64)
    requires
        pt == ROOK || pt == BISHOP,
        0 <= s < 64,
        bb_has(attacks_spec(pt, s, a), t),
        forall|k: int| 0 <= k < 64 && k != s && k != t ==> bb_has(a, k) == bb_has(c, k),
    ensures
        bb_has(attacks_spec(pt, t, c), s),
{
    let a0 = a & !sq_bit(s);
    let c0 = c & !sq_bit(t);
    let r0 = ray(s, slider_dir(pt, 0), a0);
    let r1 = ray(s, slider_dir(pt, 1), a0);
    let r2 = ray(s, slider_dir(pt, 2), a0);
    let r3 = ray(s, slider_dir(pt, 3), a0);
    lemma_has(r0 | r1 | r2, r3, t);
    lemma_has(r0 | r1, r2, t);
    lemma_has(r0, r1, t);
    let i: int = if bb_has(r0, t) { 0 } else if bb_has(r1, t) { 1 } else if bb_has(r2, t) { 2 } else { 3 };
    let d = slider_dir(pt, i);
    assert(bb_has(ray(s, d, a0), t));
    lemma_ray_sym(s, d, a0, t);
    let a1 = a0 & !sq_bit(t);
    assert forall|k: int| 0 <= k < 64 && k != s implies bb_has(a1, k) == bb_has(c0, k) by {
        lemma_has(a0, !sq_bit(t), k);
        lemma_has(a, !sq_bit(s), k);
        lemma_has(c, !sq_bit(t), k);
        lemma_has(sq_bit(t), 0, k);
        lemma_has(sq_bit(s), 0, k);
        lemma_has_sq(t, k);
        lemma_has_sq(s, k);
    }
    lemma_ray_reach_except(t, -d, a1, c0, s);
    let j: int = if pt == ROOK {
        if i == 0 { 1 } else if i == 1 { 0 } else if i == 2 { 3 } else { 2 }
    } else {
        if i == 0 { 2 } else if i == 1 { 3 } else if i == 2 { 0 } else { 1 }
    };
    assert(slider_dir(pt, j) == -d);
    let q0 = ray(t, slider_dir(pt, 0), c0);
    let q1 = ray(t, slider_dir(pt, 1), c0);
    let q2 = ray(t, slider_dir(pt, 2), c0);
    let q3 = ray(t, slider_dir(pt, 3), c0);
    lemma_has(q0 | q1 | q2, q3, s);
    lemma_has(q0 | q1, q2, s);
    lemma_has(q0, q1, s);
}

/// One knight step read from either end.
proof fn lemma_step_bit_sym(s: int, x: int, t: int)
    requires
        0 <= s < 64,
        bb_has(step_bit(s, x), t),
    ensures
        bb_has(step_bit(t, -x), s),
{
    if step_ok(s, x) {
        lemma_has_sq(s + x, t);
        lemma_has_sq(s, s);
    } else {
        lemma_has(0, 0, t);
    }
}

/// A knight on `s` attacks `t` exactly when a knight on `t` would attack `s`.
proof fn lemma_knight_sym(s: int, t: int)
    requires
        0 <= s < 64,
        bb_has(knight_spec(s), t),
    ensures
        bb_has(knight_spec(t), s),
{
    let k0 = step_bit(s, -17);
    let k1 = step_bit(s, -15);
    let k2 = step_bit(s, -10);
    let k3 = step_bit(s, -6);
    let k4 = step_bit(s, 6);
    let k5 = step_bit(s, 10);
    let k6 = step_bit(s, 15);
    let k7 = step_bit(s, 17);
    lemma_has(k0 | k1 | k2 | k3 | k4 | k5 | k6, k7, t);
    lemma_has(k0 | k1 | k2 | k3 | k4 | k5, k6, t);
    lemma_has(k0 | k1 | k2 | k3 | k4, k5, t);
    lemma_has(k0 | k1 | k2 | k3, k4, t);
    lemma_has(k0 | k1 | k2, k3, t);
    lemma_has(k0 | k1, k2, t);
    lemma_has(k0, k1, t);
    let x: int = if bb_has(k0, t) { -17 } else if bb_has(k1, t) { -15 } else if bb_has(k2, t) { -10 } else if bb_has(
        k3,
        t,
    ) { -6 } else if bb_has(k4, t) { 6 } else if bb_has(k5, t) { 10 } else if bb_has(k6, t) { 15 } else { 17 };
    lemma_step_bit_sym(s, x, t);
    let n0 = step_bit(t, -17);
    let n1 = step_bit(t, -15);
    let n2 = step_bit(t, -10);
    let n3 = step_bit(t, -6);
    let n4 = step_bit(t, 6);
    let n5 = step_bit(t, 10);
    let n6 = step_bit(t, 15);
    let n7 = step_bit(t, 17);
    lemma_has(n0 | n1 | n2 | n3 | n4 | n5 | n6, n7, s);
    lemma_has(n0 | n1 | n2 | n3 | n4 | n5, n6, s);
    lemma_has(n0 | n1 | n2 | n3 | n4, n5, s);
    lemma_has(n0 | n1 | n2 | n3, n4, s);
    lemma_has(n0 | n1 | n2, n3, s);
    lemma_has(n0 | n1, n2, s);
    lemma_has(n0, n1, s);
}

/// Law: a promotion gives check whenever the piece it makes attacks the king of the other
/// side on the board after the move, that is whenever the new piece on the destination is
/// among the mover's attackers of that king.
pub proof fn lemma_promotion_check(pos: Position, m: Move)
    requires
        pos.wf(),
        move_fits(pos.board_spec(), m, pos.side_spec().0),
        m.type_spec() == PROMOTION,
        piece_set(pos.board_spec(), (1 - pos.side_spec().0) as u32, KING) != 0,
        bb_has(
            attackers_spec(
                board_after(pos.board_spec(), m, pos.side_spec().0),
                king_sq(pos.board_spec(), (1 - pos.side_spec().0) as u32),
                type_set(board_after(pos.board_spec(), m, pos.side_spec().0), 0),
            ) & color_set(board_after(pos.board_spec(), m, pos.side_spec().0), pos.side_spec().0),
            m.to_spec() as int,
        ),
    ensures
        gives_check_spec(pos, m),
{
    let b = pos.board_spec();
    let us = pos.side_spec().0;
    let them = (1 - us) as u32;
    let from = m.from_spec() as int;
    let to = m.to_spec() as int;
    let p = promo_of(m);
    let b2 = board_after(b, m, us);
    let ksq = king_sq(b, them);
    let occ = type_set(b, 0);
    let occ2 = type_set(b2, 0);
    let occx = occ ^ sq_bit(from);
    let ks = piece_set(b, them, KING);
    assert(b2 == b.update(from, Piece(0)).update(to, pc_of(us, p)));
    axiom_u64_trailing_zeros(ks);
    assert(bb_has(ks, ksq));
    lemma_has(color_set(b, them), type_set(b, KING), ksq);
    lemma_sel_has(b, color_pred(them), ksq);
    lemma_sel_has(b, type_pred(KING), ksq);
    lemma_piece_code(b[from].0, us, PAWN);
    lemma_piece_code(b[from].0, b[from].0 >> 3, b[from].0 & 7);
    assert(ksq != to && ksq != from);
    // The piece on the destination after the move is the promoted one.
    lemma_piece_code(pc_of(us, p).0, us, p);
    let att = attackers_spec(b2, ksq, occ2);
    lemma_has(att, color_set(b2, us), to);
    lemma_sel_has(b2, type_pred(PAWN), to);
    lemma_sel_has(b2, type_pred(KNIGHT), to);
    lemma_sel_has(b2, type_pred(BISHOP), to);
    lemma_sel_has(b2, type_pred(ROOK), to);
    lemma_sel_has(b2, type_pred(QUEEN), to);
    lemma_sel_has(b2, type_pred(KING), to);
    let wp = piece_set(b2, WHITE, PAWN);
    let bp = piece_set(b2, BLACK, PAWN);
    lemma_has(color_set(b2, WHITE), type_set(b2, PAWN), to);
    lemma_has(color_set(b2, BLACK), type_set(b2, PAWN), to);
    let pw = crate::attacks::pawn_attacks_spec(BLACK, sq_bit(ksq));
    let pb = crate::attacks::pawn_attacks_spec(WHITE, sq_bit(ksq));
    let kn = attacks_spec(KNIGHT, ksq, occ2);
    let rk = attacks_spec(ROOK, ksq, occ2);
    let bs = attacks_spec(BISHOP, ksq, occ2);
    let kg = attacks_spec(KING, ksq, occ2);
    let rq = type_set(b2, ROOK) | type_set(b2, QUEEN);
    let bq = type_set(b2, BISHOP) | type_set(b2, QUEEN);
    lemma_has(type_set(b2, ROOK), type_set(b2, QUEEN), to);
    lemma_has(type_set(b2, BISHOP), type_set(b2, QUEEN), to);
    let e1 = pw & wp;
    let e2 = pb & bp;
    let e3 = kn & type_set(b2, KNIGHT);
    let e4 = rk & rq;
    let e5 = bs & bq;
    let e6 = kg & type_set(b2, KING);
    lemma_has(pw, wp, to);
    lemma_has(pb, bp, to);
    lemma_has(kn, type_set(b2, KNIGHT), to);
    lemma_has(rk, rq, to);
    lemma_has(bs, bq, to);
    lemma_has(kg, type_set(b2, KING), to);
    assert(att == e1 | e2 | e3 | e4 | e5 | e6);
    lemma_has(e1 | e2 | e3 | e4 | e5, e6, to);
    lemma_has(e1 | e2 | e3 | e4, e5, to);
    lemma_has(e1 | e2 | e3, e4, to);
    lemma_has(e1 | e2, e3, to);
    lemma_has(e1, e2, to);
    // Away from the king and the destination, the blockers after the move are those
    // before it without the pawn.
    lemma_sel_has(b, occupied_pred(), from);
    assert forall|k: int| 0 <= k < 64 && k != ksq && k != to implies bb_has(occ2, k) == bb_has(occx, k) by {
        lemma_sel_has(b2, occupied_pred(), k);
        lemma_sel_has(b, occupied_pred(), k);
        lemma_has(occ, sq_bit(from), k);
        lemma_has_sq(from, k);
    }
    let bl = occx & !sq_bit(to);
    let att_p = attacks_spec(p, to, occx);
    if bb_has(e3, to) {
        lemma_knight_sym(ksq, to);
        assert(bb_has(att_p, ksq));
    } else if bb_has(e4, to) {
        lemma_slider_sym(ROOK, ksq, to, occ2, occx);
        lemma_has(sliding_spec(BISHOP, to, bl), sliding_spec(ROOK, to, bl), ksq);
        assert(bb_has(att_p, ksq));
    } else {
        assert(bb_has(e5, to));
        lemma_slider_sym(BISHOP, ksq, to, occ2, occx);
        lemma_has(sliding_spec(BISHOP, to, bl), sliding_spec(ROOK, to, bl), ksq);
        assert(bb_has(att_p, ksq));
    }
    lemma_has(att_p, 0, ksq);
    assert(att_p & sq_bit(ksq) != 0);
}

/// Where the squares of a ray stand relative to its start: a rank or file ray keeps the
/// file or the rank of its start, a diagonal ray changes both.
proof fn lemma_ray_coords(s: int, d: int, o: u64, x: int)
    requires
        bb_has(ray(s, d, o), x),
    ensures
        d == 8 ==> x % 8 == s % 8 && x / 8 > s / 8,
        d == -8 ==> x % 8 == s % 8 && x / 8 < s / 8,
        d == 1 ==> x / 8 == s / 8 && x % 8 > s % 8,
        d == -1 ==> x / 8 == s / 8 && x % 8 < s % 8,
        d == 9 ==> x % 8 > s % 8 && x / 8 > s / 8 && x % 8 - s % 8 == x / 8 - s / 8,
        d == -9 ==> x % 8 < s % 8 && x / 8 < s / 8 && s % 8 - x % 8 == s / 8 - x / 8,
        d == 7 ==> x % 8 < s % 8 && x / 8 > s / 8 && s % 8 - x % 8 == x / 8 - s / 8,
        d == -7 ==> x % 8 > s % 8 && x / 8 < s / 8 && x % 8 - s % 8 == s / 8 - x / 8,
    decreases (if d > 0 { 64 - s } else { s + 1 }),
{
    lemma_ray_beyond(s, d, o, x);
    lemma_has(sq_bit(s + d), ray(s + d, d, o), x);
    lemma_has_sq(s + d, x);
    if x != s + d {
        lemma_ray_coords(s + d, d, o, x);
    }
}

/// Of two squares of one ray, the ray from the nearer one reaches the farther one.
proof fn lemma_ray_tail(s: int, d: int, x: int, y: int)
    requires
        bb_has(ray(s, d, 0), x),
        bb_has(ray(s, d, 0), y),
        d > 0 ==> x < y,
        d < 0 ==> y < x,
    ensures
        bb_has(ray(x, d, 0), y),
    decreases (if d > 0 { 64 - s } else { s + 1 }),
{
    lemma_ray_beyond(s, d, 0, x);
    lemma_ray_beyond(s, d, 0, y);
    lemma_has(sq_bit(s + d), ray(s + d, d, 0), x);
    lemma_has(sq_bit(s + d), ray(s + d, d, 0), y);
    lemma_has_sq(s + d, x);
    lemma_has_sq(s + d, y);
    if x != s + d {
        lemma_ray_beyond(s + d, d, 0, x);
        lemma_ray_tail(s + d, d, x, y);
    }
}

/// A square is attacked by a slider of type `pt` (rook or bishop) exactly when one of its
/// four rays reaches it; the ray's index is returned.
proof fn lemma_sliding_pick(pt: u32, s: int, o: u64, x: int) -> (i: int)
    requires
        bb_has(sliding_spec(pt, s, o), x),
    ensures
        0 <= i < 4,
        bb_has(ray(s, slider_dir(pt, i), o), x),
{
    let r0 = ray(s, slider_dir(pt, 0), o);
    let r1 = ray(s, slider_dir(pt, 1), o);
    let r2 = ray(s, slider_dir(pt, 2), o);
    let r3 = ray(s, slider_dir(pt, 3), o);
    lemma_has(r0 | r1 | r2, r3, x);
    lemma_has(r0 | r1, r2, x);
    lemma_has(r0, r1, x);
    if bb_has(r0, x) { 0 } else if bb_has(r1, x) { 1 } else if bb_has(r2, x) { 2 } else { 3 }
}

/// A square reached by some ray of a slider of type `pt` (rook or bishop).
proof fn lemma_sliding_has_occ(pt: u32, s: int, o: u64, i: int, x: int)
    requires
        0 <= i < 4,
        bb_has(ray(s, slider_dir(pt, i), o), x),
    ensures
        bb_has(sliding_spec(pt, s, o), x),
{
    let r0 = ray(s, slider_dir(pt, 0), o);
    let r1 = ray(s, slider_dir(pt, 1), o);
    let r2 = ray(s, slider_dir(pt, 2), o);
    let r3 = ray(s, slider_dir(pt, 3), o);
    lemma_has(r0 | r1 | r2, r3, x);
    lemma_has(r0 | r1, r2, x);
    lemma_has(r0, r1, x);
}

/// A square reached by some ray of a slider of type `pt` (rook or bishop) on an empty board.
proof fn lemma_sliding_has(pt: u32, s: int, i: int, x: int)
    requires
        0 <= i < 4,
        bb_has(ray(s, slider_dir(pt, i), 0), x),
    ensures
        bb_has(sliding_spec(pt, s, 0), x),
{
    lemma_sliding_has_occ(pt, s, 0, i, x);
}

/// What a ray reaches with blockers it also reaches on an empty board.
proof fn lemma_ray_sub(s: int, d: int, o: u64, x: int)
    requires
        bb_has(ray(s, d, o), x),
    ensures
        bb_has(ray(s, d, 0), x),
    decreases (if d > 0 { 64 - s } else { s + 1 }),
{
    lemma_ray_beyond(s, d, o, x);
    lemma_has(0, 0, s);
    lemma_has(sq_bit(s + d), ray(s + d, d, o), x);
    lemma_has(sq_bit(s + d), ray(s + d, d, 0), x);
    if bb_has(ray(s + d, d, o), x) {
        lemma_ray_sub(s + d, d, o, x);
    }
}

/// A ray that reaches `x` passes only free squares before it.
proof fn lemma_ray_blocked(s: int, d: int, o: u64, x: int, q: int)
    requires
        bb_has(ray(s, d, o), x),
        bb_has(ray(s, d, 0), q),
        d > 0 ==> q < x,
        d < 0 ==> q > x,
    ensures
        !bb_has(o, q),
    decreases (if d > 0 { 64 - s } else { s + 1 }),
{
    lemma_ray_beyond(s, d, o, x);
    lemma_ray_beyond(s, d, 0, q);
    lemma_has(sq_bit(s + d), ray(s + d, d, o), x);
    lemma_has(sq_bit(s + d), ray(s + d, d, 0), q);
    lemma_has_sq(s + d, x);
    lemma_has_sq(s + d, q);
    if q == s + d {
        lemma_ray_beyond(s + d, d, o, x);
    } else {
        lemma_ray_beyond(s + d, d, 0, q);
        lemma_ray_blocked(s + d, d, o, x, q);
    }
}

/// The squares a rook attacks on an empty board share its file or its rank.
proof fn lemma_rook_lines(s: int, x: int)
    requires
        bb_has(sliding_spec(ROOK, s, 0), x),
    ensures
        x % 8 == s % 8 || x / 8 == s / 8,
{
    let r0 = ray(s, slider_dir(ROOK, 0), 0);
    let r1 = ray(s, slider_dir(ROOK, 1), 0);
    let r2 = ray(s, slider_dir(ROOK, 2), 0);
    let r3 = ray(s, slider_dir(ROOK, 3), 0);
    lemma_has(r0 | r1 | r2, r3, x);
    lemma_has(r0 | r1, r2, x);
    lemma_has(r0, r1, x);
    if bb_has(r0, x) {
        lemma_ray_coords(s, 8, 0, x);
    } else if bb_has(r1, x) {
        lemma_ray_coords(s, -8, 0, x);
    } else if bb_has(r2, x) {
        lemma_ray_coords(s, 1, 0, x);
    } else {
        lemma_ray_coords(s, -1, 0, x);
    }
}

/// Two distinct squares on one ray from `k` span a line through `k`.
proof fn lemma_ray_line(pt: u32, i: int, k: int, x: int, y: int)
    requires
        pt == ROOK || pt == BISHOP,
        0 <= i < 4,
        bb_has(ray(k, slider_dir(pt, i), 0), x),
        bb_has(ray(k, slider_dir(pt, i), 0), y),
        x != y,
    ensures
        bb_has(crate::attacks::attack_bb::line_spec(x, y), k),
{
    let d = slider_dir(pt, i);
    let j: int = if pt == ROOK {
        if i == 0 { 1 } else if i == 1 { 0 } else if i == 2 { 3 } else { 2 }
    } else {
        if i == 0 { 2 } else if i == 1 { 3 } else if i == 2 { 0 } else { 1 }
    };
    assert(slider_dir(pt, j) == -d);
    lemma_ray_beyond(k, d, 0, x);
    lemma_ray_beyond(k, d, 0, y);
    // The king's square seen back from each of the two squares.
    assert forall|q: int| 0 <= q < 64 implies bb_has(0u64 & !sq_bit(x), q) == bb_has(0u64, q) && bb_has(0u64
        & !sq_bit(y), q) == bb_has(0u64, q) by {
        lemma_has(0, !sq_bit(x), q);
        lemma_has(0, !sq_bit(y), q);
    }
    lemma_ray_sym(k, d, 0, x);
    lemma_ray_sym(k, d, 0, y);
    lemma_ray_agree(x, -d, 0u64 & !sq_bit(x), 0);
    lemma_ray_agree(y, -d, 0u64 & !sq_bit(y), 0);
    lemma_sliding_has(pt, x, j, k);
    lemma_sliding_has(pt, y, j, k);
    // The second square seen from the first.
    if (d > 0) == (x < y) {
        lemma_ray_tail(k, d, x, y);
        lemma_sliding_has(pt, x, i, y);
        lemma_ray_coords(x, d, 0, y);
    } else {
        lemma_ray_tail(k, d, y, x);
        lemma_ray_sym(y, d, 0, x);
        lemma_ray_agree(x, -d, 0u64 & !sq_bit(x), 0);
        lemma_sliding_has(pt, x, j, y);
        lemma_ray_coords(y, d, 0, x);
    }
    let rx = sliding_spec(ROOK, x, 0);
    let bx = sliding_spec(BISHOP, x, 0);
    if pt == BISHOP {
        if bb_has(rx, y) {
            lemma_rook_lines(x, y);
        }
        lemma_has(bx, sliding_spec(BISHOP, y, 0), k);
        lemma_has(bx & sliding_spec(BISHOP, y, 0), sq_bit(x), k);
        lemma_has((bx & sliding_spec(BISHOP, y, 0)) | sq_bit(x), sq_bit(y), k);
    } else {
        lemma_has(rx, sliding_spec(ROOK, y, 0), k);
        lemma_has(rx & sliding_spec(ROOK, y, 0), sq_bit(x), k);
        lemma_has((rx & sliding_spec(ROOK, y, 0)) | sq_bit(x), sq_bit(y), k);
    }
}

/// Law: a move that keeps a piece on one line through its own king (origin and destination
/// on the same rank, file or diagonal ray from the king) is legal, pinned or not: only a
/// king move, an en passant capture or castling can be refused then.
pub proof fn lemma_move_along_king_line_legal(pos: Position, m: Move, pt: u32, i: int)
    requires
        pos.wf(),
        move_fits(pos.board_spec(), m, pos.side_spec().0),
        m.type_spec() == NORMAL || m.type_spec() == PROMOTION,
        pos.board_spec()[m.from_spec() as int].0 & 7 != KING,
        pt == ROOK || pt == BISHOP,
        0 <= i < 4,
        bb_has(ray(king_sq(pos.board_spec(), pos.side_spec().0), slider_dir(pt, i), 0), m.from_spec() as int),
        bb_has(ray(king_sq(pos.board_spec(), pos.side_spec().0), slider_dir(pt, i), 0), m.to_spec() as int),
    ensures
        legal_spec(pos, m),
{
    lemma_ray_line(pt, i, king_sq(pos.board_spec(), pos.side_spec().0), m.from_spec() as int, m.to_spec() as int);
}

/// A ray reaches `x` past a single blocker `y` that does not stand before `x`.
proof fn lemma_ray_reach_before(s: int, d: int, x: int, y: int)
    requires
        bb_has(ray(s, d, 0), x),
        d > 0 ==> (y >= x || y < s),
        d < 0 ==> (y <= x || y > s),
    ensures
        bb_has(ray(s, d, sq_bit(y)), x),
    decreases (if d > 0 { 64 - s } else { s + 1 }),
{
    lemma_ray_beyond(s, d, 0, x);
    if 0 <= y < 64 {
        lemma_has_sq(y, s);
    } else {
        lemma_has(0, 0, s);
    }
    lemma_has(sq_bit(s + d), ray(s + d, d, 0), x);
    lemma_has(sq_bit(s + d), ray(s + d, d, sq_bit(y)), x);
    lemma_has_sq(s + d, x);
    if x != s + d {
        lemma_ray_reach_before(s + d, d, x, y);
    }
}

/// The ray from `k` back along `-d` from a square `x` of the ray from `k` along `d`.
proof fn lemma_ray_back(k: int, d: int, x: int)
    requires
        bb_has(ray(k, d, 0), x),
    ensures
        bb_has(ray(x, -d, 0), k),
{
    assert forall|q: int| 0 <= q < 64 implies bb_has(0u64 & !sq_bit(x), q) == bb_has(0u64, q) by {
        lemma_has(0, !sq_bit(x), q);
    }
    lemma_ray_sym(k, d, 0, x);
    lemma_ray_agree(x, -d, 0u64 & !sq_bit(x), 0);
}

/// The index of the ray opposite to ray `i` of a slider of type `pt`.
proof fn lemma_opposite(pt: u32, i: int) -> (j: int)
    requires
        0 <= i < 4,
    ensures
        0 <= j < 4,
        slider_dir(pt, j) == -slider_dir(pt, i),
{
    if pt == ROOK {
        if i == 0 { 1 } else if i == 1 { 0 } else if i == 2 { 3 } else { 2 }
    } else {
        if i == 0 { 2 } else if i == 1 { 3 } else if i == 2 { 0 } else { 1 }
    }
}

/// The squares of a ray from `k` before the square `y` it reaches lie between `k` and `y`.
proof fn lemma_between_has(pt: u32, i: int, k: int, y: int, z: int)
    requires
        pt == ROOK || pt == BISHOP,
        0 <= i < 4,
        bb_has(ray(k, slider_dir(pt, i), 0), y),
        bb_has(ray(k, slider_dir(pt, i), 0), z),
        bb_has(ray(z, slider_dir(pt, i), 0), y),
    ensures
        bb_has(crate::attacks::attack_bb::between_spec(k, y), z),
{
    let d = slider_dir(pt, i);
    let j = lemma_opposite(pt, i);
    lemma_ray_beyond(k, d, 0, y);
    lemma_ray_beyond(k, d, 0, z);
    lemma_ray_beyond(z, d, 0, y);
    lemma_ray_reach_before(k, d, z, y);
    lemma_ray_back(z, d, y);
    lemma_ray_reach_before(y, -d, z, k);
    lemma_sliding_has_occ(pt, k, sq_bit(y), i, z);
    lemma_sliding_has_occ(pt, y, sq_bit(k), j, z);
    lemma_sliding_has(pt, k, i, y);
    lemma_ray_coords(k, d, 0, y);
    if pt == BISHOP && bb_has(sliding_spec(ROOK, k, 0), y) {
        lemma_rook_lines(k, y);
    }
    let a = sliding_spec(pt, k, sq_bit(y));
    let c = sliding_spec(pt, y, sq_bit(k));
    lemma_has(a, c, z);
    lemma_has(a & c, sq_bit(y), z);
}

/// A square between `k` and a square `y` of the ray from `k` along ray `i`, other than `y`,
/// lies on that ray before `y`.
proof fn lemma_between_on_ray(pt: u32, i: int, k: int, y: int, f: int)
    requires
        pt == ROOK || pt == BISHOP,
        0 <= i < 4,
        bb_has(ray(k, slider_dir(pt, i), 0), y),
        bb_has(crate::attacks::attack_bb::between_spec(k, y), f),
        f != y,
    ensures
        bb_has(ray(k, slider_dir(pt, i), 0), f),
        bb_has(ray(f, slider_dir(pt, i), 0), y),
{
    let d = slider_dir(pt, i);
    lemma_ray_beyond(k, d, 0, y);
    lemma_sliding_has(pt, k, i, y);
    lemma_ray_coords(k, d, 0, y);
    if pt == BISHOP && bb_has(sliding_spec(ROOK, k, 0), y) {
        lemma_rook_lines(k, y);
    }
    let a = sliding_spec(pt, k, sq_bit(y));
    let c = sliding_spec(pt, y, sq_bit(k));
    lemma_has(a & c, sq_bit(y), f);
    lemma_has(a, c, f);
    lemma_has_sq(y, f);
    let i1 = lemma_sliding_pick(pt, k, sq_bit(y), f);
    let i2 = lemma_sliding_pick(pt, y, sq_bit(k), f);
    let d1 = slider_dir(pt, i1);
    let e = slider_dir(pt, i2);
    lemma_ray_coords(k, d1, sq_bit(y), f);
    lemma_ray_coords(y, e, sq_bit(k), f);
    lemma_ray_beyond(k, d1, sq_bit(y), f);
    lemma_ray_beyond(y, e, sq_bit(k), f);
    if d1 == d && e == -d {
        lemma_ray_sub(k, d, sq_bit(y), f);
        lemma_ray_sym(y, e, sq_bit(k), f);
        lemma_ray_sub(f, d, sq_bit(k) & !sq_bit(f), y);
    } else if d1 == d && e == d {
        lemma_ray_blocked(k, d, sq_bit(y), f, y);
        lemma_has_sq(y, y);
    } else if d1 == -d && e == -d {
        lemma_ray_back(k, d, y);
        lemma_ray_blocked(y, e, sq_bit(k), f, k);
        lemma_has_sq(k, k);
    } else {
        assert(false);
    }
}

/// A set with at most one element: two squares in it are the same square.
proof fn lemma_single_bit(x: u64, j: u64, q: u64)
    by (bit_vector)
    requires
        j < 64,
        q < 64,
        x & ((x - 1) as u64) == 0,
        (x >> j) & 1 == 1,
        (x >> q) & 1 == 1,
    ensures
        j == q,
{
}

/// A lone blocker comes from some sniper.
proof fn lemma_blocker_witness(sn: u64, s: int, occ: u64, n: nat, f: int) -> (y: int)
    requires
        bb_has(blockers_upto(sn, s, occ, n), f),
    ensures
        0 <= y < n,
        bb_has(sn, y),
        bb_has(lone_blocker(s, y, occ), f),
    decreases n,
{
    if n == 0 {
        lemma_has(0, 0, f);
        0
    } else {
        let prev = blockers_upto(sn, s, occ, (n - 1) as nat);
        let add = if bb_has(sn, n - 1) { lone_blocker(s, n - 1, occ) } else { 0 };
        lemma_has(prev, add, f);
        if bb_has(prev, f) {
            lemma_blocker_witness(sn, s, occ, (n - 1) as nat, f)
        } else {
            lemma_has(0, 0, f);
            n - 1
        }
    }
}

/// A sniper of square `k` on a ray of type `pt` from `k` is an enemy slider that moves
/// along that ray: a piece of type `pt` or a queen of the other color.
proof fn lemma_sniper_kind(b: Seq<Piece>, pt: u32, i: int, k: int, z: int, them: u32)
    requires
        b.len() == 64,
        pt == ROOK || pt == BISHOP,
        0 <= i < 4,
        bb_has(ray(k, slider_dir(pt, i), 0), z),
        bb_has(crate::position::classic::game::snipers_of(b, color_set(b, them), k), z),
    ensures
        bb_has(color_set(b, them), z),
        bb_has(type_set(b, pt) | type_set(b, QUEEN), z),
{
    let d = slider_dir(pt, i);
    lemma_ray_beyond(k, d, 0, z);
    lemma_ray_coords(k, d, 0, z);
    assert forall|q: int| 0 <= q < 64 implies bb_has(0u64 & !sq_bit(k), q) == bb_has(0u64, q) by {
        lemma_has(0, !sq_bit(k), q);
    }
    lemma_sliding_agree(ROOK, k, 0u64 & !sq_bit(k), 0);
    lemma_sliding_agree(BISHOP, k, 0u64 & !sq_bit(k), 0);
    let ar = attacks_spec(ROOK, k, 0);
    let ab = attacks_spec(BISHOP, k, 0);
    let qr = type_set(b, QUEEN) | type_set(b, ROOK);
    let qb = type_set(b, QUEEN) | type_set(b, BISHOP);
    let cs = color_set(b, them);
    lemma_has((ar & qr) | (ab & qb), cs, z);
    lemma_has(ar & qr, ab & qb, z);
    lemma_has(ar, qr, z);
    lemma_has(ab, qb, z);
    lemma_has(type_set(b, QUEEN), type_set(b, ROOK), z);
    lemma_has(type_set(b, QUEEN), type_set(b, BISHOP), z);
    lemma_has(type_set(b, pt), type_set(b, QUEEN), z);
    if pt == ROOK && bb_has(ab, z) {
        let j = lemma_sliding_pick(BISHOP, k, 0, z);
        lemma_ray_coords(k, slider_dir(BISHOP, j), 0, z);
    }
    if pt == BISHOP && bb_has(ar, z) {
        lemma_rook_lines(k, z);
    }
}

/// Walking the ray from `k` toward `y`: when every occupied square on the way up to `y`
/// holds an enemy slider of the ray's kind and `y` is occupied, the first occupied square
/// attacks `k`.
proof fn lemma_pin_walk(b2: Seq<Piece>, pt: u32, i: int, k: int, y: int, z: int, them: u32)
    requires
        b2.len() == 64,
        pt == ROOK || pt == BISHOP,
        0 <= i < 4,
        bb_has(ray(k, slider_dir(pt, i), type_set(b2, 0) & !sq_bit(k)), z),
        bb_has(ray(k, slider_dir(pt, i), 0), z),
        bb_has(type_set(b2, 0), y),
        z == y || bb_has(ray(z, slider_dir(pt, i), 0), y),
        forall|q: int|
            bb_has(ray(k, slider_dir(pt, i), 0), q) && (q == y || bb_has(ray(q, slider_dir(pt, i), 0), y))
                && #[trigger] bb_has(type_set(b2, 0), q) ==> bb_has(color_set(b2, them), q) && bb_has(
                type_set(b2, pt) | type_set(b2, QUEEN),
                q,
            ),
    ensures
        attackers_spec(b2, k, type_set(b2, 0)) & color_set(b2, them) != 0,
    decreases (if slider_dir(pt, i) > 0 { y - z } else { z - y }),
{
    let d = slider_dir(pt, i);
    let occ2 = type_set(b2, 0);
    let o = occ2 & !sq_bit(k);
    lemma_ray_beyond(k, d, o, z);
    if bb_has(occ2, z) {
        lemma_sliding_has_occ(pt, k, o, i, z);
        let att = attackers_spec(b2, k, occ2);
        let pw = crate::attacks::pawn_attacks_spec(BLACK, sq_bit(k));
        let pb = crate::attacks::pawn_attacks_spec(WHITE, sq_bit(k));
        let e1 = pw & piece_set(b2, WHITE, PAWN);
        let e2 = pb & piece_set(b2, BLACK, PAWN);
        let e3 = attacks_spec(KNIGHT, k, occ2) & type_set(b2, KNIGHT);
        let e4 = attacks_spec(ROOK, k, occ2) & (type_set(b2, ROOK) | type_set(b2, QUEEN));
        let e5 = attacks_spec(BISHOP, k, occ2) & (type_set(b2, BISHOP) | type_set(b2, QUEEN));
        let e6 = attacks_spec(KING, k, occ2) & type_set(b2, KING);
        lemma_has(attacks_spec(ROOK, k, occ2), type_set(b2, ROOK) | type_set(b2, QUEEN), z);
        lemma_has(attacks_spec(BISHOP, k, occ2), type_set(b2, BISHOP) | type_set(b2, QUEEN), z);
        assert(att == e1 | e2 | e3 | e4 | e5 | e6);
        lemma_has(e1 | e2 | e3 | e4 | e5, e6, z);
        lemma_has(e1 | e2 | e3 | e4, e5, z);
        lemma_has(e1 | e2 | e3, e4, z);
        lemma_has(att, color_set(b2, them), z);
        lemma_has(0, 0, z);
    } else {
        lemma_ray_beyond(z, d, 0, y);
        lemma_has(occ2, !sq_bit(k), z);
        lemma_has(0, 0, z);
        lemma_ray_extend(k, d, o, z);
        lemma_ray_extend(k, d, 0, z);
        lemma_has(sq_bit(z + d), ray(z + d, d, 0), y);
        lemma_has_sq(z + d, y);
        if y != z + d {
            lemma_ray_beyond(z + d, d, 0, y);
        }
        lemma_pin_walk(b2, pt, i, k, y, z + d, them);
    }
}

/// Law: a move other than a king move, an en passant capture or castling that leaves the
/// mover's king attacked by no piece of the other side on the board after the move is
/// legal. In particular a pinned piece may move along the line of the pin, up to and
/// including the capture of its pinner.
#[verifier::rlimit(40)]
pub proof fn lemma_safe_king_after_legal(pos: Position, m: Move)
    requires
        pos.wf(),
        check_info_current(pos),
        move_fits(pos.board_spec(), m, pos.side_spec().0),
        m.type_spec() == NORMAL || m.type_spec() == PROMOTION,
        pos.board_spec()[m.from_spec() as int].0 & 7 != KING,
        attackers_spec(
            board_after(pos.board_spec(), m, pos.side_spec().0),
            king_sq(pos.board_spec(), pos.side_spec().0),
            type_set(board_after(pos.board_spec(), m, pos.side_spec().0), 0),
        ) & color_set(board_after(pos.board_spec(), m, pos.side_spec().0), (1 - pos.side_spec().0) as u32) == 0,
    ensures
        legal_spec(pos, m),
{
    let b = pos.board_spec();
    let us = pos.side_spec().0;
    let them = (1 - us) as u32;
    let st = pos.st_spec();
    let from = m.from_spec() as int;
    let to = m.to_spec() as int;
    let b2 = board_after(b, m, us);
    let k = king_sq(b, us);
    let occ = type_set(b, 0);
    let occ2 = type_set(b2, 0);
    if bb_has(st.blockers_for_king[us as int].0, from) && !bb_has(line_spec(from, to), k) {
        assert(st.blockers_for_king[us as int].0 == king_blockers(b, us));
        if piece_set(b, us, KING) == 0 {
            lemma_has(0, 0, from);
        }
        let ks = piece_set(b, us, KING);
        axiom_u64_trailing_zeros(ks);
        assert(bb_has(ks, k));
        let sn = snipers_of(b, color_set(b, them), k);
        let occs = occ ^ sn;
        let y = lemma_blocker_witness(sn, k, occs, 64, from);
        let bb = between_spec(k, y) & occs;
        if !(bb != 0 && bb & ((bb - 1) as u64) == 0) {
            lemma_has(0, 0, from);
        }
        lemma_has(between_spec(k, y), occs, from);
        // The sniper `y` lies on a ray from the king.
        assert forall|q: int| 0 <= q < 64 implies bb_has(0u64 & !sq_bit(k), q) == bb_has(0u64, q) by {
            lemma_has(0, !sq_bit(k), q);
        }
        lemma_sliding_agree(ROOK, k, 0u64 & !sq_bit(k), 0);
        lemma_sliding_agree(BISHOP, k, 0u64 & !sq_bit(k), 0);
        let ar = attacks_spec(ROOK, k, 0);
        let ab = attacks_spec(BISHOP, k, 0);
        let qr = type_set(b, QUEEN) | type_set(b, ROOK);
        let qb = type_set(b, QUEEN) | type_set(b, BISHOP);
        lemma_has((ar & qr) | (ab & qb), color_set(b, them), y);
        lemma_has(ar & qr, ab & qb, y);
        lemma_has(ar, qr, y);
        lemma_has(ab, qb, y);
        let pt: u32 = if bb_has(ar, y) { ROOK } else { BISHOP };
        let i = lemma_sliding_pick(pt, k, 0, y);
        let d = slider_dir(pt, i);
        lemma_ray_beyond(k, d, 0, y);
        lemma_sniper_kind(b, pt, i, k, y, them);
        // `y` is occupied, so it is no square of `occs`; the blocker is not `y`.
        lemma_has(type_set(b, pt), type_set(b, QUEEN), y);
        lemma_sel_has(b, type_pred(pt), y);
        lemma_sel_has(b, type_pred(QUEEN), y);
        lemma_sel_has(b, occupied_pred(), y);
        lemma_has(occ, sn, y);
        lemma_has(between_spec(k, y), occs, y);
        assert(from != y);
        lemma_between_on_ray(pt, i, k, y, from);
        // The destination is off the ray: otherwise the move would stay on the king's line.
        if bb_has(ray(k, d, 0), to) {
            lemma_ray_line(pt, i, k, from, to);
        }
        assert(b2 == b.update(from, Piece(0)).update(to, b2[to]));
        lemma_sel_has(b2, occupied_pred(), y);
        assert forall|q: int|
            bb_has(ray(k, d, 0), q) && (q == y || bb_has(ray(q, d, 0), y)) && #[trigger] bb_has(occ2, q) implies bb_has(
            color_set(b2, them),
            q,
        ) && bb_has(type_set(b2, pt) | type_set(b2, QUEEN), q) by {
            lemma_sel_has(b2, occupied_pred(), q);
            lemma_sel_has(b, occupied_pred(), q);
            assert(q != to && q != from);
            assert(b2[q] == b[q]);
            if q != y {
                lemma_between_has(pt, i, k, y, q);
                lemma_has(occ, sn, q);
                lemma_has(between_spec(k, y), occs, q);
                if !bb_has(sn, q) {
                    lemma_single_bit(bb, from as u64, q as u64);
                }
            }
            lemma_sniper_kind(b, pt, i, k, q, them);
            lemma_has(type_set(b, pt), type_set(b, QUEEN), q);
            lemma_has(type_set(b2, pt), type_set(b2, QUEEN), q);
            lemma_sel_has(b, type_pred(pt), q);
            lemma_sel_has(b2, type_pred(pt), q);
            lemma_sel_has(b, type_pred(QUEEN), q);
            lemma_sel_has(b2, type_pred(QUEEN), q);
            lemma_sel_has(b, color_pred(them), q);
            lemma_sel_has(b2, color_pred(them), q);
        }
        // The walk starts on the first square of the ray.
        let o = occ2 & !sq_bit(k);
        lemma_has(occ2, !sq_bit(k), k);
        lemma_has(sq_bit(k), 0, k);
        lemma_has_sq(k, k);
        lemma_has(0, 0, k);
        lemma_has(sq_bit(k + d), ray(k + d, d, o), k + d);
        lemma_has(sq_bit(k + d), ray(k + d, d, 0), k + d);
        lemma_has(sq_bit(k + d), ray(k + d, d, 0), y);
        lemma_has_sq(k + d, k + d);
        lemma_has_sq(k + d, y);
        lemma_pin_walk(b2, pt, i, k, y, k + d, them);
    }
}

/// A ray reaches `x` under other blockers when the start and every square before `x` are
/// free of them.
proof fn lemma_ray_reach_prefix(s: int, d: int, a: u64, c: u64, x: int)
    requires
        bb_has(ray(s, d, a), x),
        !bb_has(c, s),
        forall|q: int|
            #[trigger] bb_has(ray(s, d, 0), q) && (d > 0 ==> q < x) && (d < 0 ==> q > x) ==> !bb_has(c, q),
    ensures
        bb_has(ray(s, d, c), x),
    decreases (if d > 0 { 64 - s } else { s + 1 }),
{
    lemma_ray_beyond(s, d, a, x);
    lemma_has(0, 0, s);
    lemma_has(sq_bit(s + d), ray(s + d, d, a), x);
    lemma_has(sq_bit(s + d), ray(s + d, d, c), x);
    lemma_has_sq(s + d, x);
    if x != s + d {
        lemma_ray_beyond(s + d, d, a, x);
        assert(ray(s, d, 0) == sq_bit(s + d) | ray(s + d, d, 0));
        lemma_has(sq_bit(s + d), ray(s + d, d, 0), s + d);
        lemma_has_sq(s + d, s + d);
        assert forall|q: int|
            #[trigger] bb_has(ray(s + d, d, 0), q) && (d > 0 ==> q < x) && (d < 0 ==> q > x) implies !bb_has(c, q) by {
            lemma_has(sq_bit(s + d), ray(s + d, d, 0), q);
        }
        lemma_ray_reach_prefix(s + d, d, a, c, x);
    }
}

/// The pieces of `b` attacking square `k` include a piece on `x` of type `pt` (rook or
/// bishop) or a queen, when a ray of that type from `k` reaches `x`.
proof fn lemma_slider_attacker(b: Seq<Piece>, pt: u32, k: int, x: int)
    requires
        b.len() == 64,
        pt == ROOK || pt == BISHOP,
        0 <= x < 64,
        bb_has(attacks_spec(pt, k, type_set(b, 0)), x),
        b[x].0 & 7 == pt || b[x].0 & 7 == QUEEN,
        b[x].0 != 0,
    ensures
        bb_has(attackers_spec(b, k, type_set(b, 0)), x),
{
    let occ = type_set(b, 0);
    lemma_sel_has(b, type_pred(pt), x);
    lemma_sel_has(b, type_pred(QUEEN), x);
    let pw = crate::attacks::pawn_attacks_spec(BLACK, sq_bit(k));
    let pb = crate::attacks::pawn_attacks_spec(WHITE, sq_bit(k));
    let e1 = pw & piece_set(b, WHITE, PAWN);
    let e2 = pb & piece_set(b, BLACK, PAWN);
    let e3 = attacks_spec(KNIGHT, k, occ) & type_set(b, KNIGHT);
    let e4 = attacks_spec(ROOK, k, occ) & (type_set(b, ROOK) | type_set(b, QUEEN));
    let e5 = attacks_spec(BISHOP, k, occ) & (type_set(b, BISHOP) | type_set(b, QUEEN));
    let e6 = attacks_spec(KING, k, occ) & type_set(b, KING);
    lemma_has(type_set(b, ROOK), type_set(b, QUEEN), x);
    lemma_has(type_set(b, BISHOP), type_set(b, QUEEN), x);
    lemma_has(attacks_spec(ROOK, k, occ), type_set(b, ROOK) | type_set(b, QUEEN), x);
    lemma_has(attacks_spec(BISHOP, k, occ), type_set(b, BISHOP) | type_set(b, QUEEN), x);
    assert(attackers_spec(b, k, occ) == e1 | e2 | e3 | e4 | e5 | e6);
    lemma_has(e1 | e2 | e3 | e4 | e5, e6, x);
    lemma_has(e1 | e2 | e3 | e4, e5, x);
    lemma_has(e1 | e2 | e3, e4, x);
}

/// A slider that attacks the enemy king from its destination after a normal move attacked
/// it from there before the move too, the king of the other side not being in check.
proof fn lemma_slider_check_before(pos: Position, m: Move, pt: u32)
    requires
        pos.wf(),
        move_fits(pos.board_spec(), m, pos.side_spec().0),
        m.type_spec() == NORMAL,
        pt == ROOK || pt == BISHOP,
        pos.board_spec()[m.from_spec() as int].0 & 7 == pt || pos.board_spec()[m.from_spec() as int].0 & 7 == QUEEN,
        piece_set(pos.board_spec(), (1 - pos.side_spec().0) as u32, KING) != 0,
        attackers_spec(
            pos.board_spec(),
            king_sq(pos.board_spec(), (1 - pos.side_spec().0) as u32),
            type_set(pos.board_spec(), 0),
        ) & color_set(pos.board_spec(), pos.side_spec().0) == 0,
        bb_has(
            attacks_spec(
                pt,
                king_sq(pos.board_spec(), (1 - pos.side_spec().0) as u32),
                type_set(board_after(pos.board_spec(), m, pos.side_spec().0), 0),
            ),
            m.to_spec() as int,
        ),
    ensures
        bb_has(
            attacks_spec(pt, king_sq(pos.board_spec(), (1 - pos.side_spec().0) as u32), type_set(pos.board_spec(), 0)),
            m.to_spec() as int,
        ),
{
    let b = pos.board_spec();
    let us = pos.side_spec().0;
    let them = (1 - us) as u32;
    let from = m.from_spec() as int;
    let to = m.to_spec() as int;
    let b2 = board_after(b, m, us);
    let k = king_sq(b, them);
    let occ = type_set(b, 0);
    let occ2 = type_set(b2, 0);
    let ks = piece_set(b, them, KING);
    axiom_u64_trailing_zeros(ks);
    assert(bb_has(ks, k));
    assert(b2 == b.update(from, Piece(0)).update(to, b[from]));
    let a = occ2 & !sq_bit(k);
    let c = occ & !sq_bit(k);
    let i = lemma_sliding_pick(pt, k, a, to);
    let d = slider_dir(pt, i);
    lemma_ray_beyond(k, d, a, to);
    lemma_has(occ, !sq_bit(k), k);
    lemma_has(sq_bit(k), 0, k);
    lemma_has_sq(k, k);
    // Before the destination, the squares free after the move were free before it, but
    // for the origin.
    assert forall|q: int|
        #[trigger] bb_has(ray(k, d, 0), q) && (d > 0 ==> q < to) && (d < 0 ==> q > to) && q != from implies !bb_has(
        c,
        q,
    ) by {
        lemma_ray_sub(k, d, a, to);
        lemma_ray_blocked(k, d, a, to, q);
        lemma_ray_beyond(k, d, 0, q);
        lemma_has(occ2, !sq_bit(k), q);
        lemma_has(occ, !sq_bit(k), q);
        lemma_sel_has(b2, occupied_pred(), q);
        lemma_sel_has(b, occupied_pred(), q);
    }
    lemma_ray_sub(k, d, a, to);
    if bb_has(ray(k, d, 0), from) && (d > 0 ==> from < to) && (d < 0 ==> from > to) {
        // The mover would have attacked the king from its origin already.
        assert forall|q: int|
            #[trigger] bb_has(ray(k, d, 0), q) && (d > 0 ==> q < from) && (d < 0 ==> q > from) implies !bb_has(c, q) by {
        }
        lemma_ray_reach_prefix(k, d, 0, c, from);
        lemma_sliding_has_occ(pt, k, c, i, from);
        lemma_piece_code(b[from].0, b[from].0 >> 3, b[from].0 & 7);
        lemma_slider_attacker(b, pt, k, from);
        lemma_sel_has(b, color_pred(us), from);
        lemma_has(attackers_spec(b, k, occ), color_set(b, us), from);
        lemma_has(0, 0, from);
    } else {
        assert forall|q: int|
            #[trigger] bb_has(ray(k, d, 0), q) && (d > 0 ==> q < to) && (d < 0 ==> q > to) implies !bb_has(c, q) by {
            if q == from {
            }
        }
        lemma_ray_reach_prefix(k, d, a, c, to);
        lemma_sliding_has_occ(pt, k, c, i, to);
    }
}

/// Law: a normal move gives check whenever the moved piece (not a king) attacks the king of
/// the other side on the board after the move, that king not being in check before it.
#[verifier::rlimit(40)]
pub proof fn lemma_direct_check(pos: Position, m: Move)
    requires
        pos.wf(),
        check_info_current(pos),
        move_fits(pos.board_spec(), m, pos.side_spec().0),
        m.type_spec() == NORMAL,
        pos.board_spec()[m.from_spec() as int].0 & 7 != KING,
        piece_set(pos.board_spec(), (1 - pos.side_spec().0) as u32, KING) != 0,
        attackers_spec(
            pos.board_spec(),
            king_sq(pos.board_spec(), (1 - pos.side_spec().0) as u32),
            type_set(pos.board_spec(), 0),
        ) & color_set(pos.board_spec(), pos.side_spec().0) == 0,
        bb_has(
            attackers_spec(
                board_after(pos.board_spec(), m, pos.side_spec().0),
                king_sq(pos.board_spec(), (1 - pos.side_spec().0) as u32),
                type_set(board_after(pos.board_spec(), m, pos.side_spec().0), 0),
            ) & color_set(board_after(pos.board_spec(), m, pos.side_spec().0), pos.side_spec().0),
            m.to_spec() as int,
        ),
    ensures
        gives_check_spec(pos, m),
{
    let b = pos.board_spec();
    let us = pos.side_spec().0;
    let them = (1 - us) as u32;
    let st = pos.st_spec();
    let from = m.from_spec() as int;
    let to = m.to_spec() as int;
    let b2 = board_after(b, m, us);
    let k = king_sq(b, them);
    let occ2 = type_set(b2, 0);
    let pt = b[from].0 & 7;
    assert(b2 == b.update(from, Piece(0)).update(to, b[from]));
    lemma_piece_code(b[from].0, b[from].0 >> 3, b[from].0 & 7);
    let cs = st.check_squares[pt as int].0;
    assert(cs == check_squares_spec(b, them, pt as int));
    let att = attackers_spec(b2, k, occ2);
    lemma_has(att, color_set(b2, us), to);
    lemma_sel_has(b2, type_pred(PAWN), to);
    lemma_sel_has(b2, type_pred(KNIGHT), to);
    lemma_sel_has(b2, type_pred(BISHOP), to);
    lemma_sel_has(b2, type_pred(ROOK), to);
    lemma_sel_has(b2, type_pred(QUEEN), to);
    lemma_sel_has(b2, type_pred(KING), to);
    lemma_sel_has(b2, color_pred(WHITE), to);
    lemma_sel_has(b2, color_pred(BLACK), to);
    let wp = piece_set(b2, WHITE, PAWN);
    let bp = piece_set(b2, BLACK, PAWN);
    lemma_has(color_set(b2, WHITE), type_set(b2, PAWN), to);
    lemma_has(color_set(b2, BLACK), type_set(b2, PAWN), to);
    let pw = crate::attacks::pawn_attacks_spec(BLACK, sq_bit(k));
    let pb = crate::attacks::pawn_attacks_spec(WHITE, sq_bit(k));
    let kn = attacks_spec(KNIGHT, k, occ2);
    let rk = attacks_spec(ROOK, k, occ2);
    let bs = attacks_spec(BISHOP, k, occ2);
    let kg = attacks_spec(KING, k, occ2);
    let rq = type_set(b2, ROOK) | type_set(b2, QUEEN);
    let bq = type_set(b2, BISHOP) | type_set(b2, QUEEN);
    lemma_has(type_set(b2, ROOK), type_set(b2, QUEEN), to);
    lemma_has(type_set(b2, BISHOP), type_set(b2, QUEEN), to);
    let e1 = pw & wp;
    let e2 = pb & bp;
    let e3 = kn & type_set(b2, KNIGHT);
    let e4 = rk & rq;
    let e5 = bs & bq;
    let e6 = kg & type_set(b2, KING);
    lemma_has(pw, wp, to);
    lemma_has(pb, bp, to);
    lemma_has(kn, type_set(b2, KNIGHT), to);
    lemma_has(rk, rq, to);
    lemma_has(bs, bq, to);
    lemma_has(kg, type_set(b2, KING), to);
    assert(att == e1 | e2 | e3 | e4 | e5 | e6);
    lemma_has(e1 | e2 | e3 | e4 | e5, e6, to);
    lemma_has(e1 | e2 | e3 | e4, e5, to);
    lemma_has(e1 | e2 | e3, e4, to);
    lemma_has(e1 | e2, e3, to);
    lemma_has(e1, e2, to);
    if pt == ROOK || (pt == QUEEN && bb_has(e4, to)) {
        lemma_slider_check_before(pos, m, ROOK);
    }
    if pt == BISHOP || (pt == QUEEN && bb_has(e5, to)) {
        lemma_slider_check_before(pos, m, BISHOP);
    }
    if pt == QUEEN {
        lemma_has(attacks_spec(BISHOP, k, type_set(b, 0)), attacks_spec(ROOK, k, type_set(b, 0)), to);
    }
}

} // verus!
