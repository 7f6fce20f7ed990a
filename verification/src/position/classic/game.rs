//! Making and unmaking moves on the classic position, and the legality and check
//! tests of a move.

use vstd::prelude::*;
use vstd::std_specs::bits::u64_trailing_zeros;
use crate::attacks::{sq_bit, pawn_attacks_spec};
use crate::attacks::attack_bb::{attacks_bb, pawn_attacks_bb, pseudo_attacks, between_bb, aligned, attacks_spec,
    line_spec, between_spec};
use crate::types::bitboard::bb_has;
use crate::position::classic::inline::{type_set, color_set, attackers_spec};
use crate::psqt;
use crate::types::bitboard::{Bitboard, more_than_one, pop_lsb};
use crate::types::moves::{Move, CastlingRight, NORMAL, PROMOTION, EN_PASSANT, CASTLING};
use crate::types::piece::{Color, Piece, PieceType, PAWN, KNIGHT, BISHOP, ROOK, QUEEN, KING, WHITE, BLACK};
use crate::types::square::{Square, relative_square};
use crate::zobrist::Zobrist;
use crate::position::classic::{Position, StateInfo, valid_piece, entry_ok, pieces_key, pieces_psq};
use crate::position::classic::inline::piece_set;

verus! {

/// Square `s` seen from side `us`: itself for white, its rank flipped for black.
pub open spec fn rel_sq(us: u32, s: int) -> int {
    if us == 0 { s } else { 8 * (7 - s / 8) + s % 8 }
}

/// The step of a pawn push of side `us`.
pub open spec fn push_dir(us: u32) -> int {
    if us == 0 { 8 } else { -8 }
}

/// Where the king ends a castling from `from` with the rook on `to`: g1 or c1 (for `us`).
pub open spec fn castle_king_to(us: u32, from: int, to: int) -> int {
    rel_sq(us, if to > from { 6 } else { 2 })
}

/// Where the rook ends a castling from `from` with the rook on `to`: f1 or d1 (for `us`).
pub open spec fn castle_rook_to(us: u32, from: int, to: int) -> int {
    rel_sq(us, if to > from { 5 } else { 3 })
}

/// The piece of color `c` and type `t`.
pub open spec fn pc_of(c: u32, t: u32) -> Piece {
    Piece((8 * c + t) as u32)
}

/// The promotion piece type of `m`.
pub open spec fn promo_of(m: Move) -> u32 {
    ((m.0 / 4096) % 4 + KNIGHT) as u32
}

/// Move `m` can be made by side `us` on mailbox `b`: origin and destination differ, the
/// mover is a piece of `us`; a normal move or promotion lands on an empty square or on
/// an enemy piece other than the king, and a promotion moves a pawn; an en passant
/// capture moves a pawn of `us` to an empty square behind an enemy pawn; castling moves
/// the king of `us` onto a rook of `us`, the squares where they end being empty unless
/// they are the king's or the rook's.
pub open spec fn move_fits(b: Seq<Piece>, m: Move, us: u32) -> bool {
    let from = m.from_spec() as int;
    let to = m.to_spec() as int;
    let t = m.type_spec();
    let pc = b[from];
    &&& b.len() == 64
    &&& us < 2
    &&& from != to
    &&& valid_piece(pc.0) && pc.0 >> 3 == us
    &&& (t == NORMAL || t == PROMOTION) ==> (b[to].0 == 0 || (valid_piece(b[to].0) && b[to].0 >> 3 != us
        && b[to].0 & 7 != KING))
    &&& t == PROMOTION ==> pc.0 & 7 == PAWN && from / 8 == (if us == 0 { 6int } else { 1 }) && to / 8 == (if us == 0 {
        7int
    } else {
        0
    })
    &&& t == EN_PASSANT ==> {
        let cap = to - push_dir(us);
        &&& pc == pc_of(us, PAWN)
        &&& 0 <= cap < 64
        &&& cap != from
        &&& b[cap] == pc_of((1 - us) as u32, PAWN)
        &&& b[to].0 == 0
    }
    &&& t == CASTLING ==> {
        let kto = castle_king_to(us, from, to);
        let rto = castle_rook_to(us, from, to);
        &&& pc == pc_of(us, KING)
        &&& b[to] == pc_of(us, ROOK)
        &&& from / 8 == to / 8
        &&& from / 8 == (if us == 0 { 0int } else { 7 })
        &&& (kto == from || kto == to || b[kto].0 == 0)
        &&& (rto == from || rto == to || b[rto].0 == 0)
    }
}

/// The piece that move `m` by `us` captures on mailbox `b` (0 for none; castling
/// captures nothing).
pub open spec fn captured_spec(b: Seq<Piece>, m: Move, us: u32) -> Piece {
    let t = m.type_spec();
    if t == CASTLING {
        Piece(0)
    } else if t == EN_PASSANT {
        pc_of((1 - us) as u32, PAWN)
    } else {
        b[m.to_spec() as int]
    }
}

/// The mailbox after move `m` by `us`: the mover leaves its origin for the destination
/// (as the promotion piece for a promotion), an en passant capture empties the square
/// behind the destination, and castling puts king and rook on their castled squares.
pub open spec fn board_after(b: Seq<Piece>, m: Move, us: u32) -> Seq<Piece> {
    let from = m.from_spec() as int;
    let to = m.to_spec() as int;
    let t = m.type_spec();
    let pc = b[from];
    if t == CASTLING {
        b.update(from, Piece(0)).update(to, Piece(0)).update(castle_king_to(us, from, to), pc_of(us, KING)).update(
            castle_rook_to(us, from, to),
            pc_of(us, ROOK),
        )
    } else if t == EN_PASSANT {
        b.update(to - push_dir(us), Piece(0)).update(from, Piece(0)).update(to, pc)
    } else if t == PROMOTION {
        b.update(from, Piece(0)).update(to, pc_of(us, promo_of(m)))
    } else {
        b.update(from, Piece(0)).update(to, pc)
    }
}

/// Move `m`, made by `us` and capturing `captured`, can be taken back on mailbox `b`: the
/// mover stands on the destination (a piece of `us`), its origin is empty; for en passant
/// the captured pawn's square is empty and in range; for castling king and rook stand on
/// their castled squares and nothing else stands on the king's and rook's origins.
pub open spec fn undo_fits(b: Seq<Piece>, m: Move, us: u32, captured: Piece) -> bool {
    let from = m.from_spec() as int;
    let to = m.to_spec() as int;
    let t = m.type_spec();
    &&& b.len() == 64
    &&& us < 2
    &&& from != to
    &&& (captured.0 == 0 || valid_piece(captured.0))
    &&& t != CASTLING ==> valid_piece(b[to].0) && b[to].0 >> 3 == us && b[from].0 == 0
    &&& t == EN_PASSANT ==> {
        let cap = to - push_dir(us);
        &&& 0 <= cap < 64
        &&& cap != from
        &&& b[cap].0 == 0
        &&& valid_piece(captured.0)
    }
    &&& t == CASTLING ==> {
        let kto = castle_king_to(us, from, to);
        let rto = castle_rook_to(us, from, to);
        &&& b[kto] == pc_of(us, KING)
        &&& b[rto] == pc_of(us, ROOK)
        &&& (from == kto || from == rto || b[from].0 == 0)
        &&& (to == kto || to == rto || b[to].0 == 0)
    }
}

/// The mailbox after taking back move `m` by `us` that captured `captured`.
pub open spec fn board_before(b: Seq<Piece>, m: Move, us: u32, captured: Piece) -> Seq<Piece> {
    let from = m.from_spec() as int;
    let to = m.to_spec() as int;
    let t = m.type_spec();
    if t == CASTLING {
        b.update(castle_king_to(us, from, to), Piece(0)).update(castle_rook_to(us, from, to), Piece(0)).update(
            from,
            pc_of(us, KING),
        ).update(to, pc_of(us, ROOK))
    } else if t == EN_PASSANT {
        b.update(from, b[to]).update(to, Piece(0)).update(to - push_dir(us), captured)
    } else if t == PROMOTION {
        b.update(from, pc_of(us, PAWN)).update(to, captured)
    } else {
        b.update(from, b[to]).update(to, captured)
    }
}

/// A move type is one of the four kinds.
pub proof fn lemma_move_type(m: Move)
    ensures
        m.type_spec() == NORMAL || m.type_spec() == PROMOTION || m.type_spec() == EN_PASSANT
            || m.type_spec() == CASTLING,
{
    let x = m.0;
    assert(x & 0xc000 == 0 || x & 0xc000 == 0x4000 || x & 0xc000 == 0x8000 || x & 0xc000 == 0xc000) by (bit_vector);
}

proof fn lemma_castle_squares(us: u32, from: int, to: int)
    requires
        us < 2,
    ensures
        0 <= castle_king_to(us, from, to) < 64,
        0 <= castle_rook_to(us, from, to) < 64,
        castle_king_to(us, from, to) != castle_rook_to(us, from, to),
{
}

/// Taking back a move restores the mailbox it was made on: a move that fits can be
/// taken back on the mailbox it leaves, with the piece it captured, and doing so gives
/// back the mailbox from before the move.
pub proof fn lemma_undo_after_do(b: Seq<Piece>, m: Move, us: u32)
    requires
        move_fits(b, m, us),
    ensures
        undo_fits(board_after(b, m, us), m, us, captured_spec(b, m, us)),
        board_before(board_after(b, m, us), m, us, captured_spec(b, m, us)) =~= b,
{
    let from = m.from_spec() as int;
    let to = m.to_spec() as int;
    let t = m.type_spec();
    let a = board_after(b, m, us);
    lemma_castle_squares(us, from, to);
    lemma_move_type(m);
    assert(0 <= from < 64 && 0 <= to < 64);
    if t == CASTLING {
        let kto = castle_king_to(us, from, to);
        let rto = castle_rook_to(us, from, to);
        let r = board_before(a, m, us, Piece(0));
        assert forall|i: int| 0 <= i < 64 implies r[i] == b[i] by {
            if i == to {
            } else if i == from {
            } else if i == rto {
            } else if i == kto {
            } else {
            }
        }
        assert(a[kto] == pc_of(us, KING));
        assert(a[rto] == pc_of(us, ROOK));
        assert(from == kto || from == rto || a[from].0 == 0);
        assert(to == kto || to == rto || a[to].0 == 0);
        assert(undo_fits(a, m, us, captured_spec(b, m, us)));
    } else if t == EN_PASSANT {
        let cap = to - push_dir(us);
        let r = board_before(a, m, us, captured_spec(b, m, us));
        assert forall|i: int| 0 <= i < 64 implies r[i] == b[i] by {
            if i == cap {
            } else if i == to {
            } else if i == from {
            } else {
            }
        }
        assert(a[to] == b[from]);
        assert(a[from].0 == 0);
        assert(a[cap].0 == 0);
        assert(valid_piece(captured_spec(b, m, us).0));
        assert(undo_fits(a, m, us, captured_spec(b, m, us)));
    } else if t == PROMOTION {
        let r = board_before(a, m, us, captured_spec(b, m, us));
        let pcb = b[from];
        let v = pcb.0;
        assert(valid_piece(v) && v >> 3 == us && v & 7 == PAWN && us < 2 ==> v == 8 * us + PAWN) by (bit_vector);
        assert forall|i: int| 0 <= i < 64 implies r[i] == b[i] by {
            if i == to {
            } else if i == from {
            } else {
            }
        }
        let p = promo_of(m);
        assert(KNIGHT <= p <= 5);
        let pv = (8 * us + p) as u32;
        assert(us < 2 && 2 <= p <= 5 && pv == 8 * us + p ==> (pv >> 3 == us && 1 <= pv & 7 <= 6)) by (bit_vector);
        assert(valid_piece(pv));
        assert(a[to] == pc_of(us, p));
        assert(a[from].0 == 0);
        assert(undo_fits(a, m, us, captured_spec(b, m, us)));
    } else {
        let r = board_before(a, m, us, captured_spec(b, m, us));
        assert forall|i: int| 0 <= i < 64 implies r[i] == b[i] by {
            if i == to {
            } else if i == from {
            } else {
            }
        }
    }
}

/// The pieces shielding the king of color `c` on `b` from the sliders of the other color
/// (none without a king).
pub open spec fn king_blockers(b: Seq<Piece>, c: u32) -> u64 {
    if piece_set(b, c, KING) != 0 {
        let ksq = king_sq(b, c);
        let sn = snipers_of(b, color_set(b, (1 - c) as u32), ksq);
        blockers_upto(sn, ksq, type_set(b, 0) ^ sn, 64)
    } else {
        0
    }
}

/// The sliders of the other color pinning a piece of color `c` to its king (none
/// without a king).
pub open spec fn king_pinners(b: Seq<Piece>, c: u32) -> u64 {
    if piece_set(b, c, KING) != 0 {
        let ksq = king_sq(b, c);
        let sn = snipers_of(b, color_set(b, (1 - c) as u32), ksq);
        pinners_upto(sn, ksq, type_set(b, 0) ^ sn, own_of(b, ksq), 64)
    } else {
        0
    }
}

/// The squares from which a piece of type `pt` checks the king of color `c` on `b`.
pub open spec fn check_squares_spec(b: Seq<Piece>, c: u32, pt: int) -> u64 {
    let ksq = king_sq(b, c);
    let occ = type_set(b, 0);
    if pt == PAWN {
        pawn_attacks_spec(c, sq_bit(ksq))
    } else if pt == KNIGHT {
        attacks_spec(KNIGHT, ksq, 0)
    } else if pt == BISHOP {
        attacks_spec(BISHOP, ksq, occ)
    } else if pt == ROOK {
        attacks_spec(ROOK, ksq, occ)
    } else if pt == QUEEN {
        attacks_spec(BISHOP, ksq, occ) | attacks_spec(ROOK, ksq, occ)
    } else {
        0
    }
}

/// `st` holds the check information of `pos`: the blockers and pinners of both kings,
/// and the check squares of each piece type against the king of the side not to move
/// (all empty when that king is missing).
pub open spec fn check_info_of(pos: Position, st: StateInfo) -> bool {
    let b = pos.board_spec();
    let them = (1 - pos.side_spec().0) as u32;
    &&& st.blockers_for_king[0].0 == king_blockers(b, WHITE)
    &&& st.pinners[1].0 == king_pinners(b, WHITE)
    &&& st.blockers_for_king[1].0 == king_blockers(b, BLACK)
    &&& st.pinners[0].0 == king_pinners(b, BLACK)
    &&& forall|pt: int| PAWN <= pt <= KING ==> #[trigger] st.check_squares[pt].0 == (if piece_set(b, them, KING)
        != 0 {
        check_squares_spec(b, them, pt)
    } else {
        0
    })
}

/// The hash key of mailbox `b` with `side` to move, en passant square `ep` and castling
/// rights `cr`: the keys of the pieces, of the file of the en passant square, of black to
/// move and of the rights, combined by exclusive or.
pub open spec fn key_of(z: Zobrist, b: Seq<Piece>, side: u32, ep: Square, cr: CastlingRight) -> u64 {
    let k1 = pieces_key(z, b, 64);
    let k2 = if ep.0 != 64 { k1 ^ z.en_passant[(ep.0 % 8) as int] } else { k1 };
    let k3 = if side == BLACK { k2 ^ z.side } else { k2 };
    k3 ^ z.castling[cr.0 as int]
}

/// The hash key of `pos` (see `key_of`).
pub open spec fn position_key(pos: Position) -> u64 {
    key_of(pos.zobrist_spec(), pos.board_spec(), pos.side_spec().0, pos.st_spec().ep_square, pos.st_spec().castling_right)
}

/// The key of an en passant square (0 for none).
pub open spec fn ep_key(z: Zobrist, e: Square) -> u64 {
    if e.0 != 64 { z.en_passant[(e.0 % 8) as int] } else { 0 }
}

/// The key of piece `p` on square `s` (0 for an empty square).
pub open spec fn piece_key(z: Zobrist, p: Piece, s: int) -> u64 {
    if p.0 != 0 { z.psq[p.0 as int][s] } else { 0 }
}

/// The key after a move, updated from `key`: the side to move, the castling rook moved,
/// the piece captured, the piece moved from `m`'s origin to `to`, the en passant files
/// left and gained, the castling rights changed, and the promotion.
pub open spec fn move_key_spec(z: Zobrist, m: Move, key: u64, pc: Piece, rook: Piece, captured: Piece, to: Square,
    old_ep: Square, new_ep: Square, rights: Option<(CastlingRight, CastlingRight)>, promotion: Option<Piece>) -> u64 {
    let from = m.from_spec() as int;
    let to0 = m.to_spec() as int;
    let castle_t = if m.type_spec() == CASTLING {
        let us: u32 = if rook.0 >= 8 { 1 } else { 0 };
        let rto = rel_sq(us, if to0 > from { 5 } else { 3 });
        z.psq[rook.0 as int][to0] ^ z.psq[rook.0 as int][rto]
    } else {
        0
    };
    let capsq = if m.type_spec() == EN_PASSANT {
        if captured.0 >= 8 { to.0 - 8 } else { to.0 + 8 }
    } else {
        to.0 as int
    };
    let cap_t = if captured.0 != 0 && 0 <= capsq < 64 { z.psq[captured.0 as int][capsq] } else { 0 };
    let move_t = z.psq[pc.0 as int][from] ^ z.psq[pc.0 as int][to.0 as int];
    let rights_t = match rights {
        Some((a, b)) => z.castling[a.0 as int] ^ z.castling[b.0 as int],
        None => 0,
    };
    let promo_t = match promotion {
        Some(q) => z.psq[pc.0 as int][to.0 as int] ^ z.psq[q.0 as int][to.0 as int],
        None => 0,
    };
    key ^ z.side ^ castle_t ^ cap_t ^ move_t ^ ep_key(z, old_ep) ^ rights_t ^ ep_key(z, new_ep) ^ promo_t
}

/// The castling rights after a move touching squares with rights masks `mf` and `mt`:
/// those of `cr` not in either mask.
pub open spec fn rights_after(cr: CastlingRight, mf: CastlingRight, mt: CastlingRight) -> CastlingRight {
    if cr.0 != 0 && (mf.0 | mt.0) != 0 { CastlingRight(cr.0 & !(mf.0 | mt.0)) } else { cr }
}

/// The change of castling rights recorded for the key: the rights before and after, when
/// some were held and a mask was touched.
pub open spec fn rights_change(cr: CastlingRight, after: CastlingRight, mf: CastlingRight, mt: CastlingRight) -> Option<(
    CastlingRight,
    CastlingRight,
)> {
    if cr.0 != 0 && (mf.0 | mt.0) != 0 { Some((cr, after)) } else { None }
}

/// The en passant square after a pawn of `us` moved from `m`'s origin to `to` on the
/// mailbox `b` after the move: the square passed on a double step when an enemy pawn can
/// take there; none otherwise.
pub open spec fn ep_after(b: Seq<Piece>, m: Move, us: u32, pc: Piece, to: Square) -> Square {
    let from = m.from_spec();
    let fwd = if us == 0 { to.0 >= 8 } else { to.0 < 56 };
    let passed = if us == 0 { to.0 - 8 } else { to.0 + 8 };
    if pc.0 & 7 == PAWN && (to.0 ^ from) == 16 && fwd && pawn_attacks_spec(us, sq_bit(passed)) & piece_set(b, (1 - us)
        as u32, PAWN) != 0 {
        Square(passed as u32)
    } else {
        Square(64)
    }
}

/// The piece a move of `us` promotes to, when it is a promotion (no en passant square was
/// set).
pub open spec fn promotion_after(m: Move, us: u32, pc: Piece, ep: Square) -> Option<Piece> {
    if pc.0 & 7 == PAWN && ep.0 == 64 && m.type_spec() == PROMOTION {
        Some(Piece((8 * us + promo_of(m)) as u32))
    } else {
        None
    }
}

/// Exclusive-or facts used to follow keys through a move.
proof fn lemma_xor_facts(a: u64, x: u64, y: u64)
    by (bit_vector)
    ensures
        a ^ 0 == a,
        0 ^ a == a,
        a ^ a == 0,
        (a ^ x) ^ (x ^ y) == a ^ y,
        (a ^ x) ^ y == (a ^ y) ^ x,
{
}

/// The key of a move's result, rearranged for each kind of move.
proof fn lemma_key_identities(pk: u64, e0: u64, s0: u64, c0: u64, sd: u64, e1: u64, c1: u64, ct: u64, cap: u64, pf: u64,
    pt: u64, pr: u64, pk2: u64, qt: u64, r0: u64, rr: u64)
    by (bit_vector)
    ensures
        pk2 == pk ^ ct ^ cap ^ pf ^ pt ^ pr ==> (((pk ^ e0) ^ s0) ^ c0) ^ sd ^ ct ^ cap ^ (pf ^ pt) ^ e0 ^ (c0 ^ c1) ^ e1 ^ pr
            == ((pk2 ^ e1) ^ (s0 ^ sd)) ^ c1,
        (pk ^ (pf ^ 0)) ^ (cap ^ pt) == pk ^ 0 ^ cap ^ pf ^ pt ^ 0,
        (pk ^ (pf ^ 0)) ^ (cap ^ qt) == pk ^ 0 ^ cap ^ pf ^ pt ^ (pt ^ qt),
        ((pk ^ (cap ^ 0)) ^ (pf ^ 0)) ^ (0 ^ pt) == pk ^ 0 ^ cap ^ pf ^ pt ^ 0,
        (((pk ^ (pf ^ 0)) ^ (r0 ^ 0)) ^ (0 ^ pt)) ^ (0 ^ rr) == pk ^ (r0 ^ rr) ^ 0 ^ pf ^ pt ^ 0,
{
}

/// A promotion, from the seventh rank to the eighth (or the second to the first), is no
/// double pawn step.
proof fn lemma_promotion_not_double_step(f: u32, t: u32)
    by (bit_vector)
    ensures
        (f < 64 && t < 64 && ((f / 8 == 6 && t / 8 == 7) || (f / 8 == 1 && t / 8 == 0))) ==> (t ^ f) != 16,
{
}

/// Changing the piece on square `s` changes the key of the pieces by the keys of the old
/// and the new piece there.
proof fn lemma_pieces_key_update(z: Zobrist, b: Seq<Piece>, n: nat, s: int, p: Piece)
    requires
        n <= b.len(),
        0 <= s < b.len(),
    ensures
        pieces_key(z, b.update(s, p), n) == if s < n {
            pieces_key(z, b, n) ^ (piece_key(z, b[s], s) ^ piece_key(z, p, s))
        } else {
            pieces_key(z, b, n)
        },
    decreases n,
{
    if n > 0 {
        lemma_pieces_key_update(z, b, (n - 1) as nat, s, p);
        let b2 = b.update(s, p);
        let a = pieces_key(z, b, (n - 1) as nat);
        let w = piece_key(z, b[n - 1], n - 1);
        let x = piece_key(z, b[s], s);
        let y = piece_key(z, p, s);
        lemma_xor_facts(a, w, 0);
        lemma_xor_facts(a, x, y);
        assert(pieces_key(z, b, n) == a ^ w);
        if s == n - 1 {
            lemma_xor_facts(a, y, 0);
            assert(pieces_key(z, b2, n) == a ^ y);
        } else if s < n - 1 {
            let d = x ^ y;
            lemma_xor_facts(a, d, w);
            lemma_xor_facts(a ^ d, w, 0);
            assert(pieces_key(z, b2, n) == (a ^ d) ^ w);
        }
    }
}

/// The key kept up to date by a move is the key of the position it leads to, when the
/// key before was that of the position before.
proof fn lemma_key_after_move(z: Zobrist, b: Seq<Piece>, m: Move, us: u32, st0: StateInfo, st: StateInfo, to: Square,
    rook: Piece, mf: CastlingRight, mt: CastlingRight)
    requires
        move_fits(b, m, us),
        st0.ep_square.0 <= 64,
        st0.castling_right.0 < 16,
        to.0 == if m.type_spec() == CASTLING {
            castle_king_to(us, m.from_spec() as int, m.to_spec() as int)
        } else {
            m.to_spec() as int
        },
        rook == b[m.to_spec() as int],
        st.castling_right == rights_after(st0.castling_right, mf, mt),
        st.castling_right.0 < 16,
        st.ep_square == ep_after(board_after(b, m, us), m, us, b[m.from_spec() as int], to),
        st.key == move_key_spec(z, m, st0.key, b[m.from_spec() as int], rook, captured_spec(b, m, us), to, st0.ep_square,
            st.ep_square, rights_change(st0.castling_right, st.castling_right, mf, mt), promotion_after(m, us,
            b[m.from_spec() as int], st.ep_square)),
        st0.key == key_of(z, b, us, st0.ep_square, st0.castling_right),
    ensures
        st.key == key_of(z, board_after(b, m, us), (1 - us) as u32, st.ep_square, st.castling_right),
{
    let from = m.from_spec() as int;
    let to0 = m.to_spec() as int;
    let pc = b[from];
    let t = m.type_spec();
    let b2 = board_after(b, m, us);
    lemma_move_type(m);
    let pk = pieces_key(z, b, 64);
    let pk2 = pieces_key(z, b2, 64);
    let e0 = ep_key(z, st0.ep_square);
    let e1 = ep_key(z, st.ep_square);
    let sd = z.side;
    let s0: u64 = if us == BLACK { sd } else { 0 };
    let s1: u64 = if us == BLACK { 0 } else { sd };
    let c0 = z.castling[st0.castling_right.0 as int];
    let c1 = z.castling[st.castling_right.0 as int];
    lemma_xor_facts(pk, 0, 0);
    lemma_xor_facts(sd, 0, 0);
    lemma_xor_facts(c0, 0, 0);
    lemma_xor_facts(pk ^ e0, 0, 0);
    lemma_xor_facts((pk ^ e0) ^ s0, 0, 0);
    lemma_xor_facts(pk2, 0, 0);
    lemma_xor_facts(pk2 ^ e1, 0, 0);
    assert(st0.key == ((pk ^ e0) ^ s0) ^ c0);
    assert(s1 == s0 ^ sd);
    let pf = z.psq[pc.0 as int][from];
    let pt = z.psq[pc.0 as int][to.0 as int];
    let captured = captured_spec(b, m, us);
    let rights = rights_change(st0.castling_right, st.castling_right, mf, mt);
    let rt: u64 = match rights {
        Some((x, y)) => z.castling[x.0 as int] ^ z.castling[y.0 as int],
        None => 0,
    };
    assert(rt == c0 ^ c1) by {
        if rights is None {
            assert(st.castling_right == st0.castling_right);
        }
    }
    let capsq = if t == EN_PASSANT {
        if captured.0 >= 8 { to.0 - 8 } else { to.0 + 8 }
    } else {
        to.0 as int
    };
    let cap: u64 = if captured.0 != 0 && 0 <= capsq < 64 { z.psq[captured.0 as int][capsq] } else { 0 };
    assert(pc.0 != 0);
    let b1 = b.update(from, Piece(0));
    lemma_pieces_key_update(z, b, 64, from, Piece(0));
    assert(piece_key(z, pc, from) == pf);
    assert(piece_key(z, Piece(0), from) == 0);
    if t == CASTLING {
        let kto = castle_king_to(us, from, to0);
        let rto = castle_rook_to(us, from, to0);
        let king = pc_of(us, KING);
        let rk = pc_of(us, ROOK);
        let b3 = b1.update(to0, Piece(0));
        let b4 = b3.update(kto, king);
        lemma_pieces_key_update(z, b1, 64, to0, Piece(0));
        lemma_pieces_key_update(z, b3, 64, kto, king);
        lemma_pieces_key_update(z, b4, 64, rto, rk);
        let r0 = z.psq[rook.0 as int][to0];
        let rr = z.psq[rook.0 as int][rto];
        assert(b1[to0] == rook && piece_key(z, rook, to0) == r0);
        assert(b3[kto].0 == 0);
        assert(b4[rto].0 == 0);
        assert(king == pc && piece_key(z, king, kto) == pt);
        assert(rk == rook && piece_key(z, rk, rto) == rr);
        assert(captured.0 == 0);
        lemma_key_identities(pk, e0, s0, c0, sd, e1, c1, r0 ^ rr, 0, pf, pt, 0, pk2, 0, r0, rr);
    } else if t == EN_PASSANT {
        let cs = to0 - push_dir(us);
        let bb1 = b.update(cs, Piece(0));
        let bb2 = bb1.update(from, Piece(0));
        lemma_pieces_key_update(z, b, 64, cs, Piece(0));
        lemma_pieces_key_update(z, bb1, 64, from, Piece(0));
        lemma_pieces_key_update(z, bb2, 64, to0, pc);
        assert(capsq == cs);
        assert(piece_key(z, b[cs], cs) == cap);
        assert(bb2[to0].0 == 0);
        assert(bb1[from] == pc);
        assert(piece_key(z, pc, to0) == pt);
        lemma_key_identities(pk, e0, s0, c0, sd, e1, c1, 0, cap, pf, pt, 0, pk2, 0, 0, 0);
    } else {
        lemma_pieces_key_update(z, b1, 64, to0, if t == PROMOTION { pc_of(us, promo_of(m)) } else { pc });
        assert(b1[to0] == b[to0]);
        assert(piece_key(z, b[to0], to0) == cap);
        if t == PROMOTION {
            let q = pc_of(us, promo_of(m));
            let qt = z.psq[q.0 as int][to0];
            lemma_promotion_not_double_step(m.from_spec(), to.0);
            assert(st.ep_square.0 == 64);
            assert(piece_key(z, q, to0) == qt);
            lemma_key_identities(pk, e0, s0, c0, sd, e1, c1, 0, cap, pf, pt, pt ^ qt, pk2, qt, 0, 0);
        } else {
            assert(piece_key(z, pc, to0) == pt);
            lemma_key_identities(pk, e0, s0, c0, sd, e1, c1, 0, cap, pf, pt, 0, pk2, 0, 0, 0);
        }
    }
}

/// `v` brought into the range of `i32` by wrapping around.
pub open spec fn wrap32(v: int) -> i32 {
    let m = v % 0x1_0000_0000;
    (if m >= 0x8000_0000 { m - 0x1_0000_0000 } else { m }) as i32
}

/// The change of the piece-square sum made by the castling rook's step (none for other
/// moves).
pub open spec fn castle_psq_delta(m: Move, rook: Piece) -> int {
    let from = m.from_spec() as int;
    let to0 = m.to_spec() as int;
    if m.type_spec() == CASTLING {
        let us: u32 = if rook.0 >= 8 { 1 } else { 0 };
        let rto = rel_sq(us, if to0 > from { 5 } else { 3 });
        psqt::psq_spec(rook.0 as int, rto) - psqt::psq_spec(rook.0 as int, to0)
    } else {
        0
    }
}

/// The piece-square value taken off the board by the capture of `captured` (on the
/// square behind `to` for en passant).
pub open spec fn capture_psq_delta(m: Move, captured: Piece, to: Square) -> int {
    let capsq = if m.type_spec() == EN_PASSANT {
        if captured.0 >= 8 { to.0 - 8 } else { to.0 + 8 }
    } else {
        to.0 as int
    };
    if captured.0 != 0 && 0 <= capsq < 64 { psqt::psq_spec(captured.0 as int, capsq) } else { 0 }
}

/// The change of the piece-square sum made by promoting `pc` on `to`.
pub open spec fn promotion_psq_delta(pc: Piece, to: Square, promotion: Option<Piece>) -> int {
    match promotion {
        Some(q) => psqt::psq_spec(q.0 as int, to.0 as int) - psqt::psq_spec(pc.0 as int, to.0 as int),
        None => 0,
    }
}

/// The change of the piece-square sum made by a move: the castling rook's step, the piece
/// captured, the promotion, and the piece moved from `m`'s origin to `to`.
pub open spec fn move_psq_delta(m: Move, pc: Piece, rook: Piece, captured: Piece, to: Square, promotion: Option<Piece>) -> int {
    castle_psq_delta(m, rook) - capture_psq_delta(m, captured, to) + promotion_psq_delta(pc, to, promotion) + (
    psqt::psq_spec(pc.0 as int, to.0 as int) - psqt::psq_spec(pc.0 as int, m.from_spec() as int))
}

/// `wrap32(a)` differs from `a` by a multiple of 2^32.
proof fn lemma_wrap32_offset(a: int) -> (k: int)
    ensures
        wrap32(a) as int == a + 0x1_0000_0000 * k,
{
    vstd::arithmetic::div_mod::lemma_fundamental_div_mod(a, 0x1_0000_0000);
    let m = a % 0x1_0000_0000;
    if m >= 0x8000_0000 {
        -(a / 0x1_0000_0000) - 1
    } else {
        -(a / 0x1_0000_0000)
    }
}

/// Adding a multiple of 2^32 does not change the wrapped value.
proof fn lemma_wrap32_shift(a: int, k: int)
    ensures
        wrap32(a + 0x1_0000_0000 * k) == wrap32(a),
{
    vstd::arithmetic::div_mod::lemma_mod_multiples_vanish(k, a, 0x1_0000_0000);
    assert(a + 0x1_0000_0000 * k == 0x1_0000_0000 * k + a);
}

/// Wrapping an operand first does not change a wrapped sum.
proof fn lemma_wrap32_inner(a: int, b: int)
    ensures
        wrap32(wrap32(a) + b) == wrap32(a + b),
        wrap32(b + wrap32(a)) == wrap32(b + a),
{
    let k = lemma_wrap32_offset(a);
    lemma_wrap32_shift(a + b, k);
    assert(wrap32(a) + b == a + b + 0x1_0000_0000 * k);
    assert(b + wrap32(a) == b + a + 0x1_0000_0000 * k);
}

/// A value of `i32` wraps to itself.
proof fn lemma_wrap32_same(x: i32)
    ensures
        wrap32(x as int) == x,
{
}

/// The wrapping sum and difference of two `i32` are the wrapped sum and difference.
proof fn lemma_wrapping_i32(x: i32, y: i32)
    ensures
        x.wrapping_add(y) == wrap32(x + y),
        x.wrapping_sub(y) == wrap32(x - y),
{
}

/// The piece-square value of what stands on square `s`; an empty square counts zero.
pub open spec fn square_psq(p: Piece, s: int) -> int {
    if p.0 != 0 { psqt::psq_spec(p.0 as int, s) } else { 0 }
}

/// The piece-square values of the pieces on the squares below `n` of mailbox `b`, summed
/// without wrapping.
pub open spec fn psq_sum(b: Seq<Piece>, n: nat) -> int
    decreases n,
{
    if n == 0 { 0 } else { psq_sum(b, (n - 1) as nat) + square_psq(b[n - 1], n - 1) }
}

/// The wrapping sum of the piece-square values is the plain sum, wrapped.
proof fn lemma_pieces_psq_sum(b: Seq<Piece>, n: nat)
    requires
        n <= 64,
    ensures
        pieces_psq(b, n) == wrap32(psq_sum(b, n)),
    decreases n,
{
    if n == 0 {
        lemma_wrap32_same(0);
    } else {
        lemma_pieces_psq_sum(b, (n - 1) as nat);
        let p = b[n - 1];
        if p.0 != 0 {
            psqt::lemma_psq_bounds(p.0 as int, n - 1);
            let x = pieces_psq(b, (n - 1) as nat);
            let y = psqt::psq_spec(p.0 as int, n - 1) as i32;
            assert(y == psqt::psq_spec(p.0 as int, n - 1));
            lemma_wrapping_i32(x, y);
            lemma_wrap32_inner(psq_sum(b, (n - 1) as nat), y as int);
        }
    }
}

/// Putting `p` on square `s` changes the plain sum by the values taken off and put on.
proof fn lemma_psq_sum_update(b: Seq<Piece>, n: nat, s: int, p: Piece)
    requires
        0 <= s < b.len(),
        n <= b.len(),
    ensures
        psq_sum(b.update(s, p), n) == psq_sum(b, n) + if s < n {
            square_psq(p, s) - square_psq(b[s], s)
        } else {
            0
        },
    decreases n,
{
    if n > 0 {
        lemma_psq_sum_update(b, (n - 1) as nat, s, p);
    }
}

/// The plain piece-square sum after a move is the sum before plus the change that the
/// running value follows (`move_psq_delta`).
proof fn lemma_psq_after_move(b: Seq<Piece>, m: Move, us: u32, to: Square, rook: Piece, ep: Square)
    requires
        move_fits(b, m, us),
        to.0 == if m.type_spec() == CASTLING {
            castle_king_to(us, m.from_spec() as int, m.to_spec() as int)
        } else {
            m.to_spec() as int
        },
        rook == b[m.to_spec() as int],
        ep == ep_after(board_after(b, m, us), m, us, b[m.from_spec() as int], to),
    ensures
        psq_sum(board_after(b, m, us), 64) == psq_sum(b, 64) + move_psq_delta(m, b[m.from_spec() as int], rook,
            captured_spec(b, m, us), to, promotion_after(m, us, b[m.from_spec() as int], ep)),
{
    let from = m.from_spec() as int;
    let to0 = m.to_spec() as int;
    let pc = b[from];
    let t = m.type_spec();
    lemma_move_type(m);
    let b1 = b.update(from, Piece(0));
    lemma_psq_sum_update(b, 64, from, Piece(0));
    if t == CASTLING {
        let kto = castle_king_to(us, from, to0);
        let rto = castle_rook_to(us, from, to0);
        let b3 = b1.update(to0, Piece(0));
        let b4 = b3.update(kto, pc_of(us, KING));
        lemma_psq_sum_update(b1, 64, to0, Piece(0));
        lemma_psq_sum_update(b3, 64, kto, pc_of(us, KING));
        lemma_psq_sum_update(b4, 64, rto, pc_of(us, ROOK));
        assert(b1[to0] == rook);
        assert(b3[kto].0 == 0);
        assert(b4[rto].0 == 0);
    } else if t == EN_PASSANT {
        let cs = to0 - push_dir(us);
        let bb1 = b.update(cs, Piece(0));
        let bb2 = bb1.update(from, Piece(0));
        lemma_psq_sum_update(b, 64, cs, Piece(0));
        lemma_psq_sum_update(bb1, 64, from, Piece(0));
        lemma_psq_sum_update(bb2, 64, to0, pc);
        assert(bb1[from] == pc);
        assert(bb2[to0].0 == 0);
    } else {
        let q = if t == PROMOTION { pc_of(us, promo_of(m)) } else { pc };
        lemma_psq_sum_update(b1, 64, to0, q);
        assert(b1[to0] == b[to0]);
        if t == PROMOTION {
            lemma_promotion_not_double_step(m.from_spec(), to.0);
            assert(ep.0 == 64);
        }
    }
}

/// The change made by the castling rook's step (see `castle_psq_delta`).
fn castle_psq_change(m: Move, rook: Piece) -> (d: i32)
    requires
        rook.0 < 16,
    ensures
        d == castle_psq_delta(m, rook),
        -4000 <= d <= 4000,
{
    if m.move_type().0 == CASTLING {
        let from = m.from();
        let to0 = m.to();
        let us = Color(if rook.0 >= 8 { 1 } else { 0 });
        let rto = relative_square(us, if to0.0 > from.0 { Square(5) } else { Square(3) });
        let a = psqt::psq(rook, rto).0;
        let b = psqt::psq(rook, to0).0;
        proof {
            psqt::lemma_psq_bounds(rook.0 as int, rto.0 as int);
            psqt::lemma_psq_bounds(rook.0 as int, to0.0 as int);
        }
        a - b
    } else {
        0
    }
}

/// The value taken off by the capture (see `capture_psq_delta`).
fn capture_psq_change(m: Move, captured: Piece, to: Square) -> (d: i32)
    requires
        captured.0 < 16,
        to.0 < 64,
    ensures
        d == capture_psq_delta(m, captured, to),
        -2000 <= d <= 2000,
{
    if captured.0 != 0 {
        let capsq = if m.move_type().0 == EN_PASSANT {
            if captured.0 >= 8 { Square(to.0.wrapping_sub(8)) } else { Square(to.0.wrapping_add(8)) }
        } else {
            to
        };
        if capsq.0 < 64 {
            proof {
                psqt::lemma_psq_bounds(captured.0 as int, capsq.0 as int);
            }
            return psqt::psq(captured, capsq).0;
        }
    }
    0
}

/// The change made by the promotion (see `promotion_psq_delta`).
fn promotion_psq_change(pc: Piece, to: Square, promotion: Option<Piece>) -> (d: i32)
    requires
        pc.0 < 16,
        to.0 < 64,
        promotion matches Some(p) ==> p.0 < 16,
    ensures
        d == promotion_psq_delta(pc, to, promotion),
        -4000 <= d <= 4000,
{
    match promotion {
        Some(q) => {
            proof {
                psqt::lemma_psq_bounds(q.0 as int, to.0 as int);
                psqt::lemma_psq_bounds(pc.0 as int, to.0 as int);
            }
            psqt::psq(q, to).0 - psqt::psq(pc, to).0
        },
        None => 0,
    }
}

/// The current state of `pos` holds its check information.
pub open spec fn check_info_current(pos: Position) -> bool {
    check_info_of(pos, pos.st_spec())
}

/// The pieces of color `us` checking the king of the other color on `b` when the move
/// that led there was found to give check (`gc`); none otherwise or without that king.
pub open spec fn checkers_after(b: Seq<Piece>, us: u32, gc: bool) -> u64 {
    let them = (1 - us) as u32;
    if gc && piece_set(b, them, KING) != 0 {
        attackers_spec(b, king_sq(b, them), type_set(b, 0)) & color_set(b, us)
    } else {
        0
    }
}

/// What making move `m` changes (the position `before` becoming `after`): the mailbox
/// as `board_after` says, a new state recording the piece captured, the counters and
/// rights carried over and updated, the other side to move, one more ply; the castling
/// tables, the keys and the game kind stay.
pub open spec fn do_move_post(before: Position, after: Position, m: Move) -> bool {
    let us = before.side_spec().0;
    let b = before.board_spec();
    let from = m.from_spec() as int;
    let to = m.to_spec() as int;
    let captured = captured_spec(b, m, us);
    let st0 = before.st_spec();
    let st = after.st_spec();
    &&& after.wf()
    &&& after.board_spec() == board_after(b, m, us)
    &&& check_info_current(after)
    &&& after.states_spec().len() == before.states_spec().len() + 1
    &&& after.states_spec().drop_last() == before.states_spec()
    &&& st.captured_piece == captured
    &&& st.plies_from_null == st0.plies_from_null + 1
    &&& st.rule50 == if captured.0 != 0 || b[from].0 & 7 == PAWN { 0 } else { st0.rule50 + 1 }
    &&& st.ep_square.0 == 64 || (b[from].0 & 7 == PAWN && st.ep_square.0 == to - push_dir(us))
    &&& after.side_spec().0 == 1 - us
    &&& after.game_ply_spec() == before.game_ply_spec() + 1
    &&& after.chess960_spec() == before.chess960_spec()
    &&& after.zobrist_spec() == before.zobrist_spec()
    &&& forall|i: int| 0 <= i < 16 ==> #[trigger] after.rook_square_spec(i) == before.rook_square_spec(i)
    &&& forall|i: int| 0 <= i < 16 ==> #[trigger] after.castling_path_spec(i) == before.castling_path_spec(i)
    &&& forall|i: int| 0 <= i < 64 ==> #[trigger] after.rights_mask_spec(i) == before.rights_mask_spec(i)
}

/// What taking back move `m` changes (the position `before` becoming `after`): the
/// mailbox as `board_before` says with the piece the current state recorded as captured,
/// the current state dropped, the other side to move, one ply less; the castling
/// tables, the keys and the game kind stay.
pub open spec fn undo_move_post(before: Position, after: Position, m: Move) -> bool {
    let us = (1 - before.side_spec().0) as u32;
    &&& after.wf()
    &&& after.board_spec() == board_before(before.board_spec(), m, us, before.st_spec().captured_piece)
    &&& after.states_spec() == before.states_spec().drop_last()
    &&& after.side_spec().0 == us
    &&& after.game_ply_spec() == before.game_ply_spec() - 1
    &&& after.chess960_spec() == before.chess960_spec()
    &&& after.zobrist_spec() == before.zobrist_spec()
    &&& forall|i: int| 0 <= i < 16 ==> #[trigger] after.rook_square_spec(i) == before.rook_square_spec(i)
    &&& forall|i: int| 0 <= i < 16 ==> #[trigger] after.castling_path_spec(i) == before.castling_path_spec(i)
    &&& forall|i: int| 0 <= i < 64 ==> #[trigger] after.rights_mask_spec(i) == before.rights_mask_spec(i)
}

/// Making a move and taking it back gives back the position exactly: the mailbox, every
/// bitboard and count, the states, the side to move, the ply, and the rest; so a hash key
/// and a running value that were those of the position are so again.
pub proof fn lemma_do_undo_restores(before: Position, moved: Position, after: Position, m: Move)
    requires
        before.wf(),
        move_fits(before.board_spec(), m, before.side_spec().0),
        do_move_post(before, moved, m),
        undo_move_post(moved, after, m),
    ensures
        after.board_spec() == before.board_spec(),
        forall|t: int| 0 <= t < 8 ==> #[trigger] after.type_bb_spec(t) == before.type_bb_spec(t),
        forall|c: int| 0 <= c < 2 ==> #[trigger] after.color_bb_spec(c) == before.color_bb_spec(c),
        forall|p: int| 0 <= p < 16 ==> #[trigger] after.count_spec(p) == before.count_spec(p),
        after.states_spec() == before.states_spec(),
        after.side_spec() == before.side_spec(),
        after.game_ply_spec() == before.game_ply_spec(),
        after.chess960_spec() == before.chess960_spec(),
        after.zobrist_spec() == before.zobrist_spec(),
        forall|i: int| 0 <= i < 16 ==> #[trigger] after.rook_square_spec(i) == before.rook_square_spec(i),
        forall|i: int| 0 <= i < 16 ==> #[trigger] after.castling_path_spec(i) == before.castling_path_spec(i),
        forall|i: int| 0 <= i < 64 ==> #[trigger] after.rights_mask_spec(i) == before.rights_mask_spec(i),
        check_info_current(before) ==> check_info_current(after),
        before.st_spec().key == position_key(before) ==> after.st_spec().key == position_key(after),
        before.st_spec().psq.0 == pieces_psq(before.board_spec(), 64) ==> after.st_spec().psq.0 == pieces_psq(
            after.board_spec(), 64),
{
    let us = before.side_spec().0;
    lemma_undo_after_do(before.board_spec(), m, us);
    assert(after.board_spec() =~= before.board_spec());
    assert(after.side_spec().0 == before.side_spec().0);
    assert(after.side_spec() == before.side_spec());
    before.lemma_same_board_same_bits(after);
}

impl Position {
    /// Positions in order with the same mailbox have the same bitboards and counts.
    pub proof fn lemma_same_board_same_bits(&self, other: Position)
        requires
            self.wf(),
            other.wf(),
            self.board_spec() == other.board_spec(),
        ensures
            forall|t: int| 0 <= t < 8 ==> #[trigger] other.type_bb_spec(t) == self.type_bb_spec(t),
            forall|c: int| 0 <= c < 2 ==> #[trigger] other.color_bb_spec(c) == self.color_bb_spec(c),
            forall|p: int| 0 <= p < 16 ==> #[trigger] other.count_spec(p) == self.count_spec(p),
    {
    }
}

impl Position {
    /// Moves king and rook of a castling (`DO`) or back (`!DO`). Castling is written as
    /// the king taking its own rook: `to` comes in as the rook's square and leaves as
    /// the king's castled square; `rfrom` and `rto` receive the rook's origin and castled
    /// square. Both pieces are lifted before either is put down, since in Chess960 the
    /// squares may overlap.
    fn do_castling<const DO: bool>(
        &mut self,
        us: Color,
        from: Square,
        to: &mut Square,
        rfrom: &mut Square,
        rto: &mut Square,
    )
        requires
            old(self).consistent(old(self).board_spec()),
            us.0 < 2,
            from.0 < 64,
            old(to).0 < 64,
            from.0 != old(to).0,
            DO ==> ({
                let kto = castle_king_to(us.0, from.0 as int, old(to).0 as int);
                let r = castle_rook_to(us.0, from.0 as int, old(to).0 as int);
                let b = old(self).board_spec();
                &&& b[from.0 as int] == pc_of(us.0, KING)
                &&& b[old(to).0 as int] == pc_of(us.0, ROOK)
                &&& (kto == from.0 || kto == old(to).0 || b[kto].0 == 0)
                &&& (r == from.0 || r == old(to).0 || b[r].0 == 0)
            }),
            !DO ==> ({
                let kto = castle_king_to(us.0, from.0 as int, old(to).0 as int);
                let r = castle_rook_to(us.0, from.0 as int, old(to).0 as int);
                let b = old(self).board_spec();
                &&& b[kto] == pc_of(us.0, KING)
                &&& b[r] == pc_of(us.0, ROOK)
                &&& (from.0 == kto || from.0 == r || b[from.0 as int].0 == 0)
                &&& (old(to).0 == kto || old(to).0 == r || b[old(to).0 as int].0 == 0)
            }),
        ensures
            final(to).0 == castle_king_to(us.0, from.0 as int, old(to).0 as int),
            final(rfrom).0 == old(to).0,
            final(rto).0 == castle_rook_to(us.0, from.0 as int, old(to).0 as int),
            final(self).consistent(final(self).board_spec()),
            DO ==> final(self).board_spec() == old(self).board_spec().update(from.0 as int, Piece(0)).update(
                old(to).0 as int,
                Piece(0),
            ).update(final(to).0 as int, pc_of(us.0, KING)).update(final(rto).0 as int, pc_of(us.0, ROOK)),
            !DO ==> final(self).board_spec() == old(self).board_spec().update(final(to).0 as int, Piece(0)).update(
                final(rto).0 as int,
                Piece(0),
            ).update(from.0 as int, pc_of(us.0, KING)).update(old(to).0 as int, pc_of(us.0, ROOK)),
            final(self).castling_rights_mask == old(self).castling_rights_mask,
            final(self).castling_rook_square == old(self).castling_rook_square,
            final(self).castling_path == old(self).castling_path,
            final(self).states == old(self).states,
            final(self).side_to_move == old(self).side_to_move,
            final(self).game_ply == old(self).game_ply,
            final(self).chess960 == old(self).chess960,
            final(self).zobrist == old(self).zobrist,
    {
        let king_side = to.0 > from.0;
        *rfrom = *to;
        *rto = relative_square(us, if king_side { Square(5) } else { Square(3) });
        *to = relative_square(us, if king_side { Square(6) } else { Square(2) });
        let kto = *to;
        let rt = *rto;
        let rf = *rfrom;
        let ghost b = self.board@;
        proof {
            assert(kto.0 != rt.0);
        }
        let first = if DO { from } else { kto };
        let second = if DO { rf } else { rt };
        self.remove_piece(first, Ghost(b));
        self.remove_piece(second, Ghost(b.update(first.0 as int, Piece(0))));
        self.board[first.0 as usize] = Piece(0);
        self.board[second.0 as usize] = Piece(0);
        let ghost l2 = b.update(first.0 as int, Piece(0)).update(second.0 as int, Piece(0));
        proof {
            assert(self.board@ =~= l2);
        }
        let king = Piece::make(us, PieceType(KING));
        let rook = Piece::make(us, PieceType(ROOK));
        let kdest = if DO { kto } else { from };
        let rdest = if DO { rt } else { rf };
        self.put_piece(king, kdest, Ghost(l2));
        self.put_piece(rook, rdest, Ghost(l2.update(kdest.0 as int, king)));
        proof {
            if DO {
                assert(self.board@ =~= b.update(from.0 as int, Piece(0)).update(rf.0 as int, Piece(0)).update(
                    kto.0 as int, king).update(rt.0 as int, rook));
            } else {
                assert(self.board@ =~= b.update(kto.0 as int, Piece(0)).update(rt.0 as int, Piece(0)).update(
                    from.0 as int, king).update(rf.0 as int, rook));
            }
        }
    }
}

/// What a sniper on `y` adds to the blockers of square `s`: the pieces of `occupancy`
/// between them, when there is exactly one.
pub open spec fn lone_blocker(s: int, y: int, occupancy: u64) -> u64 {
    let bb = between_spec(s, y) & occupancy;
    if bb != 0 && bb & ((bb - 1) as u64) == 0 {
        bb
    } else {
        0
    }
}

/// The lone blockers between `s` and the snipers on squares below `n`.
pub open spec fn blockers_upto(snipers: u64, s: int, occupancy: u64, n: nat) -> u64
    decreases n,
{
    if n == 0 {
        0
    } else {
        blockers_upto(snipers, s, occupancy, (n - 1) as nat) | (if bb_has(snipers, n - 1) {
            lone_blocker(s, n - 1, occupancy)
        } else {
            0
        })
    }
}

/// The snipers below `n` whose lone blocker is one of the pieces `own`.
pub open spec fn pinners_upto(snipers: u64, s: int, occupancy: u64, own: u64, n: nat) -> u64
    decreases n,
{
    if n == 0 {
        0
    } else {
        pinners_upto(snipers, s, occupancy, own, (n - 1) as nat) | (if bb_has(snipers, n - 1) && lone_blocker(
            s,
            n - 1,
            occupancy,
        ) & own != 0 {
            sq_bit(n - 1)
        } else {
            0
        })
    }
}

/// The sliders among `sliders` that would attack `s` on an empty board along their lines.
pub open spec fn snipers_of(b: Seq<Piece>, sliders: u64, s: int) -> u64 {
    ((attacks_spec(ROOK, s, 0) & (type_set(b, QUEEN) | type_set(b, ROOK))) | (attacks_spec(BISHOP, s, 0) & (
    type_set(b, QUEEN) | type_set(b, BISHOP)))) & sliders
}

/// The pieces of the color of the piece on `s` (none for a value out of range).
pub open spec fn own_of(b: Seq<Piece>, s: int) -> u64 {
    if b[s].0 >> 3 < 2 {
        color_set(b, b[s].0 >> 3)
    } else {
        0
    }
}

proof fn lemma_blockers_skip(snipers: u64, s: int, occupancy: u64, own: u64, lo: nat, hi: nat)
    requires
        lo <= hi,
        forall|j: int| lo <= j < hi ==> !bb_has(snipers, j),
    ensures
        blockers_upto(snipers, s, occupancy, hi) == blockers_upto(snipers, s, occupancy, lo),
        pinners_upto(snipers, s, occupancy, own, hi) == pinners_upto(snipers, s, occupancy, own, lo),
    decreases hi - lo,
{
    if hi > lo {
        lemma_blockers_skip(snipers, s, occupancy, own, lo, (hi - 1) as nat);
        crate::position::classic::lemma_mask_facts(blockers_upto(snipers, s, occupancy, (hi - 1) as nat), 0, 0, 0, 0);
        crate::position::classic::lemma_mask_facts(pinners_upto(snipers, s, occupancy, own, (hi - 1) as nat), 0, 0, 0, 0);
    }
}

impl Position {
    /// The pieces standing alone between square `s` and a slider of `sliders` that
    /// would otherwise attack it (by rank, file or diagonal); `pinners` receives those
    /// sliders whose blocker has the color of the piece on `s`.
    pub(crate) fn slider_blockers(&self, sliders: Bitboard, s: Square, pinners: &mut Bitboard) -> (b: Bitboard)
        requires
            self.wf(),
            s.0 < 64,
        ensures
            ({
                let bd = self.board_spec();
                let snipers = snipers_of(bd, sliders.0, s.0 as int);
                let occupancy = type_set(bd, 0) ^ snipers;
                &&& b.0 == blockers_upto(snipers, s.0 as int, occupancy, 64)
                &&& final(pinners).0 == pinners_upto(snipers, s.0 as int, occupancy, own_of(bd, s.0 as int), 64)
            }),
    {
        let mut blockers = Bitboard(0);
        *pinners = Bitboard(0);
        let rooks = pseudo_attacks(PieceType(ROOK), s).bitand(self.pieces_pp(PieceType(QUEEN), PieceType(ROOK)));
        let bishops = pseudo_attacks(PieceType(BISHOP), s).bitand(self.pieces_pp(PieceType(QUEEN), PieceType(BISHOP)));
        let mut snipers = rooks.bitor(bishops).bitand(sliders);
        let ghost orig = snipers.0;
        let occupancy = self.pieces().bitxor(snipers);
        let c = self.board[s.0 as usize].color();
        let ghost own = own_of(self.board_spec(), s.0 as int);
        let ghost mut k: nat = 0;
        proof {
            assert(entry_ok(self.board@[s.0 as int]));
            assert(self.board@[s.0 as int].0 < 16);
        }
        while snipers.0 != 0
            invariant
                self.wf(),
                s.0 < 64,
                c.0 < 2,
                c.0 == self.board_spec()[s.0 as int].0 >> 3,
                own == color_set(self.board_spec(), c.0),
                orig == snipers_of(self.board_spec(), sliders.0, s.0 as int),
                occupancy.0 == type_set(self.board_spec(), 0) ^ orig,
                k <= 64,
                forall|j: int| 0 <= j < 64 ==> (#[trigger] bb_has(snipers.0, j) <==> (bb_has(orig, j) && j >= k)),
                blockers.0 == blockers_upto(orig, s.0 as int, occupancy.0, k),
                pinners.0 == pinners_upto(orig, s.0 as int, occupancy.0, own, k),
            decreases snipers.0,
        {
            let ghost before = snipers.0;
            let sniper_sq = pop_lsb(&mut snipers);
            assert(before != 0 ==> before & ((before - 1) as u64) < before) by (bit_vector);
            let ghost y = sniper_sq.0 as int;
            proof {
                assert(bb_has(before, y));
                assert(bb_has(orig, y) && y >= k);
                assert forall|j: int| k <= j < y implies !bb_has(orig, j) by {
                    assert(!bb_has(before, j));
                }
                lemma_blockers_skip(orig, s.0 as int, occupancy.0, own, k, y as nat);
            }
            let b = between_bb(s, sniper_sq).bitand(occupancy);
            if b.0 != 0 && !more_than_one(b) {
                blockers = blockers.bitor(b);
                if c.0 < 2 && b.bitand(self.pieces_c(c)).0 != 0 {
                    *pinners = pinners.bitor(crate::attacks::attack_bb::square_bb(sniper_sq));
                } else {
                    proof {
                        crate::position::classic::lemma_mask_facts(pinners.0, 0, 0, 0, 0);
                    }
                }
            } else {
                proof {
                    crate::position::classic::lemma_mask_facts(blockers.0, 0, 0, 0, 0);
                    crate::position::classic::lemma_mask_facts(pinners.0, 0, 0, 0, 0);
                    crate::position::classic::lemma_mask_facts(own, 0, 0, 0, 0);
                }
            }
            proof {
                k = (y + 1) as nat;
            }
        }
        proof {
            assert forall|j: int| k <= j < 64 implies !bb_has(orig, j) by {
                assert(!bb_has(0u64, j)) by {
                    let jj = j as u64;
                    assert((0u64 >> jj) & 1 == 0) by (bit_vector);
                }
            }
            lemma_blockers_skip(orig, s.0 as int, occupancy.0, own, k, 64);
        }
        blockers
    }

    /// Fills the check information of `si` for the position with the current side to
    /// move: for each color the pieces shielding its king and the sliders pinning them,
    /// and the squares from which each piece type would check the king of the side not
    /// to move. A color without a king gets none.
    #[verifier::rlimit(40)]
    pub(crate) fn set_check_info(&self, si: &mut StateInfo)
        requires
            self.wf(),
        ensures
            final(si).castling_right == old(si).castling_right,
            final(si).rule50 == old(si).rule50,
            final(si).plies_from_null == old(si).plies_from_null,
            final(si).ep_square == old(si).ep_square,
            final(si).psq == old(si).psq,
            final(si).key == old(si).key,
            final(si).checkers_bb == old(si).checkers_bb,
            final(si).captured_piece == old(si).captured_piece,
            check_info_of(*self, *final(si)),
    {
        let white = Color(WHITE);
        let black = Color(BLACK);
        let king = PieceType(KING);
        if self.pieces_cp(white, king).0 != 0 {
            let mut pin = Bitboard(0);
            let blk = self.slider_blockers(self.pieces_c(black), self.square(white, king), &mut pin);
            si.blockers_for_king[0] = blk;
            si.pinners[1] = pin;
        } else {
            si.blockers_for_king[0] = Bitboard(0);
            si.pinners[1] = Bitboard(0);
        }
        if self.pieces_cp(black, king).0 != 0 {
            let mut pin = Bitboard(0);
            let blk = self.slider_blockers(self.pieces_c(white), self.square(black, king), &mut pin);
            si.blockers_for_king[1] = blk;
            si.pinners[0] = pin;
        } else {
            si.blockers_for_king[1] = Bitboard(0);
            si.pinners[0] = Bitboard(0);
        }
        let them = self.side_to_move.flip();
        if self.pieces_cp(them, king).0 != 0 {
            let ksq = self.square(them, king);
            si.check_squares[PAWN as usize] = pawn_attacks_bb(them, ksq);
            si.check_squares[KNIGHT as usize] = pseudo_attacks(PieceType(KNIGHT), ksq);
            si.check_squares[BISHOP as usize] = attacks_bb(PieceType(BISHOP), ksq, self.pieces());
            si.check_squares[ROOK as usize] = attacks_bb(PieceType(ROOK), ksq, self.pieces());
            si.check_squares[QUEEN as usize] = si.check_squares[BISHOP as usize].bitor(si.check_squares[ROOK as usize]);
            si.check_squares[KING as usize] = Bitboard(0);
        } else {
            si.check_squares = [Bitboard(0); 8];
        }
    }
}

/// The lowest square of the king of color `c` on mailbox `b`.
pub open spec fn king_sq(b: Seq<Piece>, c: u32) -> int {
    u64_trailing_zeros(piece_set(b, c, KING)) as int
}

/// The squares holding a piece of color `c` whose type is `t1` or `t2`.
pub open spec fn pieces2(b: Seq<Piece>, c: u32, t1: u32, t2: u32) -> u64 {
    color_set(b, c) & (type_set(b, t1) | type_set(b, t2))
}

/// Whether move `m` checks the king of the side not to move: directly (the destination is
/// one of the recorded check squares of the moving piece's type), by discovery (the
/// origin held a recorded blocker of that king and the move leaves the line to it), or
/// by what the move's kind adds: the promoted piece, a discovery through the pawn taken
/// en passant, or the castled rook. With no such king, no check.
pub open spec fn gives_check_spec(pos: Position, m: Move) -> bool {
    let us = pos.side_spec().0;
    let them = (1 - us) as u32;
    let b = pos.board_spec();
    let st = pos.st_spec();
    let from = m.from_spec() as int;
    let to = m.to_spec() as int;
    let occ = type_set(b, 0);
    let ksq = king_sq(b, them);
    if piece_set(b, them, KING) == 0 {
        false
    } else if bb_has(st.check_squares[(b[from].0 & 7) as int].0, to) {
        true
    } else if bb_has(st.blockers_for_king[them as int].0, from) && !bb_has(line_spec(from, to), ksq) {
        true
    } else if m.type_spec() == PROMOTION {
        attacks_spec(promo_of(m), to, occ ^ sq_bit(from)) & sq_bit(ksq) != 0
    } else if m.type_spec() == EN_PASSANT {
        let capsq = 8 * (from / 8) + to % 8;
        let occ2 = (occ ^ sq_bit(from) ^ sq_bit(capsq)) | sq_bit(to);
        (attacks_spec(ROOK, ksq, occ2) & pieces2(b, us, QUEEN, ROOK)) | (attacks_spec(BISHOP, ksq, occ2)
            & pieces2(b, us, QUEEN, BISHOP)) != 0
    } else if m.type_spec() == CASTLING {
        let kto = castle_king_to(us, from, to);
        let rto = castle_rook_to(us, from, to);
        (attacks_spec(ROOK, rto, 0) & sq_bit(ksq)) != 0 && (attacks_spec(ROOK, rto, (occ ^ sq_bit(from) ^ sq_bit(
            to,
        )) | sq_bit(rto) | sq_bit(kto)) & sq_bit(ksq)) != 0
    } else {
        false
    }
}

impl Position {
    /// Whether move `m` by the side to move gives check (see `gives_check_spec`).
    pub fn gives_check(&self, m: Move) -> (r: bool)
        requires
            self.wf(),
        ensures
            r == gives_check_spec(*self, m),
    {
        let us = self.side_to_move;
        let them = us.flip();
        let from = m.from();
        let to = m.to();
        let king = PieceType(KING);
        proof {
            crate::position::classic::game::lemma_move_type(m);
        }
        if self.pieces_cp(them, king).0 == 0 {
            return false;
        }
        let ksq = self.square(them, king);
        let st = &self.states[self.states.len() - 1];
        let pt = self.board[from.0 as usize].piece_type();
        proof {
            crate::attacks::attack_bb::lemma_has_bit(st.check_squares[pt.0 as int].0, to.0 as int);
            crate::attacks::attack_bb::lemma_has_bit(st.blockers_for_king[them.0 as int].0, from.0 as int);
        }
        if st.check_squares[pt.0 as usize].bitand_sq(to).0 != 0 {
            return true;
        }
        if st.blockers_for_king[them.0 as usize].bitand_sq(from).0 != 0 && !aligned(from, to, ksq) {
            return true;
        }
        let mt = m.move_type().0;
        if mt == NORMAL {
            false
        } else if mt == PROMOTION {
            attacks_bb(m.promotion_type(), to, self.pieces().bitxor_sq(from)).bitand_sq(ksq).0 != 0
        } else if mt == EN_PASSANT {
            let capsq = Square::make(to.file(), from.rank());
            let b = self.pieces().bitxor_sq(from).bitxor_sq(capsq).bitor_sq(to);
            attacks_bb(PieceType(ROOK), ksq, b).bitand(self.pieces_cpp(us, PieceType(QUEEN), PieceType(ROOK))).bitor(
                attacks_bb(PieceType(BISHOP), ksq, b).bitand(self.pieces_cpp(us, PieceType(QUEEN), PieceType(BISHOP))),
            ).0 != 0
        } else {
            let kfrom = from;
            let rfrom = to;
            let kto = relative_square(us, if rfrom.0 > kfrom.0 { Square(6) } else { Square(2) });
            let rto = relative_square(us, if rfrom.0 > kfrom.0 { Square(5) } else { Square(3) });
            pseudo_attacks(PieceType(ROOK), rto).bitand_sq(ksq).0 != 0 && attacks_bb(
                PieceType(ROOK),
                rto,
                self.pieces().bitxor_sq(kfrom).bitxor_sq(rfrom).bitor_sq(rto).bitor_sq(kto),
            ).bitand_sq(ksq).0 != 0
        }
    }
}

/// The squares the king crosses when castling from `from` to `kto`, its origin excluded.
pub open spec fn castle_crossed(from: int, kto: int, s: int) -> bool {
    if kto > from { from < s <= kto } else { kto <= s < from }
}

/// Whether the pseudo-legal move `m` of the side to move is legal: an en passant capture
/// must not open a rank, file or diagonal to the king; castling must cross no square
/// attacked by the other side (and in Chess960 the castling rook must not shield the
/// king); a king move must not land on an attacked square (the king itself no longer
/// blocking); any other move must not move a shielding piece off the line to its king.
pub open spec fn legal_spec(pos: Position, m: Move) -> bool {
    let us = pos.side_spec().0;
    let them = (1 - us) as u32;
    let b = pos.board_spec();
    let st = pos.st_spec();
    let from = m.from_spec() as int;
    let to = m.to_spec() as int;
    let occ = type_set(b, 0);
    let ksq = king_sq(b, us);
    if m.type_spec() == EN_PASSANT {
        let capsq = to - push_dir(us);
        let occ2 = (occ ^ sq_bit(from) ^ sq_bit(capsq)) | sq_bit(to);
        (attacks_spec(ROOK, ksq, occ2) & pieces2(b, them, QUEEN, ROOK)) == 0 && (attacks_spec(BISHOP, ksq, occ2)
            & pieces2(b, them, QUEEN, BISHOP)) == 0
    } else if m.type_spec() == CASTLING {
        let kto = castle_king_to(us, from, to);
        &&& forall|s: int| castle_crossed(from, kto, s) ==> #[trigger] attackers_spec(b, s, occ) & color_set(b, them) == 0
        &&& (!pos.chess960_spec() || !bb_has(st.blockers_for_king[us as int].0, to))
    } else if b[from].0 & 7 == KING {
        attackers_spec(b, to, occ ^ sq_bit(from)) & color_set(b, them) == 0
    } else {
        !bb_has(st.blockers_for_king[us as int].0, from) || bb_has(line_spec(from, to), ksq)
    }
}

impl Position {
    /// Whether the pseudo-legal move `m` of the side to move is legal (see `legal_spec`).
    pub fn legal(&self, m: Move) -> (r: bool)
        requires
            self.wf(),
            move_fits(self.board_spec(), m, self.side_spec().0),
            piece_set(self.board_spec(), self.side_spec().0, KING) != 0,
        ensures
            r == legal_spec(*self, m),
    {
        let us = self.side_to_move;
        let them = us.flip();
        let from = m.from();
        let to = m.to();
        let king = PieceType(KING);
        let mt = m.move_type().0;
        proof {
            lemma_move_type(m);
        }
        if mt == EN_PASSANT {
            let ksq = self.square(us, king);
            let capsq = if us.0 == 0 { Square(to.0 - 8) } else { Square(to.0 + 8) };
            let occupied = self.pieces().bitxor_sq(from).bitxor_sq(capsq).bitor_sq(to);
            return attacks_bb(PieceType(ROOK), ksq, occupied).bitand(
                self.pieces_cpp(them, PieceType(QUEEN), PieceType(ROOK)),
            ).0 == 0 && attacks_bb(PieceType(BISHOP), ksq, occupied).bitand(
                self.pieces_cpp(them, PieceType(QUEEN), PieceType(BISHOP)),
            ).0 == 0;
        }
        if mt == CASTLING {
            let kto = relative_square(us, if to.0 > from.0 { Square(6) } else { Square(2) });
            let mut sq = kto;
            let toward_west = kto.0 > from.0;
            while sq.0 != from.0
                invariant
                    self.wf(),
                    us == self.side_spec(),
                    them.0 == 1 - us.0,
                    m.type_spec() == CASTLING,
                    from.0 == m.from_spec(),
                    to.0 == m.to_spec(),
                    kto.0 == castle_king_to(us.0, from.0 as int, to.0 as int),
                    them.0 < 2,
                    from.0 < 64,
                    kto.0 < 64,
                    from.0 / 8 == kto.0 / 8,
                    toward_west == (kto.0 > from.0),
                    toward_west ==> from.0 <= sq.0 <= kto.0,
                    !toward_west ==> kto.0 <= sq.0 <= from.0,
                    forall|s: int| castle_crossed(from.0 as int, kto.0 as int, s) && (if toward_west {
                        s > sq.0
                    } else {
                        s < sq.0
                    }) ==> #[trigger] attackers_spec(self.board_spec(), s, type_set(self.board_spec(), 0))
                        & color_set(self.board_spec(), them.0) == 0,
                decreases if toward_west { sq.0 - from.0 } else { from.0 - sq.0 },
            {
                if self.attackers_to(sq).bitand(self.pieces_c(them)).0 != 0 {
                    return false;
                }
                sq = if toward_west { Square(sq.0 - 1) } else { Square(sq.0 + 1) };
            }
            proof {
                crate::attacks::attack_bb::lemma_has_bit(self.st_spec().blockers_for_king[us.0 as int].0, to.0 as int);
            }
            return !self.chess960 || self.blockers_for_king(us).bitand_sq(to).0 == 0;
        }
        if self.board[from.0 as usize].piece_type().0 == KING {
            return self.attackers_to_occ(to, self.pieces().bitxor_sq(from)).bitand(self.pieces_c(them)).0 == 0;
        }
        proof {
            crate::attacks::attack_bb::lemma_has_bit(self.st_spec().blockers_for_king[us.0 as int].0, from.0 as int);
        }
        self.blockers_for_king(us).bitand_sq(from).0 == 0 || aligned(from, to, self.square(us, king))
    }
}

impl Position {
    /// Makes move `m` (see `do_move_post`), which must fit the position; whether it
    /// gives check is worked out first.
    pub fn do_move(&mut self, m: Move)
        requires
            old(self).wf(),
            move_fits(old(self).board_spec(), m, old(self).side_spec().0),
            old(self).game_ply_spec() < i32::MAX,
            old(self).st_spec().rule50 < i32::MAX,
            old(self).st_spec().plies_from_null < i32::MAX,
        ensures
            do_move_post(*old(self), *final(self), m),
            final(self).states_spec().len() >= 2,
            final(self).st_spec().checkers_bb.0 == checkers_after(final(self).board_spec(), old(self).side_spec().0,
                gives_check_spec(*old(self), m)),
            old(self).st_spec().key == position_key(*old(self)) ==> final(self).st_spec().key == position_key(*final(self)),
            old(self).st_spec().psq.0 == pieces_psq(old(self).board_spec(), 64) ==> final(self).st_spec().psq.0
                == pieces_psq(final(self).board_spec(), 64),
    {
        let gc = self.gives_check(m);
        self._do_move(m, gc);
    }

    fn play_on_board(&mut self, m: Move, us: Color) -> (r: (Piece, Square))
        requires
            old(self).consistent(old(self).board_spec()),
            us.0 < 2,
            move_fits(old(self).board_spec(), m, us.0),
        ensures
            final(self).consistent(final(self).board_spec()),
            final(self).board_spec() == board_after(old(self).board_spec(), m, us.0),
            r.0 == captured_spec(old(self).board_spec(), m, us.0),
            r.1.0 == if m.type_spec() == CASTLING {
                castle_king_to(us.0, m.from_spec() as int, m.to_spec() as int)
            } else {
                m.to_spec() as int
            },
            final(self).castling_rights_mask == old(self).castling_rights_mask,
            final(self).castling_rook_square == old(self).castling_rook_square,
            final(self).castling_path == old(self).castling_path,
            final(self).states == old(self).states,
            final(self).side_to_move == old(self).side_to_move,
            final(self).game_ply == old(self).game_ply,
            final(self).chess960 == old(self).chess960,
            final(self).zobrist == old(self).zobrist,
    {
        let them = us.flip();
        let from = m.from();
        let mut to = m.to();
        let pc = self.board[from.0 as usize];
        let mt = m.move_type().0;
        proof {
            lemma_move_type(m);
            lemma_castle_squares(us.0, from.0 as int, to.0 as int);
        }
        if mt == CASTLING {
            let mut rfrom = Square(64);
            let mut rto = Square(64);
            self.do_castling::<true>(us, from, &mut to, &mut rfrom, &mut rto);
            return (Piece(0), to);
        }
        let captured = if mt == EN_PASSANT {
            Piece::make(them, PieceType(PAWN))
        } else {
            self.board[to.0 as usize]
        };
        let ghost mut l = self.board@;
        if captured.0 != 0 {
            let capsq = if mt == EN_PASSANT {
                if us.0 == 0 { Square(to.0 - 8) } else { Square(to.0 + 8) }
            } else {
                to
            };
            self.remove_piece(capsq, Ghost(l));
            if mt == EN_PASSANT {
                self.board[capsq.0 as usize] = Piece(0);
            }
            proof {
                l = l.update(capsq.0 as int, Piece(0));
            }
        }
        proof {
            assert(forall|i: int| 0 <= i < 64 && i != to.0 ==> l[i] == #[trigger] self.board@[i]);
        }
        self.move_piece(from, to, Ghost(l));
        proof {
            assert(self.board@ =~= l.update(from.0 as int, Piece(0)).update(to.0 as int, pc));
        }
        if mt == PROMOTION {
            let promotion = Piece::make(us, m.promotion_type());
            let ghost bb = self.board@;
            self.remove_piece(to, Ghost(self.board@));
            self.put_piece(promotion, to, Ghost(self.board@.update(to.0 as int, Piece(0))));
            proof {
                assert(self.board@ =~= bb.update(to.0 as int, Piece(0)).update(to.0 as int, promotion));
                assert(self.consistent(self.board@));
                assert(self.board@ =~= board_after(old(self).board@, m, us.0));
            }
        } else {
            proof {
                assert(self.consistent(self.board@));
                assert(self.board@ =~= board_after(old(self).board@, m, us.0));
            }
        }
        (captured, to)
    }
}

impl Position {
    /// The hash key after the move, from the key before: the side, the pieces moved,
    /// captured or promoted, the en passant files left and gained, and the castling
    /// rights before and after when they changed (see `move_key_spec`).
    fn move_key(
        &self,
        m: Move,
        key: u64,
        pc: Piece,
        rook: Piece,
        captured: Piece,
        to: Square,
        old_ep: Square,
        new_ep: Square,
        rights: Option<(CastlingRight, CastlingRight)>,
        promotion: Option<Piece>,
    ) -> (k: u64)
        requires
            pc.0 < 16,
            rook.0 < 16,
            captured.0 < 16,
            to.0 < 64,
            old_ep.0 <= 64,
            new_ep.0 <= 64,
            rights matches Some((a, b)) ==> a.0 < 16 && b.0 < 16,
            promotion matches Some(p) ==> p.0 < 16,
        ensures
            k == move_key_spec(self.zobrist_spec(), m, key, pc, rook, captured, to, old_ep, new_ep, rights, promotion),
    {
        let from = m.from();
        let to0 = m.to();
        let z = &self.zobrist;
        let castle_t = if m.move_type().0 == CASTLING {
            let us = Color(if rook.0 >= 8 { 1 } else { 0 });
            let rto = relative_square(us, if to0.0 > from.0 { Square(5) } else { Square(3) });
            z.psq[rook.0 as usize][to0.0 as usize] ^ z.psq[rook.0 as usize][rto.0 as usize]
        } else {
            0
        };
        let mut cap_t: u64 = 0;
        if captured.0 != 0 {
            let capsq = if m.move_type().0 == EN_PASSANT {
                if captured.0 >= 8 { Square(to.0.wrapping_sub(8)) } else { Square(to.0.wrapping_add(8)) }
            } else {
                to
            };
            if capsq.0 < 64 {
                cap_t = z.psq[captured.0 as usize][capsq.0 as usize];
            }
        }
        let move_t = z.psq[pc.0 as usize][from.0 as usize] ^ z.psq[pc.0 as usize][to.0 as usize];
        let old_ep_t = if old_ep.0 != 64 { z.en_passant[old_ep.file().0 as usize] } else { 0 };
        let rights_t = match rights {
            Some((before, after)) => z.castling[before.0 as usize] ^ z.castling[after.0 as usize],
            None => 0,
        };
        let new_ep_t = if new_ep.0 != 64 { z.en_passant[new_ep.file().0 as usize] } else { 0 };
        let promo_t = match promotion {
            Some(promoted) => z.psq[pc.0 as usize][to.0 as usize] ^ z.psq[promoted.0 as usize][to.0 as usize],
            None => 0,
        };
        key ^ z.side ^ castle_t ^ cap_t ^ move_t ^ old_ep_t ^ rights_t ^ new_ep_t ^ promo_t
    }

    /// The running piece-square value after the move, from the value before (sums wrap).
    fn move_psq(
        &self,
        m: Move,
        psq: psqt::Value,
        pc: Piece,
        rook: Piece,
        captured: Piece,
        to: Square,
        promotion: Option<Piece>,
    ) -> (r: psqt::Value)
        requires
            pc.0 < 16,
            rook.0 < 16,
            captured.0 < 16,
            to.0 < 64,
            promotion matches Some(p) ==> p.0 < 16,
        ensures
            r.0 == wrap32(psq.0 + move_psq_delta(m, pc, rook, captured, to, promotion)),
    {
        let from = m.from();
        let castle_d = castle_psq_change(m, rook);
        let capture_d = capture_psq_change(m, captured, to);
        let promotion_d = promotion_psq_change(pc, to, promotion);
        let a = psqt::psq(pc, to).0;
        let b = psqt::psq(pc, from).0;
        proof {
            psqt::lemma_psq_bounds(pc.0 as int, to.0 as int);
            psqt::lemma_psq_bounds(pc.0 as int, from.0 as int);
        }
        let d = castle_d - capture_d + promotion_d + (a - b);
        proof {
            lemma_wrapping_i32(psq.0, d);
        }
        psqt::Value(psq.0.wrapping_add(d))
    }

    /// The state after the move: `st` (copied from the state before, counters already
    /// advanced) with the hash key, running value, en passant square, castling rights,
    /// fifty-move counter, captured piece and checkers brought up to date. `self` is the
    /// position with the pieces already moved.
    fn next_state(
        &self,
        m: Move,
        us: Color,
        st: StateInfo,
        pc: Piece,
        rook: Piece,
        captured: Piece,
        to: Square,
        gives_check: bool,
    ) -> (r: StateInfo)
        requires
            self.wf(),
            us.0 < 2,
            valid_piece(pc.0),
            rook.0 < 16,
            captured.0 < 16,
            to.0 < 64,
            st.castling_right.0 < 16,
            st.ep_square.0 <= 64,
        ensures
            r.castling_right.0 < 16,
            r.ep_square.0 <= 64,
            r.plies_from_null == st.plies_from_null,
            r.rule50 == if captured.0 != 0 || pc.0 & 7 == PAWN { 0 } else { st.rule50 as int },
            r.ep_square.0 == 64 || (pc.0 & 7 == PAWN && r.ep_square.0 == to.0 - push_dir(us.0)),
            r.captured_piece == captured,
            r.checkers_bb.0 == checkers_after(self.board_spec(), us.0, gives_check),
            r.castling_right == rights_after(st.castling_right, self.rights_mask_spec(m.from_spec() as int),
                self.rights_mask_spec(to.0 as int)),
            r.ep_square == ep_after(self.board_spec(), m, us.0, pc, to),
            r.key == move_key_spec(self.zobrist_spec(), m, st.key, pc, rook, captured, to, st.ep_square, r.ep_square,
                rights_change(st.castling_right, r.castling_right, self.rights_mask_spec(m.from_spec() as int),
                self.rights_mask_spec(to.0 as int)), promotion_after(m, us.0, pc, r.ep_square)),
            r.psq.0 == wrap32(st.psq.0 + move_psq_delta(m, pc, rook, captured, to, promotion_after(m, us.0, pc,
                r.ep_square))),
    {
        let them = us.flip();
        let from = m.from();
        let mt = m.move_type().0;
        let mut st = st;
        let old_ep = st.ep_square;
        if captured.0 != 0 {
            st.rule50 = 0;
        }
        st.ep_square = Square(64);
        let mask = self.castling_rights_mask[from.0 as usize].bitor(self.castling_rights_mask[to.0 as usize]);
        let mut rights: Option<(CastlingRight, CastlingRight)> = None;
        if st.castling_right.0 != 0 && mask.0 != 0 {
            let old_cr = st.castling_right.0;
            let crv = mask.0;
            st.castling_right = st.castling_right.bitand(mask.not());
            assert(old_cr < 16 ==> old_cr & !crv < 16) by (bit_vector);
            rights = Some((CastlingRight(old_cr), st.castling_right));
        }
        proof {
            let v = pc.0;
            assert(valid_piece(v) ==> v & 7 < 8 && v < 16) by (bit_vector);
        }
        let mut promotion: Option<Piece> = None;
        if pc.piece_type().0 == PAWN {
            let fwd = if us.0 == 0 { to.0 >= 8 } else { to.0 < 56 };
            if (to.0 ^ from.0) == 16 && fwd && pawn_attacks_bb(us, if us.0 == 0 { Square(to.0 - 8) } else {
                Square(to.0 + 8) }).bitand(self.pieces_cp(them, PieceType(PAWN))).0 != 0 {
                st.ep_square = if us.0 == 0 { Square(to.0 - 8) } else { Square(to.0 + 8) };
            } else if mt == PROMOTION {
                promotion = Some(Piece::make(us, m.promotion_type()));
            }
            st.rule50 = 0;
        }
        st.psq = self.move_psq(m, st.psq, pc, rook, captured, to, promotion);
        st.key = self.move_key(m, st.key, pc, rook, captured, to, old_ep, st.ep_square, rights, promotion);
        st.captured_piece = captured;
        st.checkers_bb = if gives_check && self.pieces_cp(them, PieceType(KING)).0 != 0 {
            self.attackers_to(self.square(them, PieceType(KING))).bitand(self.pieces_c(us))
        } else {
            Bitboard(0)
        };
        st
    }

    #[verifier::rlimit(50)]
    fn _do_move(&mut self, m: Move, gives_check: bool)
        requires
            old(self).wf(),
            move_fits(old(self).board_spec(), m, old(self).side_spec().0),
            old(self).game_ply_spec() < i32::MAX,
            old(self).st_spec().rule50 < i32::MAX,
            old(self).st_spec().plies_from_null < i32::MAX,
        ensures
            do_move_post(*old(self), *final(self), m),
            final(self).st_spec().checkers_bb.0 == checkers_after(final(self).board_spec(), old(self).side_spec().0,
                gives_check),
            old(self).st_spec().key == position_key(*old(self)) ==> final(self).st_spec().key == position_key(*final(self)),
            old(self).st_spec().psq.0 == pieces_psq(old(self).board_spec(), 64) ==> final(self).st_spec().psq.0
                == pieces_psq(final(self).board_spec(), 64),
    {
        let us = self.side_to_move;
        let from = m.from();
        let to0 = m.to();
        let pc = self.board[from.0 as usize];
        let rook = self.board[to0.0 as usize];
        proof {
            lemma_move_type(m);
            let v = pc.0;
            assert(valid_piece(v) ==> v < 16) by (bit_vector);
        }
        let mut st = self.states[self.states.len() - 1].copy();
        self.game_ply = self.game_ply + 1;
        st.rule50 = st.rule50 + 1;
        st.plies_from_null = st.plies_from_null + 1;
        let (captured, to) = self.play_on_board(m, us);
        proof {
            lemma_castle_squares(us.0, from.0 as int, to0.0 as int);
        }
        let st2 = self.next_state(m, us, st, pc, rook, captured, to, gives_check);
        proof {
            if old(self).st_spec().key == position_key(*old(self)) {
                lemma_key_after_move(self.zobrist_spec(), old(self).board_spec(), m, us.0, st, st2, to, rook,
                    self.rights_mask_spec(from.0 as int), self.rights_mask_spec(to.0 as int));
            }
            if old(self).st_spec().psq.0 == pieces_psq(old(self).board_spec(), 64) {
                let b0 = old(self).board_spec();
                lemma_pieces_psq_sum(b0, 64);
                lemma_pieces_psq_sum(self.board_spec(), 64);
                lemma_psq_after_move(b0, m, us.0, to, rook, st2.ep_square);
                lemma_wrap32_inner(psq_sum(b0, 64), move_psq_delta(m, pc, rook, captured, to, promotion_after(m, us.0,
                    pc, st2.ep_square)));
            }
        }
        let mut st3 = st2;
        self.side_to_move = us.flip();
        self.set_check_info(&mut st3);
        self.states.push(st3);
        proof {
            assert(self.states@.drop_last() =~= old(self).states@);
        }
    }
}

impl Position {
    /// Takes back move `m`, the last one made (see `undo_move_post`).
    pub fn undo_move(&mut self, m: Move)
        requires
            old(self).wf(),
            old(self).states_spec().len() >= 2,
            old(self).game_ply_spec() > i32::MIN,
            undo_fits(old(self).board_spec(), m, (1 - old(self).side_spec().0) as u32, old(self).st_spec().captured_piece),
        ensures
            undo_move_post(*old(self), *final(self), m),
    {
        self.side_to_move = self.side_to_move.flip();
        let us = self.side_to_move;
        let from = m.from();
        let mut to = m.to();
        let to0 = to;
        let mt = m.move_type().0;
        let captured = self.states[self.states.len() - 1].captured_piece;
        proof {
            lemma_move_type(m);
            lemma_castle_squares(us.0, from.0 as int, to.0 as int);
        }
        if mt == PROMOTION {
            let ghost bb = self.board@;
            self.remove_piece(to, Ghost(self.board@));
            let pawn = Piece::make(us, PieceType(PAWN));
            self.put_piece(pawn, to, Ghost(self.board@.update(to.0 as int, Piece(0))));
            proof {
                assert(self.board@ =~= bb.update(to.0 as int, Piece(0)).update(to.0 as int, pawn));
            }
        }
        if mt == CASTLING {
            let mut rfrom = Square(64);
            let mut rto = Square(64);
            self.do_castling::<false>(us, from, &mut to, &mut rfrom, &mut rto);
            proof {
                assert(self.board@ =~= board_before(old(self).board@, m, us.0, captured));
            }
        } else {
            let ghost bm = self.board@;
            self.move_piece(to, from, Ghost(self.board@));
            if captured.0 != 0 {
                let capsq = if mt == EN_PASSANT {
                    if us.0 == 0 { Square(to.0 - 8) } else { Square(to.0 + 8) }
                } else {
                    to
                };
                let ghost bc = self.board@;
                self.put_piece(captured, capsq, Ghost(self.board@));
                proof {
                    assert(self.board@ =~= bc.update(capsq.0 as int, captured));
                }
            }
            proof {
                assert(self.board@ =~= board_before(old(self).board@, m, us.0, captured));
            }
        }
        let new_len = self.states.len() - 1;
        self.states.truncate(new_len);
        self.game_ply = self.game_ply - 1;
        proof {
            assert(self.states@ =~= old(self).states@.drop_last());
        }
    }
}

impl Position {
    /// Consistency check for debugging: the side to move is a color, each king stands on
    /// the first square of its king set, and an en passant square lies on the sixth rank
    /// of the side to move. The positions it accepts are those meeting `requires`; on
    /// them it answers `true`.
    pub fn is_ok(&self) -> (r: bool)
        requires
            self.wf(),
            piece_set(self.board_spec(), WHITE, KING) != 0,
            piece_set(self.board_spec(), BLACK, KING) != 0,
            self.st_spec().ep_square.0 == 64 || (if self.side_spec().0 == 0 {
                self.st_spec().ep_square.0 / 8 == 5
            } else {
                self.st_spec().ep_square.0 / 8 == 2
            }),
        ensures
            r,
    {
        let wk = self.square(Color(WHITE), PieceType(KING));
        let bk = self.square(Color(BLACK), PieceType(KING));
        proof {
            self.lemma_piece_on_set(Color(WHITE), PieceType(KING), wk.0 as int);
            self.lemma_piece_on_set(Color(BLACK), PieceType(KING), bk.0 as int);
        }
        let ep = self.ep_square();
        let side_ok = self.side_to_move.0 == WHITE || self.side_to_move.0 == BLACK;
        let kings_ok = self.piece_on(wk).0 == 6 && self.piece_on(bk).0 == 14;
        let ep_ok = ep.0 == 64 || ep.relative_rank(self.side_to_move).0 == 5;
        side_ok && kings_ok && ep_ok
    }
}

} // verus!
