//! The classic position: a mailbox of 64 squares with bitboards by piece type and
//! color and counts by piece, kept in step with it, a stack of states (one per move
//! played) and the castling bookkeeping.

pub mod inline;
pub mod game;
pub mod fen;
pub mod laws;

use vstd::prelude::*;
use crate::attacks::sq_bit;
use crate::psqt;
use crate::types::bitboard::Bitboard;
use crate::types::moves::CastlingRight;
use crate::types::piece::{Color, Piece, PieceType};
use crate::position::classic::inline::piece_set;
use crate::types::square::Square;
use crate::zobrist::Zobrist;

verus! {

/// The squares `s < n` of the mailbox `b` whose piece satisfies `f`, as a bitboard.
pub open spec fn sel_bits(b: Seq<Piece>, f: spec_fn(Piece) -> bool, n: nat) -> u64
    decreases n,
{
    if n == 0 {
        0
    } else {
        sel_bits(b, f, (n - 1) as nat) | (if f(b[n - 1]) { sq_bit(n - 1) } else { 0 })
    }
}

/// The number of squares `s < n` of the mailbox `b` whose piece satisfies `f`.
pub open spec fn sel_count(b: Seq<Piece>, f: spec_fn(Piece) -> bool, n: nat) -> nat
    decreases n,
{
    if n == 0 {
        0
    } else {
        sel_count(b, f, (n - 1) as nat) + (if f(b[n - 1]) { 1nat } else { 0nat })
    }
}

/// A square holds a piece.
pub open spec fn occupied_pred() -> spec_fn(Piece) -> bool {
    |q: Piece| q.0 != 0
}

/// A square holds a piece of type `t`.
pub open spec fn type_pred(t: u32) -> spec_fn(Piece) -> bool {
    |q: Piece| q.0 != 0 && q.0 & 7 == t
}

/// A square holds a piece of color `c`.
pub open spec fn color_pred(c: u32) -> spec_fn(Piece) -> bool {
    |q: Piece| q.0 != 0 && q.0 >> 3 == c
}

/// A square holds piece `p`.
pub open spec fn piece_pred(p: u32) -> spec_fn(Piece) -> bool {
    |q: Piece| q.0 == p
}

/// A raw value names a real piece: a white or a black pawn to king.
pub open spec fn valid_piece(p: u32) -> bool {
    (1 <= p <= 6) || (9 <= p <= 14)
}

/// A mailbox entry is empty or a real piece.
pub open spec fn entry_ok(p: Piece) -> bool {
    p.0 == 0 || valid_piece(p.0)
}

/// Facts of 64-bit masks with single bits `s` and `j`, used by the square-set lemmas.
pub(crate) proof fn lemma_mask_facts(x: u64, y: u64, z: u64, s: u64, j: u64)
    by (bit_vector)
    requires
        s < 64,
        j < 64,
    ensures
        s != j ==> (x | (1u64 << s)) >> j & 1 == x >> j & 1,
        s != j ==> (x ^ (1u64 << s)) >> j & 1 == x >> j & 1,
        (x | (1u64 << s)) >> s & 1 == 1,
        s != j && (x & (1u64 << j)) == 0 ==> ((x | (1u64 << s)) & (1u64 << j)) == 0,
        0u64 & (1u64 << j) == 0,
        0u64 & x == 0,
        ((x | (1u64 << s)) & (1u64 << j) != 0) <==> ((x & (1u64 << j)) != 0 || s == j),
        x | 0u64 == x,
        (x | y) | z == (x | z) | y,
        (x & (1u64 << s)) == 0 ==> x == (x | (1u64 << s)) ^ (1u64 << s),
        (x & (1u64 << s)) != 0 && s != j ==> (x ^ (1u64 << s)) | (1u64 << j) == (x | (1u64 << j)) ^ (1u64 << s),
        s != j && (x & (1u64 << j)) == 0 ==> (x ^ (1u64 << s)) | (1u64 << j) == x ^ ((1u64 << s) | (1u64 << j)),
        (x & (1u64 << s)) != 0 && (y & (1u64 << s)) != 0 ==> x & y != 0,
        (x & y) >> s & 1 == 1 ==> (x & (1u64 << s)) != 0 && (y & (1u64 << s)) != 0,
{
}

/// A raw piece value is `8 * color + type`.
pub(crate) proof fn lemma_piece_code(v: u32, cc: u32, t: u32)
    by (bit_vector)
    ensures
        v == 8 * cc + t && cc < 2 && 1 <= t <= 6 ==> v & 7 == t && v >> 3 == cc && v != 0,
        v >> 3 == cc && v & 7 == t && v < 16 ==> v == 8 * cc + t,
        (1 <= v <= 6) || (9 <= v <= 14) ==> 1 <= v & 7 <= 6 && v >> 3 < 2,
{
}

/// Bit `j` of `sel_bits(b, f, n)` is set exactly when `j < n` and the piece on `j`
/// satisfies `f`.
pub proof fn lemma_sel_bits_has(b: Seq<Piece>, f: spec_fn(Piece) -> bool, n: nat, j: u64)
    requires
        n <= 64,
        n <= b.len(),
        j < 64,
    ensures
        (sel_bits(b, f, n) & (1u64 << j) != 0) <==> (j < n && f(b[j as int])),
    decreases n,
{
    if n == 0 {
        lemma_mask_facts(0, 0, 0, j, j);
    } else {
        let m = (n - 1) as nat;
        lemma_sel_bits_has(b, f, m, j);
        let prev = sel_bits(b, f, m);
        let k = m as u64;
        assert(sq_bit(m as int) == 1u64 << k);
        let add: u64 = if f(b[m as int]) { 1u64 << k } else { 0u64 };
        assert(sel_bits(b, f, n) == prev | add);
        if f(b[m as int]) {
            lemma_mask_facts(prev, 0, 0, k, j);
        } else {
            lemma_mask_facts(prev, 0, 0, 0, 0);
        }
    }
}

/// Putting on square `s` a piece that satisfies `f` where the old one did not sets bit `s`.
pub proof fn lemma_sel_bits_set(b: Seq<Piece>, f: spec_fn(Piece) -> bool, n: nat, s: int, p: Piece)
    requires
        n <= 64,
        n <= b.len(),
        0 <= s < 64,
        s < b.len(),
        !f(b[s]),
        f(p),
    ensures
        sel_bits(b.update(s, p), f, n) == if s < n { sel_bits(b, f, n) | sq_bit(s) } else { sel_bits(b, f, n) },
    decreases n,
{
    let b2 = b.update(s, p);
    if n > 0 {
        let m = (n - 1) as nat;
        lemma_sel_bits_set(b, f, m, s, p);
        let x = sel_bits(b, f, m);
        let bs = sq_bit(s);
        let bm = sq_bit(m as int);
        let k = m as u64;
        let ss = s as u64;
        assert(bs == 1u64 << ss);
        assert(bm == 1u64 << k);
        if m == s {
            assert(b2[m as int] == p);
            lemma_mask_facts(x, 0, 0, 0, 0);
        } else if s < m {
            assert(b2[m as int] == b[m as int]);
            if f(b[m as int]) {
                lemma_mask_facts(x, bs, bm, 0, 0);
            } else {
                lemma_mask_facts(x, 0, 0, 0, 0);
                lemma_mask_facts(x | bs, 0, 0, 0, 0);
            }
        } else {
            assert(b2[m as int] == b[m as int]);
        }
    }
}

/// Emptying square `s`, whose piece satisfied `f`, for one that does not clears bit `s`
/// (toggles it, as it was set).
pub proof fn lemma_sel_bits_clear(b: Seq<Piece>, f: spec_fn(Piece) -> bool, n: nat, s: int, p: Piece)
    requires
        n <= 64,
        n <= b.len(),
        0 <= s < 64,
        s < b.len(),
        f(b[s]),
        !f(p),
    ensures
        sel_bits(b.update(s, p), f, n) == if s < n { sel_bits(b, f, n) ^ sq_bit(s) } else { sel_bits(b, f, n) },
    decreases n,
{
    let b2 = b.update(s, p);
    if n > 0 {
        let m = (n - 1) as nat;
        lemma_sel_bits_clear(b, f, m, s, p);
        let x = sel_bits(b, f, m);
        let bs = sq_bit(s);
        let bm = sq_bit(m as int);
        let k = m as u64;
        let ss = s as u64;
        assert(bs == 1u64 << ss);
        assert(bm == 1u64 << k);
        if m == s {
            assert(b2[m as int] == p);
            lemma_sel_bits_has(b, f, m, ss);
            assert(x & bs == 0);
            lemma_mask_facts(x, 0, 0, ss, 0);
        } else if s < m {
            assert(b2[m as int] == b[m as int]);
            if f(b[m as int]) {
                lemma_sel_bits_has(b, f, m, ss);
                assert(x & (1u64 << ss) != 0);
                lemma_mask_facts(x, 0, 0, ss, k);
            } else {
                lemma_mask_facts(x, 0, 0, 0, 0);
                lemma_mask_facts(x ^ bs, 0, 0, 0, 0);
            }
        } else {
            assert(b2[m as int] == b[m as int]);
        }
    }
}

/// Changing square `s` between pieces that agree on `f` keeps the bits.
pub proof fn lemma_sel_bits_same(b: Seq<Piece>, f: spec_fn(Piece) -> bool, n: nat, s: int, p: Piece)
    requires
        0 <= s < b.len(),
        n <= b.len(),
        f(b[s]) == f(p),
    ensures
        sel_bits(b.update(s, p), f, n) == sel_bits(b, f, n),
        sel_count(b.update(s, p), f, n) == sel_count(b, f, n),
    decreases n,
{
    if n > 0 {
        lemma_sel_bits_same(b, f, (n - 1) as nat, s, p);
        if n - 1 == s {
        } else {
            assert(b.update(s, p)[n - 1] == b[n - 1]);
        }
    }
}

/// Putting on square `s` a piece that satisfies `f` where the old one did not adds one
/// to the count; the reverse takes one away.
pub proof fn lemma_sel_count_update(b: Seq<Piece>, f: spec_fn(Piece) -> bool, n: nat, s: int, p: Piece)
    requires
        0 <= s < b.len(),
        s < n,
        n <= b.len(),
    ensures
        !f(b[s]) && f(p) ==> sel_count(b.update(s, p), f, n) == sel_count(b, f, n) + 1,
        f(b[s]) && !f(p) ==> sel_count(b.update(s, p), f, n) + 1 == sel_count(b, f, n),
    decreases n,
{
    if n - 1 == s {
        if n - 1 > 0 {
            lemma_sel_bits_same(b, f, (n - 1) as nat, s, b[s]);
            assert(b.update(s, b[s]) =~= b);
        }
        assert(sel_count(b.update(s, p), f, (n - 1) as nat) == sel_count(b, f, (n - 1) as nat)) by {
            lemma_sel_count_prefix(b, b.update(s, p), f, (n - 1) as nat);
        }
    } else {
        lemma_sel_count_update(b, f, (n - 1) as nat, s, p);
        assert(b.update(s, p)[n - 1] == b[n - 1]);
    }
}

/// Counts and bits below `n` depend only on the squares below `n`.
pub proof fn lemma_sel_count_prefix(a: Seq<Piece>, b: Seq<Piece>, f: spec_fn(Piece) -> bool, n: nat)
    requires
        forall|i: int| 0 <= i < n ==> a[i] == b[i],
    ensures
        sel_count(a, f, n) == sel_count(b, f, n),
        sel_bits(a, f, n) == sel_bits(b, f, n),
    decreases n,
{
    if n > 0 {
        lemma_sel_count_prefix(a, b, f, (n - 1) as nat);
    }
}

/// Moving the piece on `from` to the empty square `to` toggles both bits of the pieces
/// it satisfies, leaves the others, and keeps every count.
pub proof fn lemma_sel_move(l: Seq<Piece>, f: spec_fn(Piece) -> bool, from: int, to: int, from_to: u64)
    requires
        l.len() == 64,
        0 <= from < 64,
        0 <= to < 64,
        from != to,
        l[to].0 == 0,
        !f(Piece(0)),
        from_to == sq_bit(from) | sq_bit(to),
    ensures
        sel_bits(l.update(from, Piece(0)).update(to, l[from]), f, 64) == if f(l[from]) {
            sel_bits(l, f, 64) ^ from_to
        } else {
            sel_bits(l, f, 64)
        },
        sel_count(l.update(from, Piece(0)).update(to, l[from]), f, 64) == sel_count(l, f, 64),
{
    let e = Piece(0);
    let pc = l[from];
    let l1 = l.update(from, e);
    let l2 = l1.update(to, pc);
    assert(l[to] == e);
    assert(l1[to] == e);
    assert(l1[from] == e);
    if f(pc) {
        lemma_sel_bits_clear(l, f, 64, from, e);
        lemma_sel_bits_set(l1, f, 64, to, pc);
        lemma_sel_count_update(l, f, 64, from, e);
        lemma_sel_count_update(l1, f, 64, to, pc);
        let x = sel_bits(l, f, 64);
        let fs = from as u64;
        let ts = to as u64;
        lemma_sel_bits_has(l, f, 64, ts);
        assert(sq_bit(from) == 1u64 << fs && sq_bit(to) == 1u64 << ts);
        assert(x & (1u64 << ts) == 0);
        lemma_mask_facts(x, 0, 0, fs, ts);
    } else {
        lemma_sel_bits_same(l, f, 64, from, e);
        lemma_sel_bits_same(l1, f, 64, to, pc);
    }
}

/// No square below `n` satisfies `f`: no bit, no count.
pub proof fn lemma_sel_none(b: Seq<Piece>, f: spec_fn(Piece) -> bool, n: nat)
    requires
        n <= b.len(),
        forall|i: int| 0 <= i < n ==> !f(#[trigger] b[i]),
    ensures
        sel_bits(b, f, n) == 0,
        sel_count(b, f, n) == 0,
    decreases n,
{
    if n > 0 {
        lemma_sel_none(b, f, (n - 1) as nat);
        lemma_mask_facts(0, 0, 0, 0, 0);
    }
}

/// A positive count has a square to show for it.
pub proof fn lemma_sel_count_witness(b: Seq<Piece>, f: spec_fn(Piece) -> bool, n: nat) -> (i: int)
    requires
        sel_count(b, f, n) > 0,
    ensures
        0 <= i < n,
        f(b[i]),
    decreases n,
{
    if f(b[n - 1]) {
        (n - 1) as int
    } else {
        lemma_sel_count_witness(b, f, (n - 1) as nat)
    }
}

/// At most `n` squares below `n` are counted.
pub proof fn lemma_sel_count_bound(b: Seq<Piece>, f: spec_fn(Piece) -> bool, n: nat)
    ensures
        sel_count(b, f, n) <= n,
    decreases n,
{
    if n > 0 {
        lemma_sel_count_bound(b, f, (n - 1) as nat);
    }
}

/// The keys of the pieces on the squares below `n` of mailbox `b`, combined by exclusive or.
pub open spec fn pieces_key(z: Zobrist, b: Seq<Piece>, n: nat) -> u64
    decreases n,
{
    if n == 0 {
        0
    } else if b[n - 1].0 != 0 {
        pieces_key(z, b, (n - 1) as nat) ^ z.psq[b[n - 1].0 as int][n - 1]
    } else {
        pieces_key(z, b, (n - 1) as nat)
    }
}

/// The piece-square values of the pieces on the squares below `n` of mailbox `b`, summed
/// with wrapping.
pub open spec fn pieces_psq(b: Seq<Piece>, n: nat) -> i32
    decreases n,
{
    if n == 0 {
        0
    } else if b[n - 1].0 != 0 {
        pieces_psq(b, (n - 1) as nat).wrapping_add(psqt::psq_spec(b[n - 1].0 as int, n - 1) as i32)
    } else {
        pieces_psq(b, (n - 1) as nat)
    }
}

/// What a move leaves behind to be undone: the rights, counters and en passant
/// square copied into the next state, the hash key, the running piece-square value,
/// the pieces giving check, the piece captured, and the check information.
#[derive(Debug, Clone, Copy)]
pub struct StateInfo {
    pub castling_right: CastlingRight,
    pub rule50: i32,
    pub plies_from_null: i32,
    pub ep_square: Square,
    pub psq: psqt::Value,
    pub key: u64,
    pub checkers_bb: Bitboard,
    pub captured_piece: Piece,
    pub blockers_for_king: [Bitboard; 2],
    pub pinners: [Bitboard; 2],
    pub check_squares: [Bitboard; 8],
}

impl StateInfo {
    /// The state of an empty board: no rights, counters zero, no en passant square, no
    /// capture, no checks.
    pub fn new() -> (st: StateInfo)
        ensures
            st.castling_right.0 == 0,
            st.rule50 == 0,
            st.plies_from_null == 0,
            st.ep_square.0 == 64,
            st.psq.0 == 0,
            st.key == 0,
            st.checkers_bb.0 == 0,
            st.captured_piece.0 == 0,
    {
        StateInfo {
            castling_right: CastlingRight(0),
            rule50: 0,
            plies_from_null: 0,
            ep_square: Square(64),
            psq: psqt::Value(0),
            key: 0,
            checkers_bb: Bitboard(0),
            captured_piece: Piece(0),
            blockers_for_king: [Bitboard(0); 2],
            pinners: [Bitboard(0); 2],
            check_squares: [Bitboard(0); 8],
        }
    }

    /// The state a move starts from: rights, counters, en passant square and running
    /// value carried over, the rest as in `new`.
    pub fn copy(&self) -> (st: StateInfo)
        ensures
            st.castling_right == self.castling_right,
            st.rule50 == self.rule50,
            st.plies_from_null == self.plies_from_null,
            st.ep_square == self.ep_square,
            st.psq == self.psq,
            st.key == self.key,
            st.checkers_bb.0 == 0,
            st.captured_piece.0 == 0,
    {
        StateInfo {
            castling_right: self.castling_right,
            rule50: self.rule50,
            plies_from_null: self.plies_from_null,
            ep_square: self.ep_square,
            psq: self.psq,
            key: self.key,
            checkers_bb: Bitboard(0),
            captured_piece: Piece(0),
            blockers_for_king: [Bitboard(0); 2],
            pinners: [Bitboard(0); 2],
            check_squares: [Bitboard(0); 8],
        }
    }
}

/// The classic position.
pub struct Position {
    pub(crate) board: [Piece; 64],
    pub(crate) by_type_bb: [Bitboard; 8],
    pub(crate) by_color_bb: [Bitboard; 2],
    pub(crate) piece_count: [i32; 16],
    pub(crate) castling_rights_mask: [CastlingRight; 64],
    pub(crate) castling_rook_square: [Square; 16],
    pub(crate) castling_path: [Bitboard; 16],
    pub(crate) states: Vec<StateInfo>,
    pub(crate) side_to_move: Color,
    pub(crate) game_ply: i32,
    pub(crate) chess960: bool,
    pub(crate) zobrist: Zobrist,
}

impl Position {
    /// The mailbox: the piece on each square (0 for none).
    pub closed spec fn board_spec(&self) -> Seq<Piece> {
        self.board@
    }

    /// The bitboard of piece type `t` (0 for all pieces).
    pub closed spec fn type_bb_spec(&self, t: int) -> u64 {
        self.by_type_bb[t].0
    }

    /// The bitboard of color `c`.
    pub closed spec fn color_bb_spec(&self, c: int) -> u64 {
        self.by_color_bb[c].0
    }

    /// The count of piece `p`.
    pub closed spec fn count_spec(&self, p: int) -> i32 {
        self.piece_count[p]
    }

    /// The states, oldest first; the last is the current one.
    pub closed spec fn states_spec(&self) -> Seq<StateInfo> {
        self.states@
    }

    /// The current state.
    pub open spec fn st_spec(&self) -> StateInfo {
        self.states_spec().last()
    }

    /// The side to move.
    pub closed spec fn side_spec(&self) -> Color {
        self.side_to_move
    }

    /// The plies played since the start of the game.
    pub closed spec fn game_ply_spec(&self) -> i32 {
        self.game_ply
    }

    /// Whether the game is Chess960.
    pub closed spec fn chess960_spec(&self) -> bool {
        self.chess960
    }

    /// The square of the rook of castling right `i`.
    pub closed spec fn rook_square_spec(&self, i: int) -> Square {
        self.castling_rook_square[i]
    }

    /// The squares between king and rook of castling right `i`.
    pub closed spec fn castling_path_spec(&self, i: int) -> u64 {
        self.castling_path[i].0
    }

    /// The castling rights lost when a piece leaves or reaches square `s`.
    pub closed spec fn rights_mask_spec(&self, s: int) -> CastlingRight {
        self.castling_rights_mask[s]
    }

    /// The hash keys.
    pub closed spec fn zobrist_spec(&self) -> Zobrist {
        self.zobrist
    }

    /// The bitboards, counts and mailbox entries agree with the mailbox `l`.
    pub closed spec fn consistent(&self, l: Seq<Piece>) -> bool {
        &&& l.len() == 64
        &&& forall|s: int| 0 <= s < 64 ==> entry_ok(#[trigger] l[s])
        &&& self.by_type_bb[0].0 == sel_bits(l, occupied_pred(), 64)
        &&& forall|t: int| 1 <= t < 8 ==> #[trigger] self.by_type_bb[t].0 == sel_bits(l, type_pred(t as u32), 64)
        &&& forall|c: int| 0 <= c < 2 ==> #[trigger] self.by_color_bb[c].0 == sel_bits(l, color_pred(c as u32), 64)
        &&& forall|p: int| 0 <= p < 16 && valid_piece(p as u32) ==> #[trigger] self.piece_count[p]
            == sel_count(l, piece_pred(p as u32), 64)
        &&& forall|p: int| 0 <= p < 16 && !valid_piece(p as u32) ==> #[trigger] self.piece_count[p] == 0
    }

    /// The bookkeeping is in order: bitboards and counts agree with the mailbox, there
    /// is a current state, the side to move is a color, and the castling tables hold
    /// squares and rights.
    pub closed spec fn wf(&self) -> bool {
        &&& self.consistent(self.board@)
        &&& self.states@.len() >= 1
        &&& self.side_to_move.0 < 2
        &&& forall|i: int| 0 <= i < 16 ==> (#[trigger] self.castling_rook_square[i]).0 < 64
        &&& forall|i: int| 0 <= i < 64 ==> (#[trigger] self.castling_rights_mask[i]).0 < 16
        &&& forall|i: int| 0 <= i < self.states@.len() ==> (#[trigger] self.states@[i]).castling_right.0 < 16
            && self.states@[i].ep_square.0 <= 64
    }

    /// A piece counted at least once stands on some square of its color and type.
    pub proof fn lemma_count_one_nonempty(&self, p: int, c: Color, pt: PieceType)
        requires
            self.wf(),
            0 <= p < 16,
            c.0 < 2,
            1 <= pt.0 <= 6,
            p == 8 * c.0 + pt.0,
            self.count_spec(p) >= 1,
        ensures
            piece_set(self.board_spec(), c.0, pt.0) != 0,
    {
        let v = p as u32;
        let cc = c.0;
        let t = pt.0;
        lemma_piece_code(v, cc, t);
        assert(valid_piece(v));
        let i = lemma_sel_count_witness(self.board@, piece_pred(v), 64);
        let iu = i as u64;
        lemma_sel_bits_has(self.board@, color_pred(cc), 64, iu);
        lemma_sel_bits_has(self.board@, type_pred(t), 64, iu);
        let x = sel_bits(self.board@, color_pred(cc), 64);
        let y = sel_bits(self.board@, type_pred(t), 64);
        lemma_mask_facts(x, y, 0, iu, 0);
    }

    /// A square of the set of pieces of color `c` and type `t` holds that piece.
    pub proof fn lemma_piece_on_set(&self, c: Color, pt: PieceType, s: int)
        requires
            self.wf(),
            c.0 < 2,
            1 <= pt.0 <= 6,
            0 <= s < 64,
            crate::types::bitboard::bb_has(piece_set(self.board_spec(), c.0, pt.0), s),
        ensures
            self.board_spec()[s].0 == 8 * c.0 + pt.0,
    {
        let su = s as u64;
        let x = sel_bits(self.board@, color_pred(c.0), 64);
        let y = sel_bits(self.board@, type_pred(pt.0), 64);
        lemma_mask_facts(x, y, 0, su, 0);
        lemma_sel_bits_has(self.board@, color_pred(c.0), 64, su);
        lemma_sel_bits_has(self.board@, type_pred(pt.0), 64, su);
        let v = self.board@[s].0;
        let cc = c.0;
        let t = pt.0;
        lemma_piece_code(v, cc, t);
        assert(entry_ok(self.board@[s]));
    }

    proof fn lemma_empty_consistent(b: Seq<Piece>)
        requires
            b.len() == 64,
            forall|i: int| 0 <= i < 64 ==> (#[trigger] b[i]).0 == 0,
        ensures
            sel_bits(b, occupied_pred(), 64) == 0,
            forall|t: int| 1 <= t < 8 ==> #[trigger] sel_bits(b, type_pred(t as u32), 64) == 0,
            forall|c: int| 0 <= c < 2 ==> #[trigger] sel_bits(b, color_pred(c as u32), 64) == 0,
            forall|p: int| 0 <= p < 16 && valid_piece(p as u32) ==> #[trigger] sel_count(b, piece_pred(p as u32), 64) == 0,
    {
        lemma_sel_none(b, occupied_pred(), 64);
        assert forall|t: int| 1 <= t < 8 implies #[trigger] sel_bits(b, type_pred(t as u32), 64) == 0 by {
            lemma_sel_none(b, type_pred(t as u32), 64);
        }
        assert forall|c: int| 0 <= c < 2 implies #[trigger] sel_bits(b, color_pred(c as u32), 64) == 0 by {
            lemma_sel_none(b, color_pred(c as u32), 64);
        }
        assert forall|p: int| 0 <= p < 16 && valid_piece(p as u32) implies #[trigger] sel_count(b, piece_pred(p as u32), 64) == 0 by {
            lemma_sel_none(b, piece_pred(p as u32), 64);
        }
    }

    /// An empty board, white to move, ply 0, standard chess, one empty state, and the
    /// hash keys drawn.
    pub fn new() -> (pos: Position)
        ensures
            pos.wf(),
            forall|i: int| 0 <= i < 64 ==> (#[trigger] pos.board_spec()[i]).0 == 0,
            pos.states_spec().len() == 1,
            pos.side_spec().0 == 0,
            pos.game_ply_spec() == 0,
            !pos.chess960_spec(),
    {
        let mut zobrist = Zobrist::new();
        zobrist.init();
        let mut states: Vec<StateInfo> = Vec::new();
        states.push(StateInfo::new());
        let pos = Position {
            board: [Piece(0); 64],
            by_type_bb: [Bitboard(0); 8],
            by_color_bb: [Bitboard(0); 2],
            piece_count: [0; 16],
            castling_rights_mask: [CastlingRight(0); 64],
            castling_rook_square: [Square(0); 16],
            castling_path: [Bitboard(0); 16],
            states: states,
            side_to_move: Color(0),
            game_ply: 0,
            chess960: false,
            zobrist: zobrist,
        };
        proof {
            Self::lemma_empty_consistent(pos.board@);
        }
        pos
    }

    /// Empties the position: no pieces, no castling, one empty state, white to move,
    /// ply 0, standard chess. The hash keys stay.
    pub fn clear(&mut self)
        ensures
            final(self).wf(),
            forall|i: int| 0 <= i < 64 ==> (#[trigger] final(self).board_spec()[i]).0 == 0,
            final(self).states_spec().len() == 1,
            final(self).states_spec()[0].ep_square.0 == 64,
            final(self).states_spec()[0].castling_right.0 == 0,
            final(self).states_spec()[0].rule50 == 0,
            final(self).side_spec().0 == 0,
            final(self).game_ply_spec() == 0,
            !final(self).chess960_spec(),
            final(self).zobrist_spec() == old(self).zobrist_spec(),
            forall|i: int| 0 <= i < 64 ==> (#[trigger] final(self).rights_mask_spec(i)).0 == 0,
    {
        self.board = [Piece(0); 64];
        self.by_type_bb = [Bitboard(0); 8];
        self.by_color_bb = [Bitboard(0); 2];
        self.piece_count = [0; 16];
        self.castling_rights_mask = [CastlingRight(0); 64];
        self.castling_rook_square = [Square(0); 16];
        self.castling_path = [Bitboard(0); 16];
        let mut states: Vec<StateInfo> = Vec::new();
        states.push(StateInfo::new());
        self.states = states;
        self.side_to_move = Color(0);
        self.game_ply = 0;
        self.chess960 = false;
        proof {
            Self::lemma_empty_consistent(self.board@);
        }
    }

    fn put_piece(&mut self, pc: Piece, s: Square, Ghost(l): Ghost<Seq<Piece>>)
        requires
            old(self).consistent(l),
            s.0 < 64,
            valid_piece(pc.0),
            l[s.0 as int].0 == 0,
        ensures
            final(self).consistent(l.update(s.0 as int, pc)),
            final(self).board@ == old(self).board@.update(s.0 as int, pc),
            final(self).castling_rights_mask == old(self).castling_rights_mask,
            final(self).castling_rook_square == old(self).castling_rook_square,
            final(self).castling_path == old(self).castling_path,
            final(self).states == old(self).states,
            final(self).side_to_move == old(self).side_to_move,
            final(self).game_ply == old(self).game_ply,
            final(self).chess960 == old(self).chess960,
            final(self).zobrist == old(self).zobrist,
    {
        let si = s.0 as usize;
        let t = pc.piece_type().0 as usize;
        let c = pc.color().0 as usize;
        let p = pc.0 as usize;
        let ghost l2 = l.update(s.0 as int, pc);
        proof {
            let v = pc.0;
            lemma_piece_code(v, 0, 0);
            lemma_sel_bits_set(l, occupied_pred(), 64, s.0 as int, pc);
            lemma_sel_bits_set(l, type_pred(t as u32), 64, s.0 as int, pc);
            lemma_sel_bits_set(l, color_pred(c as u32), 64, s.0 as int, pc);
            lemma_sel_count_update(l, piece_pred(pc.0), 64, s.0 as int, pc);
            lemma_sel_count_bound(l, piece_pred(pc.0), 64);
            assert forall|tt: int| 1 <= tt < 8 implies #[trigger] sel_bits(l2, type_pred(tt as u32), 64)
                == if tt == t { sel_bits(l, type_pred(tt as u32), 64) | sq_bit(s.0 as int) } else {
                    sel_bits(l, type_pred(tt as u32), 64) } by {
                if tt != t {
                    lemma_sel_bits_same(l, type_pred(tt as u32), 64, s.0 as int, pc);
                }
            }
            assert forall|cc: int| 0 <= cc < 2 implies #[trigger] sel_bits(l2, color_pred(cc as u32), 64)
                == if cc == c { sel_bits(l, color_pred(cc as u32), 64) | sq_bit(s.0 as int) } else {
                    sel_bits(l, color_pred(cc as u32), 64) } by {
                if cc != c {
                    lemma_sel_bits_same(l, color_pred(cc as u32), 64, s.0 as int, pc);
                }
            }
            assert forall|pp: int| 0 <= pp < 16 && valid_piece(pp as u32) && pp != p implies
                #[trigger] sel_count(l2, piece_pred(pp as u32), 64) == sel_count(l, piece_pred(pp as u32), 64) by {
                lemma_sel_bits_same(l, piece_pred(pp as u32), 64, s.0 as int, pc);
            }
        }
        self.board[si] = pc;
        self.by_type_bb[0] = self.by_type_bb[0].bitor_sq(s);
        self.by_type_bb[t] = self.by_type_bb[t].bitor_sq(s);
        self.by_color_bb[c] = self.by_color_bb[c].bitor_sq(s);
        self.piece_count[p] = self.piece_count[p] + 1;
        proof {
            assert forall|ss: int| 0 <= ss < 64 implies entry_ok(#[trigger] l2[ss]) by {
                if ss != s.0 {
                    assert(l2[ss] == l[ss]);
                }
            }
        }
    }

    fn remove_piece(&mut self, s: Square, Ghost(l): Ghost<Seq<Piece>>)
        requires
            old(self).consistent(l),
            s.0 < 64,
            l[s.0 as int] == old(self).board@[s.0 as int],
            valid_piece(l[s.0 as int].0),
        ensures
            final(self).consistent(l.update(s.0 as int, Piece(0))),
            final(self).board@ == old(self).board@,
            final(self).castling_rights_mask == old(self).castling_rights_mask,
            final(self).castling_rook_square == old(self).castling_rook_square,
            final(self).castling_path == old(self).castling_path,
            final(self).states == old(self).states,
            final(self).side_to_move == old(self).side_to_move,
            final(self).game_ply == old(self).game_ply,
            final(self).chess960 == old(self).chess960,
            final(self).zobrist == old(self).zobrist,
    {
        let si = s.0 as usize;
        let pc = self.board[si];
        let t = pc.piece_type().0 as usize;
        let c = pc.color().0 as usize;
        let p = pc.0 as usize;
        let ghost e = Piece(0);
        let ghost l2 = l.update(s.0 as int, e);
        proof {
            let v = pc.0;
            lemma_piece_code(v, 0, 0);
            lemma_sel_bits_clear(l, occupied_pred(), 64, s.0 as int, e);
            lemma_sel_bits_clear(l, type_pred(t as u32), 64, s.0 as int, e);
            lemma_sel_bits_clear(l, color_pred(c as u32), 64, s.0 as int, e);
            lemma_sel_count_update(l, piece_pred(pc.0), 64, s.0 as int, e);
            assert forall|tt: int| 1 <= tt < 8 implies #[trigger] sel_bits(l2, type_pred(tt as u32), 64)
                == if tt == t { sel_bits(l, type_pred(tt as u32), 64) ^ sq_bit(s.0 as int) } else {
                    sel_bits(l, type_pred(tt as u32), 64) } by {
                if tt != t {
                    lemma_sel_bits_same(l, type_pred(tt as u32), 64, s.0 as int, e);
                }
            }
            assert forall|cc: int| 0 <= cc < 2 implies #[trigger] sel_bits(l2, color_pred(cc as u32), 64)
                == if cc == c { sel_bits(l, color_pred(cc as u32), 64) ^ sq_bit(s.0 as int) } else {
                    sel_bits(l, color_pred(cc as u32), 64) } by {
                if cc != c {
                    lemma_sel_bits_same(l, color_pred(cc as u32), 64, s.0 as int, e);
                }
            }
            assert forall|pp: int| 0 <= pp < 16 && valid_piece(pp as u32) && pp != p implies
                #[trigger] sel_count(l2, piece_pred(pp as u32), 64) == sel_count(l, piece_pred(pp as u32), 64) by {
                lemma_sel_bits_same(l, piece_pred(pp as u32), 64, s.0 as int, e);
            }
        }
        self.by_type_bb[0] = self.by_type_bb[0].bitxor_sq(s);
        self.by_type_bb[t] = self.by_type_bb[t].bitxor_sq(s);
        self.by_color_bb[c] = self.by_color_bb[c].bitxor_sq(s);
        self.piece_count[p] = self.piece_count[p] - 1;
        proof {
            assert forall|ss: int| 0 <= ss < 64 implies entry_ok(#[trigger] l2[ss]) by {
                if ss != s.0 {
                    assert(l2[ss] == l[ss]);
                }
            }
        }
    }

    fn move_piece(&mut self, from: Square, to: Square, Ghost(l): Ghost<Seq<Piece>>)
        requires
            old(self).consistent(l),
            from.0 < 64,
            to.0 < 64,
            from.0 != to.0,
            l[from.0 as int] == old(self).board@[from.0 as int],
            valid_piece(l[from.0 as int].0),
            l[to.0 as int].0 == 0,
        ensures
            final(self).consistent(l.update(from.0 as int, Piece(0)).update(to.0 as int, old(self).board@[from.0 as int])),
            final(self).board@ == old(self).board@.update(from.0 as int, Piece(0)).update(
                to.0 as int,
                old(self).board@[from.0 as int],
            ),
            final(self).castling_rights_mask == old(self).castling_rights_mask,
            final(self).castling_rook_square == old(self).castling_rook_square,
            final(self).castling_path == old(self).castling_path,
            final(self).states == old(self).states,
            final(self).side_to_move == old(self).side_to_move,
            final(self).game_ply == old(self).game_ply,
            final(self).chess960 == old(self).chess960,
            final(self).zobrist == old(self).zobrist,
    {
        let fi = from.0 as usize;
        let ti = to.0 as usize;
        let pc = self.board[fi];
        let t = pc.piece_type().0 as usize;
        let c = pc.color().0 as usize;
        let from_to = Bitboard::from_square(from).bitor_sq(to);
        proof {
            let v = pc.0;
            lemma_piece_code(v, 0, 0);
            lemma_sel_move(l, occupied_pred(), from.0 as int, to.0 as int, from_to.0);
            assert forall|tt: int| 1 <= tt < 8 implies #[trigger] sel_bits(
                l.update(from.0 as int, Piece(0)).update(to.0 as int, pc), type_pred(tt as u32), 64)
                == if tt == t { sel_bits(l, type_pred(tt as u32), 64) ^ from_to.0 } else {
                    sel_bits(l, type_pred(tt as u32), 64) } by {
                lemma_sel_move(l, type_pred(tt as u32), from.0 as int, to.0 as int, from_to.0);
            }
            assert forall|cc: int| 0 <= cc < 2 implies #[trigger] sel_bits(
                l.update(from.0 as int, Piece(0)).update(to.0 as int, pc), color_pred(cc as u32), 64)
                == if cc == c { sel_bits(l, color_pred(cc as u32), 64) ^ from_to.0 } else {
                    sel_bits(l, color_pred(cc as u32), 64) } by {
                lemma_sel_move(l, color_pred(cc as u32), from.0 as int, to.0 as int, from_to.0);
            }
            assert forall|pp: int| 0 <= pp < 16 && valid_piece(pp as u32) implies #[trigger] sel_count(
                l.update(from.0 as int, Piece(0)).update(to.0 as int, pc), piece_pred(pp as u32), 64)
                == sel_count(l, piece_pred(pp as u32), 64) by {
                lemma_sel_move(l, piece_pred(pp as u32), from.0 as int, to.0 as int, from_to.0);
            }
            let l2 = l.update(from.0 as int, Piece(0)).update(to.0 as int, pc);
            assert forall|ss: int| 0 <= ss < 64 implies entry_ok(#[trigger] l2[ss]) by {
                if ss != from.0 && ss != to.0 {
                    assert(l2[ss] == l[ss]);
                }
            }
        }
        self.by_type_bb[0] = self.by_type_bb[0].bitxor(from_to);
        self.by_type_bb[t] = self.by_type_bb[t].bitxor(from_to);
        self.by_color_bb[c] = self.by_color_bb[c].bitxor(from_to);
        self.board[fi] = Piece(0);
        self.board[ti] = pc;
    }
}

} // verus!
