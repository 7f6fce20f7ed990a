//! Evaluation: piece-square tables and the incrementally updated score.

pub mod score;
pub mod psqt;

use vstd::prelude::*;
use crate::evaluate::psqt::{PsqTable, PIECE_VALUES, PSQ_BONUS, psq_entry, flip_square};
use crate::evaluate::score::{Score, Value, Phase, PHASE_NUM, add_pair, sub_pair, neg_pair, wrap16};
use crate::board::{PieceKind, ChessMove, PIECE_KIND_NB, KIND_KING, KIND_ROOK, KIND_PAWN, board_side_to_move,
    board_piece_on, board_color_on, board_en_passant, board_pieces, piece_on_of, color_on_of, pieces_of, side_of,
    en_passant_of};
use crate::types::square::{Square, File, Rank, FILE_C, FILE_D, FILE_F, FILE_G};
use crate::types::piece::Color;
use crate::types::bitboard::{Bitboard, popcount, popcount_spec};

verus! {

/// Phase weights of pawn, knight, bishop, rook, queen and king; a full set of pieces
/// weighs `PHASE_MIDGAME`.
pub const PHASE_WEIGHTS: [u32; PIECE_KIND_NB] = [0, 1, 1, 2, 4, 0];
/// The phase weight of the starting material.
pub const PHASE_MIDGAME: u32 = 24;

/// Evaluation state: the piece-square tables of both colors, the running
/// piece-square score of the position, and the scores saved before each move.
#[derive(Debug, Clone)]
pub struct Evaluator {
    psq_tables: [PsqTable; 2],
    psq: Score,
    psq_stack: Vec<Score>,
}

/// What a move does on the board, as read before it is played: the side moving, the
/// kind moved, the kind standing on the destination, whether it is castling (the king
/// takes its own rook), whether it is an en passant capture, and the kind standing on
/// the square of the pawn taken en passant.
#[derive(Debug, Clone, Copy, PartialEq, Eq, Structural)]
pub struct MoveFacts {
    pub side: Color,
    pub moved: PieceKind,
    pub victim: Option<PieceKind>,
    pub castling: bool,
    pub en_passant: bool,
    pub passed_victim: Option<PieceKind>,
}

impl MoveFacts {
    /// The facts describe a playable move.
    pub open spec fn wf(self) -> bool {
        &&& self.side.0 < 2
        &&& self.moved.0 < 6
        &&& self.victim matches Some(k) ==> k.0 < 6
        &&& self.passed_victim matches Some(k) ==> k.0 < 6
        &&& self.en_passant && !self.castling ==> self.passed_victim is Some
    }
}

/// Table entry of color `c`, kind `pc`, square `sq`.
pub open spec fn table_at(t: [PsqTable; 2], c: int, pc: int, sq: int) -> (i16, i16) {
    t[c].scores[pc][sq]@
}

/// `psq + (table(c, pc, to) - table(c, pc, from))`, wrapped.
pub open spec fn moved_pair(t: [PsqTable; 2], psq: (i16, i16), c: int, pc_to: int, to: int, pc_from: int,
    from: int) -> (i16, i16) {
    add_pair(psq, sub_pair(table_at(t, c, pc_to, to), table_at(t, c, pc_from, from)))
}

/// The piece-square score after a move with facts `f`, starting from `psq`.
pub open spec fn psq_after_move(t: [PsqTable; 2], psq: (i16, i16), f: MoveFacts, mv: ChessMove) -> (i16, i16) {
    let c = f.side.0 as int;
    let from = mv.from.0 as int;
    let to = mv.to.0 as int;
    if f.castling {
        let short = from % 8 < to % 8;
        let back = if c == 0 { 0int } else { 56int };
        let kto = back + (if short { FILE_G as int } else { FILE_C as int });
        let rto = back + (if short { FILE_F as int } else { FILE_D as int });
        let p1 = moved_pair(t, psq, c, KIND_KING as int, kto, KIND_KING as int, from);
        moved_pair(t, p1, c, KIND_ROOK as int, rto, KIND_ROOK as int, to)
    } else {
        let captured = if f.en_passant {
            let capsq = (if c == 0 { 32int } else { 24int }) + to % 8;
            sub_pair(psq, table_at(t, 1 - c, f.passed_victim.unwrap().0 as int, capsq))
        } else if f.victim is Some {
            sub_pair(psq, table_at(t, 1 - c, f.victim.unwrap().0 as int, to))
        } else {
            psq
        };
        match mv.promotion {
            Some(p) => moved_pair(t, captured, c, p.0 as int, to, f.moved.0 as int, from),
            None => moved_pair(t, captured, c, f.moved.0 as int, to, f.moved.0 as int, from),
        }
    }
}

/// The sum, wrapped, of the table entries of the first `n` occupants
/// (square `i` holds `occ[i]`).
pub open spec fn psq_total(t: [PsqTable; 2], occ: Seq<Option<(Color, PieceKind)>>, n: nat) -> (i16, i16)
    decreases n,
{
    if n == 0 {
        (0i16, 0i16)
    } else {
        let prev = psq_total(t, occ, (n - 1) as nat);
        match occ[n - 1] {
            Some(cp) => add_pair(prev, table_at(t, cp.0.0 as int, cp.1.0 as int, n - 1)),
            None => prev,
        }
    }
}

/// Occupants are well formed: 64 squares, colors and kinds in range.
pub open spec fn occupants_wf(occ: Seq<Option<(Color, PieceKind)>>) -> bool {
    &&& occ.len() == 64
    &&& forall|i: int| 0 <= i < 64 ==> (#[trigger] occ[i] matches Some(cp) ==> cp.0.0 < 2 && cp.1.0 < 6)
}

/// The occupants of a board: square `i` holds the color and kind read there, or nothing
/// unless both are read.
pub open spec fn board_occupants(b: cozy_chess::Board) -> Seq<Option<(Color, PieceKind)>> {
    Seq::new(64, |i: int| match (piece_on_of(b, i as u32), color_on_of(b, i as u32)) {
        (Some(k), Some(c)) => Some((c, k)),
        _ => None,
    })
}

/// What board `b` says of move `mv` (see `MoveFacts`): an en passant capture is a pawn
/// moving onto the en passant square. `None` when no piece stands on the origin, or for
/// an en passant capture (not onto an own piece) with no piece on the square of the pawn
/// taken; the score then stays as it is.
pub open spec fn move_facts_of(b: cozy_chess::Board, mv: ChessMove) -> Option<MoveFacts> {
    let c = side_of(b);
    let castling = match color_on_of(b, mv.to.0) {
        Some(col) => col.0 == c,
        None => false,
    };
    let to_ep = match en_passant_of(b) {
        Some(f) => mv.to.0 == 8 * (if c == 0 { 5int } else { 2 }) + f.0,
        None => false,
    };
    let capsq = (8 * (if c == 0 { 4int } else { 3 }) + mv.to.0 % 8) as u32;
    let passed_victim = piece_on_of(b, capsq);
    match piece_on_of(b, mv.from.0) {
        Some(moved) => {
            let en_passant = to_ep && moved.0 == KIND_PAWN;
            if en_passant && !castling && passed_victim is None {
            None
        } else {
            Some(
                MoveFacts {
                    side: Color(c),
                    moved,
                    victim: piece_on_of(b, mv.to.0),
                    castling,
                    en_passant,
                    passed_victim,
                },
            )
        }
        },
        None => None,
    }
}

/// The phase weights of the pieces of the first `k` kinds on a board.
pub open spec fn phase_upto(b: cozy_chess::Board, k: nat) -> int
    decreases k,
{
    if k == 0 {
        0
    } else {
        phase_upto(b, (k - 1) as nat) + PHASE_WEIGHTS[k - 1] * popcount_spec(pieces_of(b, (k - 1) as u32))
    }
}

/// The game phase of a board: the summed phase weights of its pieces, at most 256.
pub open spec fn board_phase(b: cozy_chess::Board) -> int {
    let p = phase_upto(b, 6);
    if p > 256 { 256 } else { p }
}

/// The tapered evaluation of running score `psq` on board `b`, seen from the side to move.
pub open spec fn evaluation_of(psq: (i16, i16), b: cozy_chess::Board) -> i16 {
    if side_of(b) == 0 { wrap16(tapered(psq, board_phase(b))) } else { wrap16(-wrap16(tapered(psq, board_phase(b)))) }
}

/// Tables of black are those of white seen from the other side.
pub open spec fn tables_mirrored(t: [PsqTable; 2]) -> bool {
    forall|pc: int, s: int| 0 <= pc < 6 && 0 <= s < 64 ==> #[trigger] table_at(t, 1, pc, flip_square(s))
        == neg_pair(table_at(t, 0, pc, s))
}

/// Tables of white built from piece values `pv` and square bonuses `sq`.
pub open spec fn tables_built(t: [PsqTable; 2], pv: [[i16; PHASE_NUM]; PIECE_KIND_NB],
    sq: [[[[i16; PHASE_NUM]; 8]; 8]; PIECE_KIND_NB]) -> bool {
    forall|pc: int, f: int, r: int| 0 <= pc < 6 && 0 <= f < 8 && 0 <= r < 8 ==>
        #[trigger] table_at(t, 0, pc, 8 * r + f) == (psq_entry(pv, sq, pc, f, r, 0), psq_entry(pv, sq, pc, f, r, 1))
}

/// The tapered evaluation from the side of white: the endgame value plus the share of
/// the middlegame advantage given by the phase.
pub open spec fn tapered(psq: (i16, i16), phase: int) -> int {
    let num = (psq.0 - psq.1) * phase;
    psq.1 + (if num >= 0 { num / (PHASE_MIDGAME as int) } else { -((-num) / (PHASE_MIDGAME as int)) })
}

impl Evaluator {
    /// The piece-square tables.
    pub closed spec fn tables(&self) -> [PsqTable; 2] {
        self.psq_tables
    }

    /// The running piece-square score.
    pub closed spec fn psq_spec(&self) -> (i16, i16) {
        self.psq@
    }

    /// The scores saved before each move, oldest first.
    pub closed spec fn stack(&self) -> Seq<(i16, i16)> {
        self.psq_stack@.map_values(|s: Score| s@)
    }

    /// Evaluator with the default tables for white, mirrored for black, and a zero score.
    pub fn default() -> (e: Evaluator)
        ensures
            tables_built(e.tables(), PIECE_VALUES, PSQ_BONUS),
            tables_mirrored(e.tables()),
            e.psq_spec() == (0i16, 0i16),
            e.stack().len() == 0,
    {
        Evaluator::new(&PIECE_VALUES, &PSQ_BONUS)
    }

    /// Evaluator whose white tables hold `pc_table[pc] + sq_tables[pc][rank][file]`, black
    /// tables mirrored, and a zero score.
    pub fn new(pc_table: &[[i16; PHASE_NUM]; PIECE_KIND_NB], sq_tables: &[[[[i16; PHASE_NUM]; 8]; 8]; PIECE_KIND_NB])
        -> (e: Evaluator)
        ensures
            tables_built(e.tables(), *pc_table, *sq_tables),
            tables_mirrored(e.tables()),
            e.psq_spec() == (0i16, 0i16),
            e.stack().len() == 0,
    {
        let psqt = PsqTable::new(pc_table, sq_tables);
        let flipped = psqt.not();
        let e = Evaluator { psq_tables: [psqt, flipped], psq: Score::default(), psq_stack: Vec::new() };
        proof {
            assert(e.stack() =~= Seq::<(i16, i16)>::empty());
        }
        e
    }

    /// The running piece-square score.
    pub fn psq(&self) -> (s: Score)
        ensures
            s@ == self.psq_spec(),
    {
        self.psq
    }

    /// The table score of a piece of color `c` and kind `pc` on `sq`.
    pub fn probe_psqt(&self, c: Color, pc: PieceKind, sq: Square) -> (s: Score)
        requires
            c.0 < 2,
            pc.0 < 6,
            sq.0 < 64,
        ensures
            s@ == table_at(self.tables(), c.0 as int, pc.0 as int, sq.0 as int),
    {
        self.psq_tables[c.0 as usize].probe(&pc, &sq)
    }

    /// The sum of the table scores of the given occupants (square `i` holds `occ[i]`).
    pub fn sum_psq(&self, occ: &Vec<Option<(Color, PieceKind)>>) -> (s: Score)
        requires
            occupants_wf(occ@),
        ensures
            s@ == psq_total(self.tables(), occ@, 64),
    {
        let mut total = Score::default();
        let mut i: usize = 0;
        while i < 64
            invariant
                i <= 64,
                occupants_wf(occ@),
                total@ == psq_total(self.tables(), occ@, i as nat),
            decreases 64 - i,
        {
            match occ[i] {
                Some(cp) => {
                    total = total.add(self.probe_psqt(cp.0, cp.1, Square(i as u32)));
                },
                None => {},
            }
            i = i + 1;
        }
        total
    }

    /// Recomputes the piece-square score from the pieces on `board`.
    pub fn compute_psq(&mut self, board: &cozy_chess::Board)
        ensures
            final(self).tables() == old(self).tables(),
            final(self).stack() == old(self).stack(),
            final(self).psq_spec() == psq_total(old(self).tables(), board_occupants(*board), 64),
    {
        let mut occ: Vec<Option<(Color, PieceKind)>> = Vec::new();
        let mut i: u32 = 0;
        while i < 64
            invariant
                i <= 64,
                occ.len() == i,
                forall|j: int| 0 <= j < i ==> (#[trigger] occ@[j] matches Some(cp) ==> cp.0.0 < 2 && cp.1.0 < 6),
                forall|j: int| 0 <= j < i ==> #[trigger] occ@[j] == board_occupants(*board)[j],
            decreases 64 - i,
        {
            let sq = Square(i);
            let entry = match (board_piece_on(board, sq), board_color_on(board, sq)) {
                (Some(k), Some(c)) => Some((c, k)),
                _ => None,
            };
            occ.push(entry);
            i = i + 1;
        }
        assert(occ@ =~= board_occupants(*board));
        let total = self.sum_psq(&occ);
        self.psq = total;
    }

    /// Saves the current score, then updates it for a move with facts `f`.
    pub fn apply_move(&mut self, f: MoveFacts, mv: ChessMove)
        requires
            f.wf(),
            mv.wf(),
        ensures
            final(self).tables() == old(self).tables(),
            final(self).stack() == old(self).stack().push(old(self).psq_spec()),
            final(self).psq_spec() == psq_after_move(old(self).tables(), old(self).psq_spec(), f, mv),
    {
        self.psq_stack.push(self.psq);
        proof {
            assert(self.stack() =~= old(self).stack().push(old(self).psq_spec()));
        }
        let c = f.side;
        let them = c.flip();
        if f.castling {
            let (kfile, rfile) = if mv.from.file().0 < mv.to.file().0 {
                (File(FILE_G), File(FILE_F))
            } else {
                (File(FILE_C), File(FILE_D))
            };
            let back = Rank(if c.0 == 0 { 0 } else { 7 });
            let kto = Square::make(kfile, back);
            let rto = Square::make(rfile, back);
            let king = PieceKind(KIND_KING);
            let rook = PieceKind(KIND_ROOK);
            self.psq = self.psq.add(self.probe_psqt(c, king, kto).sub(self.probe_psqt(c, king, mv.from)));
            self.psq = self.psq.add(self.probe_psqt(c, rook, rto).sub(self.probe_psqt(c, rook, mv.to)));
        } else {
            if f.en_passant {
                let capsq = Square::make(mv.to.file(), Rank(if c.0 == 0 { 4 } else { 3 }));
                let captured = f.passed_victim.unwrap();
                self.psq = self.psq.sub(self.probe_psqt(them, captured, capsq));
            } else if let Some(captured) = f.victim {
                self.psq = self.psq.sub(self.probe_psqt(them, captured, mv.to));
            }
            match mv.promotion {
                Some(promoted) => {
                    self.psq = self.psq.add(self.probe_psqt(c, promoted, mv.to).sub(self.probe_psqt(c, f.moved, mv.from)));
                },
                None => {
                    self.psq = self.psq.add(self.probe_psqt(c, f.moved, mv.to).sub(self.probe_psqt(c, f.moved, mv.from)));
                },
            }
        }
    }

    /// Updates the score incrementally for `mv` played on `board`, saving the previous
    /// score first. A move from an empty square, or an en passant capture with no pawn to
    /// take, only saves the score.
    pub fn do_move(&mut self, board: &cozy_chess::Board, mv: ChessMove)
        requires
            mv.wf(),
        ensures
            final(self).tables() == old(self).tables(),
            final(self).stack() == old(self).stack().push(old(self).psq_spec()),
            final(self).psq_spec() == (match move_facts_of(*board, mv) {
                Some(f) => psq_after_move(old(self).tables(), old(self).psq_spec(), f, mv),
                None => old(self).psq_spec(),
            }),
            move_facts_of(*board, mv) matches Some(f) ==> f.wf(),
    {
        let c = board_side_to_move(board);
        let pc_to = board_piece_on(board, mv.to);
        let is_castling = match board_color_on(board, mv.to) {
            Some(col) => col.0 == c.0,
            None => false,
        };
        let is_enpassant = match board_en_passant(board) {
            Some(ep) => mv.to.0 == Square::make(ep, Rank(if c.0 == 0 { 5 } else { 2 })).0,
            None => false,
        };
        let capsq = Square::make(mv.to.file(), Rank(if c.0 == 0 { 4 } else { 3 }));
        let passed_victim = board_piece_on(board, capsq);
        match board_piece_on(board, mv.from) {
            Some(moved) => {
                let f = MoveFacts {
                    side: c,
                    moved,
                    victim: pc_to,
                    castling: is_castling,
                    en_passant: is_enpassant && moved.0 == KIND_PAWN,
                    passed_victim,
                };
                if f.en_passant && !f.castling && f.passed_victim.is_none() {
                    self.do_null_move();
                } else {
                    self.apply_move(f, mv);
                    assert(f.wf() && self.psq_spec() == psq_after_move(old(self).tables(), old(self).psq_spec(), f, mv));
                }
            },
            None => {
                self.do_null_move();
            },
        }
    }

    /// Saves the current score for a null move; the score does not change.
    pub fn do_null_move(&mut self)
        ensures
            final(self).tables() == old(self).tables(),
            final(self).psq_spec() == old(self).psq_spec(),
            final(self).stack() == old(self).stack().push(old(self).psq_spec()),
    {
        self.psq_stack.push(self.psq);
        proof {
            assert(self.stack() =~= old(self).stack().push(old(self).psq_spec()));
        }
    }

    /// Restores the score saved by the last move.
    pub fn undo_move(&mut self)
        requires
            old(self).stack().len() > 0,
        ensures
            final(self).tables() == old(self).tables(),
            final(self).psq_spec() == old(self).stack().last(),
            final(self).stack() == old(self).stack().drop_last(),
    {
        let s = self.psq_stack.pop().unwrap();
        self.psq = s;
        proof {
            assert(self.stack() =~= old(self).stack().drop_last());
        }
    }

    /// The tapered evaluation for `phase` (the summed phase weights of the pieces on the
    /// board), from the point of view of `side`.
    pub fn tapered_value(&self, phase: u32, side: Color) -> (v: Value)
        requires
            phase <= 64 * 4,
        ensures
            v.0 == (if side.0 == 0 { wrap16(tapered(self.psq_spec(), phase as int)) } else {
                wrap16(-wrap16(tapered(self.psq_spec(), phase as int)))
            }),
    {
        let egs = self.psq.values[1].0 as i32;
        let mgs = self.psq.values[0].0 as i32;
        assert(-65535 <= mgs - egs <= 65535);
        assert(-65535 * 256 <= (mgs - egs) * (phase as i32) <= 65535 * 256) by (nonlinear_arith)
            requires -65535 <= mgs - egs <= 65535, 0 <= phase <= 256;
        let num = (mgs - egs) * (phase as i32);
        let q = num / (PHASE_MIDGAME as i32);
        proof {
            if num >= 0 {
                assert(num / 24 <= num) by (nonlinear_arith) requires num >= 0;
                assert(q == num / 24);
            } else {
                assert(q == -((-num) / 24));
                assert((-num) / 24 <= -num) by (nonlinear_arith) requires -num >= 0;
            }
        }
        let value = egs + q;
        let v = Value(wrap_i16(value));
        if side.0 == 0 { v } else { v.neg() }
    }

    /// The tapered evaluation of `board` from the point of view of the side to move.
    pub fn evaluate(&self, board: &cozy_chess::Board) -> (v: Value)
        ensures
            v.0 == evaluation_of(self.psq_spec(), *board),
    {
        let mut phase: u32 = 0;
        let mut k: usize = 0;
        while k < PIECE_KIND_NB
            invariant
                k <= 6,
                phase <= 64 * 4 * k,
                phase == phase_upto(*board, k as nat),
            decreases 6 - k,
        {
            let n = popcount(Bitboard(board_pieces(board, PieceKind(k as u32))));
            let w = PHASE_WEIGHTS[k];
            assert(w <= 4);
            assert(w * n <= 256) by (nonlinear_arith) requires w <= 4, n <= 64;
            assert(64 * 4 * k + 256 == 64 * 4 * (k + 1));
            phase = phase + w * n;
            k = k + 1;
        }
        let phase = if phase > 256 { 256 } else { phase };
        self.tapered_value(phase, board_side_to_move(board))
    }
}

/// `v` brought into the range of `i16` by wrapping around.
fn wrap_i16(v: i32) -> (r: i16)
    requires
        -1048576 < v < 1048576,
    ensures
        r == wrap16(v as int),
{
    let shifted = (v + 1048576) as u32;
    let m = shifted % 65536;
    proof {
        vstd::arithmetic::div_mod::lemma_mod_add_multiples_vanish(v as int, 65536);
        assert((v + 1048576) % 65536 == v % 65536) by {
            vstd::arithmetic::div_mod::lemma_mod_multiples_vanish(16, v as int, 65536);
        }
    }
    if m >= 32768 { (m as i32 - 65536) as i16 } else { m as i16 }
}

/// Component `ph` (0 middlegame, 1 endgame) of a pair.
pub open spec fn comp(p: (i16, i16), ph: int) -> int {
    if ph == 0 { p.0 as int } else { p.1 as int }
}

/// Component `ph` of the table value of occupant `o` on square `i` (0 for an empty square).
pub open spec fn occ_value(t: [PsqTable; 2], o: Option<(Color, PieceKind)>, i: int, ph: int) -> int {
    match o {
        Some(cp) => comp(table_at(t, cp.0.0 as int, cp.1.0 as int, i), ph),
        None => 0,
    }
}

/// Component `ph` of the table values of the first `n` occupants, summed without wrapping.
pub open spec fn raw_total(t: [PsqTable; 2], occ: Seq<Option<(Color, PieceKind)>>, n: nat, ph: int) -> int
    decreases n,
{
    if n == 0 {
        0
    } else {
        raw_total(t, occ, (n - 1) as nat, ph) + occ_value(t, occ[n - 1], n - 1, ph)
    }
}

/// The squares a castling king and rook of side `c` go to, for the king on `from` and the
/// rook on `to`.
pub open spec fn castle_targets(c: int, from: int, to: int) -> (int, int) {
    let short = from % 8 < to % 8;
    let back = if c == 0 { 0int } else { 56int };
    (back + (if short { FILE_G as int } else { FILE_C as int }), back + (if short { FILE_F as int } else { FILE_D as int }))
}

/// The square of the pawn taken en passant by side `c` moving to `to`.
pub open spec fn passed_square(c: int, to: int) -> int {
    (if c == 0 { 32int } else { 24int }) + to % 8
}

/// The facts `f` tell what move `mv` does to the occupants `occ`: the side's piece `moved`
/// stands on the origin; for castling the king goes to its castling square and the rook on
/// the destination to its own, both target squares being empty or left by king or rook;
/// for en passant the destination is empty and the other side's `passed_victim` stands
/// on the square passed; otherwise `victim` is what stands on the destination, of the
/// other side.
pub open spec fn facts_match(occ: Seq<Option<(Color, PieceKind)>>, f: MoveFacts, mv: ChessMove) -> bool {
    let c = f.side.0 as int;
    let from = mv.from.0 as int;
    let to = mv.to.0 as int;
    &&& from != to
    &&& occ[from] == Some((f.side, f.moved))
    &&& if f.castling {
        let (kto, rto) = castle_targets(c, from, to);
        &&& f.moved.0 == KIND_KING
        &&& mv.promotion is None
        &&& occ[to] == Some((f.side, PieceKind(KIND_ROOK)))
        &&& (occ[kto] is None || kto == from || kto == to)
        &&& (occ[rto] is None || rto == from || rto == to)
    } else if f.en_passant {
        let cap = passed_square(c, to);
        &&& occ[to] is None
        &&& cap != from
        &&& occ[cap] == Some((Color((1 - c) as u32), f.passed_victim.unwrap()))
    } else {
        match occ[to] {
            None => f.victim is None,
            Some(cp) => cp.0.0 == 1 - c && f.victim == Some(cp.1),
        }
    }
}

/// The occupants after move `mv` with facts `f`.
pub open spec fn occ_after(occ: Seq<Option<(Color, PieceKind)>>, f: MoveFacts, mv: ChessMove) -> Seq<Option<(Color, PieceKind)>> {
    let c = f.side.0 as int;
    let from = mv.from.0 as int;
    let to = mv.to.0 as int;
    if f.castling {
        let (kto, rto) = castle_targets(c, from, to);
        occ.update(from, None).update(to, None).update(kto, Some((f.side, PieceKind(KIND_KING)))).update(
            rto,
            Some((f.side, PieceKind(KIND_ROOK))),
        )
    } else {
        let placed = match mv.promotion {
            Some(p) => p,
            None => f.moved,
        };
        let cleared = if f.en_passant { occ.update(passed_square(c, to), None) } else { occ };
        cleared.update(from, None).update(to, Some((f.side, placed)))
    }
}

/// `wrap16(a)` differs from `a` by a multiple of 65536.
proof fn lemma_wrap16_offset(a: int) -> (k: int)
    ensures
        wrap16(a) as int == a + 65536 * k,
{
    vstd::arithmetic::div_mod::lemma_fundamental_div_mod(a, 65536);
    let m = a % 65536;
    if m >= 32768 {
        -(a / 65536) - 1
    } else {
        -(a / 65536)
    }
}

/// Adding a multiple of 65536 does not change the wrapped value.
proof fn lemma_wrap16_shift(a: int, k: int)
    ensures
        wrap16(a + 65536 * k) == wrap16(a),
{
    vstd::arithmetic::div_mod::lemma_mod_multiples_vanish(k, a, 65536);
    assert(a + 65536 * k == 65536 * k + a);
}

/// Wrapping an operand first does not change a wrapped sum.
proof fn lemma_wrap16_inner(a: int, b: int)
    ensures
        wrap16(wrap16(a) + b) == wrap16(a + b),
        wrap16(b + wrap16(a)) == wrap16(b + a),
        wrap16(b - wrap16(a)) == wrap16(b - a),
{
    let k = lemma_wrap16_offset(a);
    lemma_wrap16_shift(a + b, k);
    assert(wrap16(a) + b == a + b + 65536 * k);
    assert(b + wrap16(a) == b + a + 65536 * k);
    lemma_wrap16_shift(b - a, -k);
    assert(b - wrap16(a) == b - a + 65536 * (-k));
}

/// The wrapped total is the wrapped raw sum.
proof fn lemma_total_is_wrapped_raw(t: [PsqTable; 2], occ: Seq<Option<(Color, PieceKind)>>, n: nat, ph: int)
    requires
        n <= occ.len(),
        ph == 0 || ph == 1,
    ensures
        comp(psq_total(t, occ, n), ph) == wrap16(raw_total(t, occ, n, ph)) as int,
    decreases n,
{
    if n > 0 {
        lemma_total_is_wrapped_raw(t, occ, (n - 1) as nat, ph);
        let r = raw_total(t, occ, (n - 1) as nat, ph);
        match occ[n - 1] {
            Some(cp) => {
                lemma_wrap16_inner(r, occ_value(t, occ[n - 1], n - 1, ph));
            },
            None => {
                lemma_wrap16_inner(r, 0);
                assert(wrap16(wrap16(r) as int) == wrap16(r)) by {
                    lemma_wrap16_inner(r, 0);
                }
            },
        }
    } else {
        assert(wrap16(0) == 0i16);
    }
}

/// Changing the occupant of square `s` changes the raw sum by the difference of values.
proof fn lemma_raw_update(t: [PsqTable; 2], occ: Seq<Option<(Color, PieceKind)>>, n: nat, s: int,
    x: Option<(Color, PieceKind)>, ph: int)
    requires
        n <= occ.len(),
        0 <= s < occ.len(),
    ensures
        raw_total(t, occ.update(s, x), n, ph) == raw_total(t, occ, n, ph) + if s < n {
            occ_value(t, x, s, ph) - occ_value(t, occ[s], s, ph)
        } else {
            0
        },
    decreases n,
{
    if n > 0 {
        lemma_raw_update(t, occ, (n - 1) as nat, s, x, ph);
    }
}

/// Component `ph` of the table value of kind `pc` of color `c` on square `sq`.
pub open spec fn tval(t: [PsqTable; 2], c: int, pc: int, sq: int, ph: int) -> int {
    comp(table_at(t, c, pc, sq), ph)
}

/// Component `ph` of a moved pair, when that of `psq` wraps `x`.
proof fn lemma_moved_pair_comp(t: [PsqTable; 2], psq: (i16, i16), c: int, pc_to: int, to: int, pc_from: int,
    from: int, ph: int, x: int)
    requires
        ph == 0 || ph == 1,
        comp(psq, ph) == wrap16(x) as int,
    ensures
        comp(moved_pair(t, psq, c, pc_to, to, pc_from, from), ph) == wrap16(
            x + tval(t, c, pc_to, to, ph) - tval(t, c, pc_from, from, ph),
        ) as int,
{
    let a = tval(t, c, pc_to, to, ph) - tval(t, c, pc_from, from, ph);
    lemma_wrap16_inner(a, comp(psq, ph));
    lemma_wrap16_inner(x, a);
    assert(x + a == x + tval(t, c, pc_to, to, ph) - tval(t, c, pc_from, from, ph));
}

/// Component `ph` of a difference of pairs, when that of `psq` wraps `x`.
proof fn lemma_sub_pair_comp(psq: (i16, i16), e: (i16, i16), ph: int, x: int)
    requires
        ph == 0 || ph == 1,
        comp(psq, ph) == wrap16(x) as int,
    ensures
        comp(sub_pair(psq, e), ph) == wrap16(x - comp(e, ph)) as int,
{
    lemma_wrap16_inner(x, -comp(e, ph));
    assert(wrap16(x) - comp(e, ph) == wrap16(x) + (-comp(e, ph)));
}

/// The law of the incremental score for castling, one component at a time.
proof fn lemma_incremental_castling(t: [PsqTable; 2], occ: Seq<Option<(Color, PieceKind)>>, f: MoveFacts,
    mv: ChessMove, ph: int)
    requires
        occupants_wf(occ),
        f.wf(),
        mv.wf(),
        facts_match(occ, f, mv),
        f.castling,
        ph == 0 || ph == 1,
    ensures
        comp(psq_total(t, occ_after(occ, f, mv), 64), ph) == comp(psq_after_move(t, psq_total(t, occ, 64), f, mv), ph),
{
    let c = f.side.0 as int;
    let from = mv.from.0 as int;
    let to = mv.to.0 as int;
    let after = occ_after(occ, f, mv);
    let s0 = raw_total(t, occ, 64, ph);
    let psq = psq_total(t, occ, 64);
    lemma_total_is_wrapped_raw(t, occ, 64, ph);
    lemma_total_is_wrapped_raw(t, after, 64, ph);
    let (kto, rto) = castle_targets(c, from, to);
    let king = Some((f.side, PieceKind(KIND_KING)));
    let rook = Some((f.side, PieceKind(KIND_ROOK)));
    let o1 = occ.update(from, None);
    let o2 = o1.update(to, None);
    let o3 = o2.update(kto, king);
    lemma_raw_update(t, occ, 64, from, None, ph);
    lemma_raw_update(t, o1, 64, to, None, ph);
    lemma_raw_update(t, o2, 64, kto, king, ph);
    lemma_raw_update(t, o3, 64, rto, rook, ph);
    assert(o2[kto] is None);
    assert(o3[rto] is None);
    let s1 = s0 + tval(t, c, KIND_KING as int, kto, ph) - tval(t, c, KIND_KING as int, from, ph);
    assert(raw_total(t, after, 64, ph) == s1 + tval(t, c, KIND_ROOK as int, rto, ph) - tval(t, c, KIND_ROOK as int, to, ph));
    let p1 = moved_pair(t, psq, c, KIND_KING as int, kto, KIND_KING as int, from);
    lemma_moved_pair_comp(t, psq, c, KIND_KING as int, kto, KIND_KING as int, from, ph, s0);
    lemma_moved_pair_comp(t, p1, c, KIND_ROOK as int, rto, KIND_ROOK as int, to, ph, s1);
}

/// The law of the incremental score for a move other than castling, one component at a
/// time.
proof fn lemma_incremental_plain(t: [PsqTable; 2], occ: Seq<Option<(Color, PieceKind)>>, f: MoveFacts,
    mv: ChessMove, ph: int)
    requires
        occupants_wf(occ),
        f.wf(),
        mv.wf(),
        facts_match(occ, f, mv),
        !f.castling,
        ph == 0 || ph == 1,
    ensures
        comp(psq_total(t, occ_after(occ, f, mv), 64), ph) == comp(psq_after_move(t, psq_total(t, occ, 64), f, mv), ph),
{
    let c = f.side.0 as int;
    let from = mv.from.0 as int;
    let to = mv.to.0 as int;
    let after = occ_after(occ, f, mv);
    let s0 = raw_total(t, occ, 64, ph);
    let psq = psq_total(t, occ, 64);
    lemma_total_is_wrapped_raw(t, occ, 64, ph);
    lemma_total_is_wrapped_raw(t, after, 64, ph);
    let placed = match mv.promotion {
        Some(p) => p,
        None => f.moved,
    };
    let cap = passed_square(c, to);
    let cleared = if f.en_passant { occ.update(cap, None) } else { occ };
    let s1 = if f.en_passant {
        s0 - tval(t, 1 - c, f.passed_victim.unwrap().0 as int, cap, ph)
    } else if f.victim is Some {
        s0 - tval(t, 1 - c, f.victim.unwrap().0 as int, to, ph)
    } else {
        s0
    };
    let captured = if f.en_passant {
        sub_pair(psq, table_at(t, 1 - c, f.passed_victim.unwrap().0 as int, cap))
    } else if f.victim is Some {
        sub_pair(psq, table_at(t, 1 - c, f.victim.unwrap().0 as int, to))
    } else {
        psq
    };
    if f.en_passant {
        lemma_raw_update(t, occ, 64, cap, None, ph);
        lemma_sub_pair_comp(psq, table_at(t, 1 - c, f.passed_victim.unwrap().0 as int, cap), ph, s0);
    } else if f.victim is Some {
        lemma_sub_pair_comp(psq, table_at(t, 1 - c, f.victim.unwrap().0 as int, to), ph, s0);
    }
    assert(comp(captured, ph) == wrap16(s1) as int);
    let o1 = cleared.update(from, None);
    lemma_raw_update(t, cleared, 64, from, None, ph);
    lemma_raw_update(t, o1, 64, to, Some((f.side, placed)), ph);
    assert(raw_total(t, cleared, 64, ph) - occ_value(t, cleared[to], to, ph) == s1);
    assert(raw_total(t, after, 64, ph) == s1 + tval(t, c, placed.0 as int, to, ph) - tval(t, c, f.moved.0 as int, from, ph));
    lemma_moved_pair_comp(t, captured, c, placed.0 as int, to, f.moved.0 as int, from, ph, s1);
}

/// Law: the evaluation is seen from the side to move. On two boards of the same phase,
/// one with white and one with black to move, black's evaluation of a running score is
/// the negation of white's; and white's is white's own score, tapered: with no pieces
/// weighing in the phase it is the endgame part of the score.
pub proof fn lemma_evaluation_side_to_move(psq: (i16, i16), white: cozy_chess::Board, black: cozy_chess::Board)
    requires
        side_of(white) == 0,
        side_of(black) == 1,
        board_phase(white) == board_phase(black),
    ensures
        evaluation_of(psq, black) == wrap16(-(evaluation_of(psq, white) as int)),
        board_phase(white) == 0 ==> evaluation_of(psq, white) == psq.1,
{
}

/// Updating the score move by move agrees with adding it up afresh: for occupants `occ`
/// and a move `mv` whose facts `f` match them, the piece-square score of the occupants
/// after the move is the score of `occ` updated by `psq_after_move`.
pub proof fn lemma_incremental_psq(t: [PsqTable; 2], occ: Seq<Option<(Color, PieceKind)>>, f: MoveFacts, mv: ChessMove)
    requires
        occupants_wf(occ),
        f.wf(),
        mv.wf(),
        facts_match(occ, f, mv),
    ensures
        psq_total(t, occ_after(occ, f, mv), 64) == psq_after_move(t, psq_total(t, occ, 64), f, mv),
{
    if f.castling {
        lemma_incremental_castling(t, occ, f, mv, 0);
        lemma_incremental_castling(t, occ, f, mv, 1);
    } else {
        lemma_incremental_plain(t, occ, f, mv, 0);
        lemma_incremental_plain(t, occ, f, mv, 1);
    }
}

} // verus!
