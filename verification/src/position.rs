//! The position searched: the board of `cozy_chess`, the boards before each move, and the
//! incremental evaluation.

pub mod builder;
pub mod classic;

use vstd::prelude::*;
use crate::position::builder::PosBuilder;
use crate::evaluate::{Evaluator, table_at};
use crate::evaluate::score::{Score, Value};
use crate::board::{PieceKind, ChessMove, GameStatus, KIND_PAWN, KIND_ROOK, KIND_QUEEN, board_default,
    board_from_fen, board_clone, board_try_play, board_null_move, board_side_to_move, board_piece_on,
    board_colors, board_en_passant, board_pieces, board_occupied, board_checkers, board_halfmove_clock,
    board_hash, board_status, board_legal_moves, fen_board_of, null_move_of, side_of, piece_on_of, pieces_of,
    colors_of, occupied_of, checkers_of, halfmove_of, hash_of, status_of, legal_moves_of, en_passant_of};
use crate::types::square::{Square, Rank, File};
use crate::types::piece::Color;
use crate::types::bitboard::{Bitboard, popcount, popcount_spec, bb_has};

verus! {

/// A position: the current board, the boards before each move played (for undoing and
/// repetition checks), and the evaluator updated along.
#[derive(Debug)]
pub struct Position {
    board: cozy_chess::Board,
    board_stack: Vec<cozy_chess::Board>,
    evaluator: Evaluator,
}

/// The number of times `h` occurs among the first `n` elements of `s`.
pub open spec fn count_hash(s: Seq<u64>, h: u64, n: int) -> nat
    decreases n,
{
    if n <= 0 || s.len() == 0 {
        0
    } else {
        count_hash(s, h, n - 1) + (if n - 1 < s.len() && s[n - 1] == h { 1nat } else { 0nat })
    }
}

/// Repetition rule: with the earlier hashes `hist` (oldest first), the current hash `h`
/// repeats when it appears among the `ply` boards before the newest saved one, or at
/// least twice among the boards older than those.
pub open spec fn repeated_spec(hist: Seq<u64>, h: u64, ply: int) -> bool {
    let len = hist.len() as int;
    let lo = if len - 1 - ply > 0 { len - 1 - ply } else { 0 };
    (exists|i: int| lo <= i < len - 1 && #[trigger] hist[i] == h) || count_hash(hist, h, lo) >= 2
}

/// Insufficient material: two pieces (the kings), or three with no rook, queen or pawn.
pub open spec fn insufficient_spec(occupied: nat, rooks_queens_pawns: u64) -> bool {
    occupied == 2 || (occupied == 3 && rooks_queens_pawns == 0)
}

/// The hashes of the saved boards, oldest first.
pub open spec fn stack_hashes(stack: Seq<cozy_chess::Board>) -> Seq<u64> {
    Seq::new(stack.len(), |i: int| hash_of(stack[i]))
}

/// The current board repeats one of the saved boards (see `repeated_spec`).
pub open spec fn repeated_of(pos: Position, ply: int) -> bool {
    repeated_spec(stack_hashes(pos.stack_spec()), hash_of(pos.board_spec()), ply)
}

/// The board has insufficient material (see `insufficient_spec`).
pub open spec fn insufficient_of(b: cozy_chess::Board) -> bool {
    insufficient_spec(popcount_spec(occupied_of(b)), pieces_of(b, KIND_ROOK) | pieces_of(b, KIND_QUEEN) | pieces_of(
        b, KIND_PAWN))
}

/// The side to move is not in check and no legal move ends on a piece of the other side.
pub open spec fn quiet_of(b: cozy_chess::Board) -> bool {
    let moves = legal_moves_of(b);
    let them = side_of(b) ^ 1;
    checkers_of(b) == 0 && forall|j: int| 0 <= j < moves.len() ==> !bb_has(colors_of(b, them), #[trigger] moves[j].to.0
        as int)
}

/// Decides repetition from the hashes of the earlier boards (oldest first) and the
/// current hash.
pub fn repeated_in(hist: &Vec<u64>, h: u64, ply: u32) -> (r: bool)
    ensures
        r == repeated_spec(hist@, h, ply as int),
{
    let len = hist.len();
    let lo: usize = if (len as u64) >= 1 + (ply as u64) { len - 1 - (ply as usize) } else { 0 };
    let mut k: usize = lo;
    while len > 0 && k < len - 1
        invariant
            lo <= k,
            k <= len,
            lo <= len,
            lo == (if len - 1 - ply > 0 { len - 1 - ply } else { 0 }),
            len == hist@.len(),
            forall|i: int| lo <= i < k ==> hist@[i] != h,
        decreases len - k,
    {
        if hist[k] == h {
            return true;
        }
        k = k + 1;
    }
    let mut cnt: u64 = 0;
    let mut j: usize = 0;
    while j < lo
        invariant
            j <= lo,
            lo <= len,
            len == hist@.len(),
            cnt == count_hash(hist@, h, j as int),
            cnt <= j,
        decreases lo - j,
    {
        if hist[j] == h {
            cnt = cnt + 1;
        }
        j = j + 1;
    }
    proof {
        assert(!(exists|i: int| lo <= i < len - 1 && #[trigger] hist@[i] == h)) by {
            assert(forall|i: int| lo <= i < len - 1 ==> hist@[i] != h);
        }
    }
    cnt >= 2
}

impl Position {
    /// The current board.
    pub closed spec fn board_spec(&self) -> cozy_chess::Board {
        self.board
    }

    /// The boards before each move, oldest first.
    pub closed spec fn stack_spec(&self) -> Seq<cozy_chess::Board> {
        self.board_stack@
    }

    /// The evaluator.
    pub closed spec fn evaluator_spec(&self) -> Evaluator {
        self.evaluator
    }

    /// Every saved board has its saved score.
    pub closed spec fn wf(&self) -> bool {
        self.evaluator.stack().len() == self.board_stack@.len()
    }

    /// The starting position with the default evaluation tables.
    pub fn default() -> (p: Position)
        ensures
            p.wf(),
            p.stack_spec().len() == 0,
    {
        let p = Position { board: board_default(), board_stack: Vec::new(), evaluator: Evaluator::default() };
        p
    }

    /// A builder for a position: `Position::new().fen(&fen).uci_options(&opts).build()`.
    pub fn new() -> (b: PosBuilder)
        ensures
            b.fen is None,
            b.uci_options is None,
    {
        PosBuilder::default()
    }

    /// Assembles a position from its parts, with no move played yet.
    pub(crate) fn from_parts(board: cozy_chess::Board, evaluator: Evaluator) -> (p: Position)
        requires
            evaluator.stack().len() == 0,
        ensures
            p.wf(),
            p.board_spec() == board,
            p.stack_spec().len() == 0,
            p.evaluator_spec() == evaluator,
    {
        Position { board, board_stack: Vec::new(), evaluator }
    }

    /// The current board.
    pub fn board(&self) -> (b: &cozy_chess::Board)
        ensures
            *b == self.board_spec(),
    {
        &self.board
    }

    /// The evaluator.
    pub fn evaluator(&self) -> (e: &Evaluator)
        ensures
            *e == self.evaluator_spec(),
    {
        &self.evaluator
    }

    /// The board read from `fen`, or the starting position when `fen` does not parse.
    pub(crate) fn board_from_fen(fen: &str, chess960: bool) -> (b: cozy_chess::Board)
        ensures
            fen_board_of(fen@, chess960) matches Some(read) ==> b == read,
    {
        match board_from_fen(fen, chess960) {
            Some(board) => board,
            None => board_default(),
        }
    }

    /// Plays `mv`: saves the board, updates the evaluation incrementally, then plays the
    /// move on the board (a move the board refuses leaves it as it was).
    pub fn do_move(&mut self, mv: ChessMove)
        requires
            old(self).wf(),
            mv.wf(),
        ensures
            final(self).wf(),
            final(self).stack_spec() == old(self).stack_spec().push(old(self).board_spec()),
            final(self).evaluator_spec().tables() == old(self).evaluator_spec().tables(),
            final(self).evaluator_spec().stack() == old(self).evaluator_spec().stack().push(
                old(self).evaluator_spec().psq_spec(),
            ),
            final(self).board_spec() == crate::search::perft::child_of(old(self).board_spec(), mv),
            final(self).evaluator_spec().psq_spec() == (match crate::evaluate::move_facts_of(old(self).board_spec(), mv) {
                Some(f) => crate::evaluate::psq_after_move(old(self).evaluator_spec().tables(),
                    old(self).evaluator_spec().psq_spec(), f, mv),
                None => old(self).evaluator_spec().psq_spec(),
            }),
    {
        let saved = board_clone(&self.board);
        self.board_stack.push(saved);
        self.evaluator.do_move(&self.board, mv);
        let _played = board_try_play(&mut self.board, mv);
    }

    /// Takes back the last move (or null move): restores the saved board and score.
    pub fn undo_move(&mut self)
        requires
            old(self).wf(),
            old(self).stack_spec().len() > 0,
        ensures
            final(self).wf(),
            final(self).board_spec() == old(self).stack_spec().last(),
            final(self).stack_spec() == old(self).stack_spec().drop_last(),
            final(self).evaluator_spec().tables() == old(self).evaluator_spec().tables(),
            final(self).evaluator_spec().psq_spec() == old(self).evaluator_spec().stack().last(),
            final(self).evaluator_spec().stack() == old(self).evaluator_spec().stack().drop_last(),
    {
        let b = self.board_stack.pop().unwrap();
        self.board = b;
        self.evaluator.undo_move();
        proof {
            assert(self.board_stack@ =~= old(self).board_stack@.drop_last());
        }
    }

    /// Passes the move when the side to move is not in check; reports whether it did.
    pub fn do_null_move(&mut self) -> (played: bool)
        requires
            old(self).wf(),
        ensures
            final(self).wf(),
            played == null_move_of(old(self).board_spec()) is Some,
            !played ==> *final(self) == *old(self),
            played ==> final(self).board_spec() == null_move_of(old(self).board_spec())->0,
            played ==> final(self).stack_spec() == old(self).stack_spec().push(old(self).board_spec()),
            played ==> final(self).evaluator_spec().psq_spec() == old(self).evaluator_spec().psq_spec(),
            played ==> final(self).evaluator_spec().tables() == old(self).evaluator_spec().tables(),
            played ==> final(self).evaluator_spec().stack() == old(self).evaluator_spec().stack().push(
                old(self).evaluator_spec().psq_spec(),
            ),
    {
        match board_null_move(&self.board) {
            Some(new_board) => {
                let saved = board_clone(&self.board);
                self.board_stack.push(saved);
                self.evaluator.do_null_move();
                self.board = new_board;
                true
            },
            None => false,
        }
    }

    /// The evaluation from the point of view of the side to move.
    pub fn evaluate(&self) -> (v: Value)
        ensures
            v.0 == crate::evaluate::evaluation_of(self.evaluator_spec().psq_spec(), self.board_spec()),
    {
        self.evaluator.evaluate(&self.board)
    }

    /// The running piece-square score.
    pub fn psq(&self) -> (s: Score)
        ensures
            s@ == self.evaluator_spec().psq_spec(),
    {
        self.evaluator.psq()
    }

    /// Recomputes the piece-square score from the board, and returns it.
    pub fn compute_psq(&mut self) -> (s: Score)
        requires
            old(self).wf(),
        ensures
            final(self).wf(),
            s@ == final(self).evaluator_spec().psq_spec(),
            s@ == crate::evaluate::psq_total(old(self).evaluator_spec().tables(), crate::evaluate::board_occupants(
                old(self).board_spec()), 64),
            final(self).board_spec() == old(self).board_spec(),
            final(self).stack_spec() == old(self).stack_spec(),
            final(self).evaluator_spec().stack() == old(self).evaluator_spec().stack(),
            final(self).evaluator_spec().tables() == old(self).evaluator_spec().tables(),
    {
        self.init_psq();
        self.psq()
    }

    /// Recomputes the piece-square score from the board.
    pub fn init_psq(&mut self)
        requires
            old(self).wf(),
        ensures
            final(self).wf(),
            final(self).board_spec() == old(self).board_spec(),
            final(self).stack_spec() == old(self).stack_spec(),
            final(self).evaluator_spec().stack() == old(self).evaluator_spec().stack(),
            final(self).evaluator_spec().tables() == old(self).evaluator_spec().tables(),
            final(self).evaluator_spec().psq_spec() == crate::evaluate::psq_total(old(self).evaluator_spec().tables(),
                crate::evaluate::board_occupants(old(self).board_spec()), 64),
    {
        self.evaluator.compute_psq(&self.board);
    }

    /// True when the destination holds a piece of the side to move: castling, written as
    /// the king taking its own rook (see `lands_on_own`, given the pieces of the side to
    /// move read from the board).
    pub fn is_castling(&self, mv: ChessMove) -> (r: bool)
        requires
            mv.wf(),
        ensures
            r == bb_has(colors_of(self.board_spec(), side_of(self.board_spec())), mv.to.0 as int),
    {
        let c = board_side_to_move(&self.board);
        let own = board_colors(&self.board, c);
        lands_on_own(own, mv.to)
    }

    /// True when the destination is the en passant square (see `en_passant_target`, given
    /// the side to move and the en passant file read from the board).
    pub fn is_enpassant(&self, mv: ChessMove) -> (r: bool)
        requires
            mv.wf(),
        ensures
            r == en_passant_spec(en_passant_of(self.board_spec()), Color(side_of(self.board_spec())), mv.to),
    {
        let c = board_side_to_move(&self.board);
        let ep = board_en_passant(&self.board);
        en_passant_target(ep, c, mv.to)
    }

    /// The side to move.
    pub fn side_to_move(&self) -> (c: Color)
        ensures
            c.0 < 2,
            c.0 == side_of(self.board_spec()),
    {
        board_side_to_move(&self.board)
    }

    /// The kind of the piece on `sq`, if any.
    pub fn piece_on(&self, sq: Square) -> (r: Option<PieceKind>)
        requires
            sq.0 < 64,
        ensures
            r matches Some(k) ==> k.0 < 6,
            r == piece_on_of(self.board_spec(), sq.0),
    {
        board_piece_on(&self.board, sq)
    }

    /// The number of pieces of kind `pc`, both colors together.
    pub fn count(&self, pc: PieceKind) -> (n: u32)
        requires
            pc.0 < 6,
        ensures
            n <= 64,
            n == popcount_spec(pieces_of(self.board_spec(), pc.0)),
    {
        popcount(Bitboard(board_pieces(&self.board, pc)))
    }

    /// Draw by insufficient material, repetition, or the fifty-move rule (unless the
    /// side to move is checkmated); see `draw_by_rules`.
    pub fn is_draw(&self, ply: u32) -> (r: bool)
        ensures
            r == draw_spec(insufficient_of(self.board_spec()), repeated_of(*self, ply as int), halfmove_of(
                self.board_spec()), checkers_of(self.board_spec()), status_of(self.board_spec())),
    {
        if self.insufficient_material() || self.has_repeated(ply) {
            return true;
        }
        let halfmove = board_halfmove_clock(&self.board);
        let checkers = board_checkers(&self.board);
        if halfmove < 100 {
            return false;
        }
        let status = board_status(&self.board);
        draw_by_rules(false, false, halfmove, checkers, status)
    }

    /// The side to move is in check.
    pub fn is_check(&self) -> (r: bool)
        ensures
            r == (checkers_of(self.board_spec()) != 0),
    {
        board_checkers(&self.board) != 0
    }

    /// Quiet: not in check, and no legal capture.
    pub fn is_quiet(&self) -> (r: bool)
        ensures
            r == quiet_of(self.board_spec()),
    {
        if self.is_check() {
            return false;
        }
        let them = board_side_to_move(&self.board).flip();
        let targets = board_colors(&self.board, them);
        let moves = board_legal_moves(&self.board);
        no_capture_among(targets, &moves)
    }

    /// Repetition: the current board's hash against the saved boards' hashes.
    fn has_repeated(&self, ply: u32) -> (r: bool)
        ensures
            r == repeated_of(*self, ply as int),
    {
        let mut hashes: Vec<u64> = Vec::new();
        let mut i: usize = 0;
        while i < self.board_stack.len()
            invariant
                i <= self.board_stack.len(),
                hashes@ == stack_hashes(self.board_stack@).take(i as int),
            decreases self.board_stack.len() - i,
        {
            hashes.push(board_hash(&self.board_stack[i]));
            proof {
                assert(hashes@ =~= stack_hashes(self.board_stack@).take(i + 1));
            }
            i = i + 1;
        }
        proof {
            assert(hashes@ =~= stack_hashes(self.board_stack@));
        }
        repeated_in(&hashes, board_hash(&self.board), ply)
    }

    /// Insufficient material: bare kings, or one more piece that is no rook, queen or pawn.
    fn insufficient_material(&self) -> (r: bool)
        ensures
            r == insufficient_of(self.board_spec()),
    {
        let rooks = board_pieces(&self.board, PieceKind(KIND_ROOK));
        let queens = board_pieces(&self.board, PieceKind(KIND_QUEEN));
        let pawns = board_pieces(&self.board, PieceKind(KIND_PAWN));
        let n = popcount(Bitboard(board_occupied(&self.board)));
        material_insufficient(n, rooks | queens | pawns)
    }
}

impl Clone for Position {
    /// A copy of the board, the saved boards and the evaluator.
    fn clone(&self) -> (p: Position)
        ensures
            p.board_spec() == self.board_spec(),
            p.stack_spec() == self.stack_spec(),
    {
        let mut stack: Vec<cozy_chess::Board> = Vec::new();
        let mut i: usize = 0;
        while i < self.board_stack.len()
            invariant
                i <= self.board_stack.len(),
                stack@ == self.board_stack@.subrange(0, i as int),
            decreases self.board_stack.len() - i,
        {
            stack.push(board_clone(&self.board_stack[i]));
            proof {
                assert(stack@ =~= self.board_stack@.subrange(0, i + 1));
            }
            i = i + 1;
        }
        proof {
            assert(stack@ =~= self.board_stack@);
        }
        Position { board: board_clone(&self.board), board_stack: stack, evaluator: self.evaluator.clone() }
    }
}

/// Square `to` holds one of the pieces `own`.
pub fn lands_on_own(own: u64, to: Square) -> (r: bool)
    requires
        to.0 < 64,
    ensures
        r == bb_has(own, to.0 as int),
{
    proof {
        crate::attacks::attack_bb::lemma_has_bit(own, to.0 as int);
    }
    Bitboard(own).bitand(crate::attacks::attack_bb::square_bb(to)).0 != 0
}

/// `to` is the square a pawn of `side` lands on when it takes en passant on file `ep`.
pub open spec fn en_passant_spec(ep: Option<File>, side: Color, to: Square) -> bool {
    match ep {
        Some(f) => to.0 == f.0 + 8 * (if side.0 == 0 { 5int } else { 2int }),
        None => false,
    }
}

/// Whether `to` is the en passant target (see `en_passant_spec`).
pub fn en_passant_target(ep: Option<File>, side: Color, to: Square) -> (r: bool)
    requires
        ep matches Some(f) ==> f.0 < 8,
    ensures
        r == en_passant_spec(ep, side, to),
{
    match ep {
        Some(f) => to.0 == Square::make(f, Rank(if side.0 == 0 { 5 } else { 2 })).0,
        None => false,
    }
}

/// The draw rules, given what was read of the position: insufficient material, a
/// repetition, or fifty moves without capture or pawn move unless the side to move is
/// checkmated.
pub open spec fn draw_spec(insufficient: bool, repeated: bool, halfmove: u8, checkers: u64, status: GameStatus) -> bool {
    insufficient || repeated || (halfmove >= 100 && (checkers == 0 || status != GameStatus::Won))
}

/// Decides `draw_spec`.
pub fn draw_by_rules(insufficient: bool, repeated: bool, halfmove: u8, checkers: u64, status: GameStatus) -> (r: bool)
    ensures
        r == draw_spec(insufficient, repeated, halfmove, checkers, status),
{
    insufficient || repeated || (halfmove >= 100 && (checkers == 0 || !matches!(status, GameStatus::Won)))
}

/// No move of `moves` ends on one of the squares `targets`.
pub fn no_capture_among(targets: u64, moves: &Vec<ChessMove>) -> (r: bool)
    requires
        forall|j: int| 0 <= j < moves.len() ==> (#[trigger] moves[j]).wf(),
    ensures
        r == forall|j: int| 0 <= j < moves.len() ==> !bb_has(targets, #[trigger] moves[j].to.0 as int),
{
    let mut i: usize = 0;
    while i < moves.len()
        invariant
            i <= moves.len(),
            forall|j: int| 0 <= j < moves.len() ==> (#[trigger] moves[j]).wf(),
            forall|j: int| 0 <= j < i ==> !bb_has(targets, #[trigger] moves[j].to.0 as int),
        decreases moves.len() - i,
    {
        if lands_on_own(targets, moves[i].to) {
            return false;
        }
        i = i + 1;
    }
    true
}

/// Decides insufficient material from the number of pieces and the set of rooks, queens
/// and pawns.
pub fn material_insufficient(occupied: u32, rooks_queens_pawns: u64) -> (r: bool)
    ensures
        r == insufficient_spec(occupied as nat, rooks_queens_pawns),
{
    if occupied == 2 {
        true
    } else if occupied == 3 {
        rooks_queens_pawns == 0
    } else {
        false
    }
}

/// Law: taking back a move restores the board, the saved boards and scores, and the
/// score the position had before the move.
pub proof fn lemma_undo_restores_move(before: Position, moved: Position, after: Position)
    requires
        moved.stack_spec() == before.stack_spec().push(before.board_spec()),
        moved.evaluator_spec().stack() == before.evaluator_spec().stack().push(before.evaluator_spec().psq_spec()),
        after.board_spec() == moved.stack_spec().last(),
        after.stack_spec() == moved.stack_spec().drop_last(),
        after.evaluator_spec().psq_spec() == moved.evaluator_spec().stack().last(),
        after.evaluator_spec().stack() == moved.evaluator_spec().stack().drop_last(),
    ensures
        after.board_spec() == before.board_spec(),
        after.stack_spec() == before.stack_spec(),
        after.evaluator_spec().psq_spec() == before.evaluator_spec().psq_spec(),
        after.evaluator_spec().stack() == before.evaluator_spec().stack(),
{
    assert(before.stack_spec().push(before.board_spec()).drop_last() =~= before.stack_spec());
    assert(before.evaluator_spec().stack().push(before.evaluator_spec().psq_spec()).drop_last()
        =~= before.evaluator_spec().stack());
}

} // verus!
