//! Plain queries of the classic position.

use vstd::prelude::*;
use vstd::std_specs::bits::u64_trailing_zeros;
use crate::attacks::{pawn_attacks_spec, sq_bit};
use crate::attacks::attack_bb::{attacks_bb, pawn_attacks_bb, passed_pawn_span, attacks_spec, forward_ranks_spec,
    adjacent_files_spec, file_spec};
use crate::position::classic::{Position, StateInfo, sel_bits, sel_count, occupied_pred, type_pred, color_pred,
    piece_pred, valid_piece};
use crate::psqt;
use crate::types::bitboard::{Bitboard, bb_has, lsb};
use crate::types::moves::{CastlingRight, Move};
use crate::types::piece::{Color, Piece, PieceType, PAWN, KNIGHT, BISHOP, ROOK, QUEEN, KING, WHITE, BLACK};
use crate::types::square::{Square, opposite_colors, relative_rank};

verus! {

/// The squares of mailbox `b` holding a piece of type `t`; type 0 stands for every piece.
pub open spec fn type_set(b: Seq<Piece>, t: u32) -> u64 {
    if t == 0 { sel_bits(b, occupied_pred(), 64) } else { sel_bits(b, type_pred(t), 64) }
}

/// The squares of mailbox `b` holding a piece of color `c`.
pub open spec fn color_set(b: Seq<Piece>, c: u32) -> u64 {
    sel_bits(b, color_pred(c), 64)
}

/// The squares of mailbox `b` holding a piece of color `c` and type `t`.
pub open spec fn piece_set(b: Seq<Piece>, c: u32, t: u32) -> u64 {
    color_set(b, c) & type_set(b, t)
}

/// The pieces of mailbox `b` that attack square `s` when the squares of `occ` block:
/// pawns, knights, rooks and queens along ranks and files, bishops and queens along
/// diagonals, and kings.
pub open spec fn attackers_spec(b: Seq<Piece>, s: int, occ: u64) -> u64 {
    (pawn_attacks_spec(BLACK, sq_bit(s)) & piece_set(b, WHITE, PAWN))
        | (pawn_attacks_spec(WHITE, sq_bit(s)) & piece_set(b, BLACK, PAWN))
        | (attacks_spec(KNIGHT, s, type_set(b, 0)) & type_set(b, KNIGHT))
        | (attacks_spec(ROOK, s, occ) & (type_set(b, ROOK) | type_set(b, QUEEN)))
        | (attacks_spec(BISHOP, s, occ) & (type_set(b, BISHOP) | type_set(b, QUEEN)))
        | (attacks_spec(KING, s, type_set(b, 0)) & type_set(b, KING))
}

impl Position {
    /// Replaces the states by a single empty one.
    pub fn init_states(&mut self)
        requires
            old(self).wf(),
        ensures
            final(self).wf(),
            final(self).states_spec().len() == 1,
            final(self).st_spec().castling_right.0 == 0,
            final(self).st_spec().ep_square.0 == 64,
            final(self).st_spec().rule50 == 0,
            final(self).board_spec() == old(self).board_spec(),
            final(self).side_spec() == old(self).side_spec(),
            final(self).game_ply_spec() == old(self).game_ply_spec(),
    {
        self.states.truncate(0);
        self.states.push(StateInfo::new());
    }

    /// The side to move.
    pub fn side_to_move(&self) -> (c: Color)
        ensures
            c == self.side_spec(),
    {
        self.side_to_move
    }

    /// The side not to move.
    pub fn opposite_side(&self) -> (c: Color)
        requires
            self.wf(),
        ensures
            c.0 == 1 - self.side_spec().0,
    {
        self.side_to_move.flip()
    }

    /// Whether square `s` is empty.
    pub fn empty(&self, s: Square) -> (r: bool)
        requires
            s.0 < 64,
        ensures
            r == (self.board_spec()[s.0 as int].0 == 0),
    {
        self.board[s.0 as usize].0 == 0
    }

    /// The piece on `s` (0 when empty).
    pub fn piece_on(&self, s: Square) -> (p: Piece)
        requires
            s.0 < 64,
        ensures
            p == self.board_spec()[s.0 as int],
    {
        self.board[s.0 as usize]
    }

    /// The piece on the origin of `m`.
    pub fn moved_piece(&self, m: Move) -> (p: Piece)
        ensures
            p == self.board_spec()[m.from_spec() as int],
    {
        self.board[m.from().0 as usize]
    }

    /// The occupied squares.
    pub fn pieces(&self) -> (b: Bitboard)
        requires
            self.wf(),
        ensures
            b.0 == type_set(self.board_spec(), 0),
    {
        self.by_type_bb[0]
    }

    /// The squares holding a piece of type `pt` (every piece for type 0).
    pub fn pieces_p(&self, pt: PieceType) -> (b: Bitboard)
        requires
            self.wf(),
            pt.0 < 8,
        ensures
            b.0 == type_set(self.board_spec(), pt.0),
    {
        self.by_type_bb[pt.0 as usize]
    }

    /// The squares holding a piece of type `pt1` or `pt2`.
    pub fn pieces_pp(&self, pt1: PieceType, pt2: PieceType) -> (b: Bitboard)
        requires
            self.wf(),
            pt1.0 < 8,
            pt2.0 < 8,
        ensures
            b.0 == type_set(self.board_spec(), pt1.0) | type_set(self.board_spec(), pt2.0),
    {
        self.pieces_p(pt1).bitor(self.pieces_p(pt2))
    }

    /// The squares holding a piece of color `c`.
    pub fn pieces_c(&self, c: Color) -> (b: Bitboard)
        requires
            self.wf(),
            c.0 < 2,
        ensures
            b.0 == color_set(self.board_spec(), c.0),
    {
        self.by_color_bb[c.0 as usize]
    }

    /// The squares holding a piece of color `c` and type `pt`.
    pub fn pieces_cp(&self, c: Color, pt: PieceType) -> (b: Bitboard)
        requires
            self.wf(),
            c.0 < 2,
            pt.0 < 8,
        ensures
            b.0 == piece_set(self.board_spec(), c.0, pt.0),
    {
        self.pieces_c(c).bitand(self.pieces_p(pt))
    }

    /// The squares holding a piece of color `c` and type `pt1` or `pt2`.
    pub fn pieces_cpp(&self, c: Color, pt1: PieceType, pt2: PieceType) -> (b: Bitboard)
        requires
            self.wf(),
            c.0 < 2,
            pt1.0 < 8,
            pt2.0 < 8,
        ensures
            b.0 == color_set(self.board_spec(), c.0) & (type_set(self.board_spec(), pt1.0) | type_set(
                self.board_spec(),
                pt2.0,
            )),
    {
        self.pieces_c(c).bitand(self.pieces_pp(pt1, pt2))
    }

    /// The number of pieces of color `c` and type `pt` (0 for type 0).
    pub fn count(&self, c: Color, pt: PieceType) -> (n: i32)
        requires
            self.wf(),
            c.0 < 2,
            pt.0 < 8,
        ensures
            valid_piece((8 * c.0 + pt.0) as u32) ==> n == sel_count(
                self.board_spec(),
                piece_pred((8 * c.0 + pt.0) as u32),
                64,
            ),
            !valid_piece((8 * c.0 + pt.0) as u32) ==> n == 0,
    {
        self.piece_count[Piece::make(c, pt).0 as usize]
    }

    /// The lowest square holding a piece of color `c` and type `pt`.
    pub fn square(&self, c: Color, pt: PieceType) -> (s: Square)
        requires
            self.wf(),
            c.0 < 2,
            pt.0 < 8,
            piece_set(self.board_spec(), c.0, pt.0) != 0,
        ensures
            s.0 < 64,
            s.0 == u64_trailing_zeros(piece_set(self.board_spec(), c.0, pt.0)),
            bb_has(piece_set(self.board_spec(), c.0, pt.0), s.0 as int),
            forall|j: int| 0 <= j < s.0 ==> !bb_has(piece_set(self.board_spec(), c.0, pt.0), j),
    {
        lsb(self.pieces_cp(c, pt))
    }

    /// The en passant square of the current state (64 when there is none).
    pub fn ep_square(&self) -> (s: Square)
        requires
            self.wf(),
        ensures
            s == self.st_spec().ep_square,
    {
        self.states[self.states.len() - 1].ep_square
    }

    /// Whether any of the rights `cr` is held.
    pub fn has_castling_right(&self, cr: CastlingRight) -> (b: bool)
        requires
            self.wf(),
        ensures
            b == (self.st_spec().castling_right.0 & cr.0 != 0),
    {
        self.states[self.states.len() - 1].castling_right.0 & cr.0 != 0
    }

    /// The castling rights of color `c` (bits `2c` and `2c + 1`).
    pub fn castling_right(&self, c: Color) -> (cr: CastlingRight)
        requires
            self.wf(),
            c.0 < 2,
        ensures
            cr.0 == self.st_spec().castling_right.0 & (3u32 << (2 * c.0)),
    {
        CastlingRight(self.states[self.states.len() - 1].castling_right.0 & (3u32 << (2 * c.0)))
    }

    /// Whether color `c` holds a castling right.
    pub fn can_castle(&self, c: Color) -> (b: bool)
        requires
            self.wf(),
            c.0 < 2,
        ensures
            b == (self.st_spec().castling_right.0 & (3u32 << (2 * c.0)) != 0),
    {
        self.castling_right(c).0 != 0
    }

    /// Whether a piece stands between king and rook for castling right `cr`.
    pub fn castling_impeded(&self, cr: CastlingRight) -> (b: bool)
        requires
            self.wf(),
            cr.0 < 16,
        ensures
            b == (type_set(self.board_spec(), 0) & self.castling_path_spec(cr.0 as int) != 0),
    {
        self.pieces().0 & self.castling_path[cr.0 as usize].0 != 0
    }

    /// The square of the rook for castling right `cr`.
    pub fn castling_rook_square(&self, cr: CastlingRight) -> (s: Square)
        requires
            cr.0 < 16,
        ensures
            s == self.rook_square_spec(cr.0 as int),
    {
        self.castling_rook_square[cr.0 as usize]
    }

    /// The squares a pawn of color `c` on `s` attacks.
    pub fn attacks_from_pawn(&self, c: Color, s: Square) -> (b: Bitboard)
        requires
            c.0 < 2,
            s.0 < 64,
        ensures
            b.0 == pawn_attacks_spec(c.0, sq_bit(s.0 as int)),
    {
        pawn_attacks_bb(c, s)
    }

    /// The squares a piece of type `pt` (knight to king) on `s` attacks in this position.
    pub fn attacks_from(&self, pt: PieceType, s: Square) -> (b: Bitboard)
        requires
            self.wf(),
            KNIGHT <= pt.0 <= KING,
            s.0 < 64,
        ensures
            b.0 == attacks_spec(pt.0, s.0 as int, type_set(self.board_spec(), 0)),
    {
        attacks_bb(pt, s, self.pieces())
    }

    /// The pieces attacking `s` when the squares of `occ` block (see `attackers_spec`).
    pub fn attackers_to_occ(&self, s: Square, occ: Bitboard) -> (b: Bitboard)
        requires
            self.wf(),
            s.0 < 64,
        ensures
            b.0 == attackers_spec(self.board_spec(), s.0 as int, occ.0),
    {
        let a = self.attacks_from_pawn(Color(BLACK), s).bitand(self.pieces_cp(Color(WHITE), PieceType(PAWN)));
        let b = self.attacks_from_pawn(Color(WHITE), s).bitand(self.pieces_cp(Color(BLACK), PieceType(PAWN)));
        let c = self.attacks_from(PieceType(KNIGHT), s).bitand(self.pieces_p(PieceType(KNIGHT)));
        let d = attacks_bb(PieceType(ROOK), s, occ).bitand(self.pieces_pp(PieceType(ROOK), PieceType(QUEEN)));
        let e = attacks_bb(PieceType(BISHOP), s, occ).bitand(self.pieces_pp(PieceType(BISHOP), PieceType(QUEEN)));
        let f = self.attacks_from(PieceType(KING), s).bitand(self.pieces_p(PieceType(KING)));
        a.bitor(b).bitor(c).bitor(d).bitor(e).bitor(f)
    }

    /// The pieces attacking `s`.
    pub fn attackers_to(&self, s: Square) -> (b: Bitboard)
        requires
            self.wf(),
            s.0 < 64,
        ensures
            b.0 == attackers_spec(self.board_spec(), s.0 as int, type_set(self.board_spec(), 0)),
    {
        self.attackers_to_occ(s, self.by_type_bb[0])
    }

    /// The pieces giving check, as recorded in the current state.
    pub fn checkers(&self) -> (b: Bitboard)
        requires
            self.wf(),
        ensures
            b == self.st_spec().checkers_bb,
    {
        self.states[self.states.len() - 1].checkers_bb
    }

    /// The pieces shielding the king of color `c` from a slider, as recorded.
    pub fn blockers_for_king(&self, c: Color) -> (b: Bitboard)
        requires
            self.wf(),
            c.0 < 2,
        ensures
            b == self.st_spec().blockers_for_king[c.0 as int],
    {
        self.states[self.states.len() - 1].blockers_for_king[c.0 as usize]
    }

    /// The sliders pinning pieces to the king of color `c`, as recorded.
    pub fn pinners(&self, c: Color) -> (b: Bitboard)
        requires
            self.wf(),
            c.0 < 2,
        ensures
            b == self.st_spec().pinners[c.0 as int],
    {
        self.states[self.states.len() - 1].pinners[c.0 as usize]
    }

    /// The squares from which a piece of type `pt` would give check, as recorded.
    pub fn check_squares(&self, pt: PieceType) -> (b: Bitboard)
        requires
            self.wf(),
            pt.0 < 8,
        ensures
            b == self.st_spec().check_squares[pt.0 as int],
    {
        self.states[self.states.len() - 1].check_squares[pt.0 as usize]
    }

    /// Whether a pawn of color `c` on `s` is passed: no enemy pawn in front of it on its
    /// file or the files next to it.
    pub fn pawn_passed(&self, c: Color, s: Square) -> (b: bool)
        requires
            self.wf(),
            c.0 < 2,
            s.0 < 64,
        ensures
            b == (piece_set(self.board_spec(), (1 - c.0) as u32, PAWN) & ((forward_ranks_spec(c.0, s.0 as int)
                & adjacent_files_spec(s.0 as int)) | (forward_ranks_spec(c.0, s.0 as int) & file_spec(
                s.file_spec() as int,
            ))) == 0),
    {
        self.pieces_cp(c.flip(), PieceType(PAWN)).bitand(passed_pawn_span(c, s)).0 == 0
    }

    /// Whether `m` moves a pawn of the side to move beyond its fourth rank.
    pub fn advanced_pawn_push(&self, m: Move) -> (b: bool)
        requires
            self.wf(),
        ensures
            b == (self.board_spec()[m.from_spec() as int].0 & 7 == PAWN && (if self.side_spec().0 == 0 {
                (m.from_spec() / 8) as int
            } else {
                7 - m.from_spec() / 8
            }) > 3),
    {
        self.moved_piece(m).piece_type().0 == PAWN && relative_rank(self.side_to_move, m.from().rank()).0 > 3
    }

    /// The hash key of the current state.
    pub fn key(&self) -> (k: u64)
        requires
            self.wf(),
        ensures
            k == self.st_spec().key,
    {
        self.states[self.states.len() - 1].key
    }

    /// The running piece-square value of the current state.
    pub fn psq_value(&self) -> (v: psqt::Value)
        requires
            self.wf(),
        ensures
            v == self.st_spec().psq,
    {
        self.states[self.states.len() - 1].psq
    }

    /// The plies played since the start of the game.
    pub fn game_ply(&self) -> (p: i32)
        ensures
            p == self.game_ply_spec(),
    {
        self.game_ply
    }

    /// The plies since the last capture or pawn move.
    pub fn rule50_count(&self) -> (n: i32)
        requires
            self.wf(),
        ensures
            n == self.st_spec().rule50,
    {
        self.states[self.states.len() - 1].rule50
    }

    /// Whether each side has exactly one bishop and they stand on squares of opposite colors.
    pub fn opposite_bishops(&self) -> (b: bool)
        requires
            self.wf(),
        ensures
            b == (self.count_spec(3) == 1 && self.count_spec(11) == 1 && {
                let w = u64_trailing_zeros(piece_set(self.board_spec(), WHITE, BISHOP));
                let k = u64_trailing_zeros(piece_set(self.board_spec(), BLACK, BISHOP));
                (w % 8 + w / 8 + k % 8 + k / 8) % 2 == 1
            }),
    {
        if self.piece_count[3] == 1 && self.piece_count[11] == 1 {
            proof {
                self.lemma_count_one_nonempty(3, Color(WHITE), PieceType(BISHOP));
                self.lemma_count_one_nonempty(11, Color(BLACK), PieceType(BISHOP));
            }
            opposite_colors(self.square(Color(WHITE), PieceType(BISHOP)), self.square(Color(BLACK), PieceType(BISHOP)))
        } else {
            false
        }
    }

    /// Whether the game is Chess960.
    pub fn is_chess960(&self) -> (b: bool)
        ensures
            b == self.chess960_spec(),
    {
        self.chess960
    }
}

} // verus!
