//! Plain values for the pieces and moves that the board of `cozy_chess` works with.

use vstd::prelude::*;
use crate::types::square::{Square, File};
use crate::types::piece::Color;

verus! {

pub const PIECE_KIND_NB: usize = 6;
pub const KIND_PAWN: u32 = 0;
pub const KIND_KNIGHT: u32 = 1;
pub const KIND_BISHOP: u32 = 2;
pub const KIND_ROOK: u32 = 3;
pub const KIND_QUEEN: u32 = 4;
pub const KIND_KING: u32 = 5;

/// A kind of piece without color: 0 pawn, 1 knight, 2 bishop, 3 rook, 4 queen, 5 king.
#[derive(Debug, Clone, Copy, PartialEq, Eq, Structural)]
pub struct PieceKind(pub u32);

/// A move as the board sees it: origin, destination and promotion piece. Castling is
/// written as the king capturing its own rook.
#[derive(Debug, Clone, Copy, PartialEq, Eq, Structural)]
pub struct ChessMove {
    pub from: Square,
    pub to: Square,
    pub promotion: Option<PieceKind>,
}

impl ChessMove {
    /// The move used where no real move is meant: a1 to a1, no promotion.
    pub open spec fn placeholder_spec() -> ChessMove {
        ChessMove { from: Square(0), to: Square(0), promotion: None }
    }

    /// The move used where no real move is meant: a1 to a1, no promotion.
    pub fn placeholder() -> (m: ChessMove)
        ensures
            m == ChessMove::placeholder_spec(),
    {
        ChessMove { from: Square(0), to: Square(0), promotion: None }
    }

    /// The move is well formed: both squares on the board, promotion to knight..queen.
    pub open spec fn wf(self) -> bool {
        &&& self.from.0 < 64
        &&& self.to.0 < 64
        &&& self.promotion matches Some(p) ==> KIND_KNIGHT <= p.0 <= KIND_QUEEN
    }
}

/// How a game stands: going on, drawn, or won by the side that does not move.
#[derive(Debug, Clone, Copy, PartialEq, Eq, Structural)]
pub enum GameStatus {
    Won,
    Drawn,
    Ongoing,
}

/// The board of `cozy_chess`: pieces, side to move, castling rights, en passant file and
/// move counters, with its legal-move generator.
#[verifier::external_type_specification]
#[verifier::external_body]
pub struct ExBoard(cozy_chess::Board);

/// What `Board::from_fen` of `cozy_chess` returns for a FEN text and the Shredder flag (its
/// error as `None`); a function of its arguments alone.
pub uninterp spec fn fen_board_of(fen: Seq<char>, shredder: bool) -> Option<cozy_chess::Board>;

/// What `Board::null_move` of `cozy_chess` returns for a board.
pub uninterp spec fn null_move_of(b: cozy_chess::Board) -> Option<cozy_chess::Board>;

/// The side to move of a board (`Board::side_to_move`), 0 for white and 1 for black.
pub uninterp spec fn side_of(b: cozy_chess::Board) -> u32;

/// The kind of the piece on square `sq` of a board (`Board::piece_on`).
pub uninterp spec fn piece_on_of(b: cozy_chess::Board, sq: u32) -> Option<PieceKind>;

/// The color of the piece on square `sq` of a board (`Board::color_on`).
pub uninterp spec fn color_on_of(b: cozy_chess::Board, sq: u32) -> Option<Color>;

/// The en passant file of a board (`Board::en_passant`).
pub uninterp spec fn en_passant_of(b: cozy_chess::Board) -> Option<File>;

/// The squares of the pieces of kind `k` on a board (`Board::pieces`).
pub uninterp spec fn pieces_of(b: cozy_chess::Board, k: u32) -> u64;

/// The squares of the pieces of color `c` on a board (`Board::colors`).
pub uninterp spec fn colors_of(b: cozy_chess::Board, c: u32) -> u64;

/// The occupied squares of a board (`Board::occupied`).
pub uninterp spec fn occupied_of(b: cozy_chess::Board) -> u64;

/// The pieces checking the side to move on a board (`Board::checkers`).
pub uninterp spec fn checkers_of(b: cozy_chess::Board) -> u64;

/// The halfmove clock of a board (`Board::halfmove_clock`).
pub uninterp spec fn halfmove_of(b: cozy_chess::Board) -> u8;

/// The hash of a board (`Board::hash`).
pub uninterp spec fn hash_of(b: cozy_chess::Board) -> u64;

/// The status of a board (`Board::status`).
pub uninterp spec fn status_of(b: cozy_chess::Board) -> GameStatus;

/// The board after `Board::try_play` of `cozy_chess` plays `mv`, or `None` when it
/// refuses the move as illegal.
pub uninterp spec fn played_of(b: cozy_chess::Board, mv: ChessMove) -> Option<cozy_chess::Board>;

/// The legal moves of a board in the order `Board::generate_moves` lists them.
pub uninterp spec fn legal_moves_of(b: cozy_chess::Board) -> Seq<ChessMove>;

/// `Board::default` of `cozy_chess`: the starting position. Nothing is stated of the
/// board it returns.
#[verifier::external_body]
pub(crate) fn board_default() -> cozy_chess::Board {
    cozy_chess::Board::default()
}

/// `Board::from_fen` of `cozy_chess` (`shredder` selects Shredder-FEN castling), its error
/// mapped to `None`: the result is named (`fen_board_of`); when it fails is not stated.
#[verifier::external_body]
pub(crate) fn board_from_fen(fen: &str, shredder: bool) -> (r: Option<cozy_chess::Board>)
    ensures
        r == fen_board_of(fen@, shredder),
{
    cozy_chess::Board::from_fen(fen, shredder).ok()
}

/// The derived `Clone` of `cozy_chess::Board`: it copies every field, so the copy equals
/// the original.
#[verifier::external_body]
pub(crate) fn board_clone(b: &cozy_chess::Board) -> (r: cozy_chess::Board)
    ensures
        r == *b,
{
    b.clone()
}

/// `Board::try_play` of `cozy_chess`: plays `mv` when it is legal and reports whether it
/// did. When it refuses the move it has not touched the board; the board after a legal
/// move is named (`played_of`).
#[verifier::external_body]
pub(crate) fn board_try_play(b: &mut cozy_chess::Board, mv: ChessMove) -> (ok: bool)
    requires
        mv.wf(),
    ensures
        ok == played_of(*old(b), mv) is Some,
        ok ==> *final(b) == played_of(*old(b), mv)->0,
        !ok ==> *final(b) == *old(b),
{
    let m = cozy_chess::Move {
        from: cozy_chess::Square::index(mv.from.0 as usize),
        to: cozy_chess::Square::index(mv.to.0 as usize),
        promotion: mv.promotion.map(|p| cozy_chess::Piece::index(p.0 as usize)),
    };
    b.try_play(m).is_ok()
}

/// `Board::null_move` of `cozy_chess`: the board with the other side to move, or `None`
/// when the side to move is in check; the result is named (`null_move_of`).
#[verifier::external_body]
pub(crate) fn board_null_move(b: &cozy_chess::Board) -> (r: Option<cozy_chess::Board>)
    ensures
        r == null_move_of(*b),
        r is Some <==> checkers_of(*b) == 0,
{
    b.null_move()
}

/// `Board::side_to_move` of `cozy_chess`, as 0 (white) or 1 (black).
#[verifier::external_body]
pub(crate) fn board_side_to_move(b: &cozy_chess::Board) -> (c: Color)
    ensures
        c.0 < 2,
        c.0 == side_of(*b),
{
    Color(b.side_to_move() as u32)
}

/// `Board::piece_on` of `cozy_chess`: the kind of the piece on `sq`, if any: the first
/// kind, pawn to king, whose set (`Board::pieces`) holds `sq`.
#[verifier::external_body]
pub(crate) fn board_piece_on(b: &cozy_chess::Board, sq: Square) -> (r: Option<PieceKind>)
    requires
        sq.0 < 64,
    ensures
        r matches Some(k) ==> k.0 < 6,
        r == piece_on_of(*b, sq.0),
        r matches Some(k) ==> crate::types::bitboard::bb_has(pieces_of(*b, k.0), sq.0 as int) && forall|j: u32| j
            < k.0 ==> !crate::types::bitboard::bb_has(#[trigger] pieces_of(*b, j), sq.0 as int),
        r is None ==> forall|j: u32| j < 6 ==> !crate::types::bitboard::bb_has(#[trigger] pieces_of(*b, j), sq.0 as int),
{
    b.piece_on(cozy_chess::Square::index(sq.0 as usize)).map(|p| PieceKind(p as u32))
}

/// `Board::color_on` of `cozy_chess`: the color of the piece on `sq`, if any: white when
/// the white set (`Board::colors`) holds `sq`, else black when the black set does.
#[verifier::external_body]
pub(crate) fn board_color_on(b: &cozy_chess::Board, sq: Square) -> (r: Option<Color>)
    requires
        sq.0 < 64,
    ensures
        r matches Some(c) ==> c.0 < 2,
        r == color_on_of(*b, sq.0),
        r == (if crate::types::bitboard::bb_has(colors_of(*b, 0), sq.0 as int) {
            Some(Color(0))
        } else if crate::types::bitboard::bb_has(colors_of(*b, 1), sq.0 as int) {
            Some(Color(1))
        } else {
            None
        }),
{
    b.color_on(cozy_chess::Square::index(sq.0 as usize)).map(|c| Color(c as u32))
}

/// `Board::en_passant` of `cozy_chess`: the file of a pawn that just advanced two squares.
#[verifier::external_body]
pub(crate) fn board_en_passant(b: &cozy_chess::Board) -> (r: Option<File>)
    ensures
        r matches Some(f) ==> f.0 < 8,
        r == en_passant_of(*b),
{
    b.en_passant().map(|f| File(f as u32))
}

/// `Board::pieces` of `cozy_chess`: the squares holding pieces of kind `k`, both colors.
#[verifier::external_body]
pub(crate) fn board_pieces(b: &cozy_chess::Board, k: PieceKind) -> (r: u64)
    requires
        k.0 < 6,
    ensures
        r == pieces_of(*b, k.0),
{
    b.pieces(cozy_chess::Piece::index(k.0 as usize)).0
}

/// `Board::colors` of `cozy_chess`: the squares holding pieces of color `c`.
#[verifier::external_body]
pub(crate) fn board_colors(b: &cozy_chess::Board, c: Color) -> (r: u64)
    requires
        c.0 < 2,
    ensures
        r == colors_of(*b, c.0),
{
    b.colors(cozy_chess::Color::index(c.0 as usize)).0
}

/// `Board::occupied` of `cozy_chess`: the squares holding a piece.
#[verifier::external_body]
pub(crate) fn board_occupied(b: &cozy_chess::Board) -> (r: u64)
    ensures
        r == occupied_of(*b),
{
    b.occupied().0
}

/// `Board::checkers` of `cozy_chess`: the pieces giving check to the side to move.
#[verifier::external_body]
pub(crate) fn board_checkers(b: &cozy_chess::Board) -> (r: u64)
    ensures
        r == checkers_of(*b),
{
    b.checkers().0
}

/// `Board::halfmove_clock` of `cozy_chess`.
#[verifier::external_body]
pub(crate) fn board_halfmove_clock(b: &cozy_chess::Board) -> (r: u8)
    ensures
        r == halfmove_of(*b),
{
    b.halfmove_clock()
}

/// `Board::hash` of `cozy_chess`: the Zobrist hash of the position.
#[verifier::external_body]
pub(crate) fn board_hash(b: &cozy_chess::Board) -> (r: u64)
    ensures
        r == hash_of(*b),
{
    b.hash()
}

/// `Board::status` of `cozy_chess`, each variant mapped to the one of the same name.
#[verifier::external_body]
pub(crate) fn board_status(b: &cozy_chess::Board) -> (r: GameStatus)
    ensures
        r == status_of(*b),
{
    match b.status() {
        cozy_chess::GameStatus::Won => GameStatus::Won,
        cozy_chess::GameStatus::Drawn => GameStatus::Drawn,
        cozy_chess::GameStatus::Ongoing => GameStatus::Ongoing,
    }
}

/// `Board::generate_moves` of `cozy_chess`: every legal move, each converted to a
/// `ChessMove`; the moves are well formed and their list is named (`legal_moves_of`).
#[verifier::external_body]
pub(crate) fn board_legal_moves(b: &cozy_chess::Board) -> (moves: Vec<ChessMove>)
    ensures
        forall|i: int| 0 <= i < moves.len() ==> (#[trigger] moves[i]).wf(),
        moves@ == legal_moves_of(*b),
{
    let mut moves = Vec::new();
    b.generate_moves(|pm| {
        moves.extend(pm.into_iter().map(|m| ChessMove {
            from: Square(m.from as u32),
            to: Square(m.to as u32),
            promotion: m.promotion.map(|p| PieceKind(p as u32)),
        }));
        false
    });
    moves
}

/// A file letter `a` to `h`.
pub open spec fn file_letter(c: char) -> bool {
    'a' <= c <= 'h'
}

/// A rank digit `1` to `8`.
pub open spec fn rank_digit(c: char) -> bool {
    '1' <= c <= '8'
}

/// The square named by file letter `f` and rank digit `r`.
pub open spec fn square_named(f: char, r: char) -> Square {
    Square(((r as int - '1' as int) * 8 + (f as int - 'a' as int)) as u32)
}

/// The promotion piece of a letter: `n`, `b`, `r` or `q`.
pub open spec fn promotion_letter(c: char) -> Option<PieceKind> {
    if c == 'n' {
        Some(PieceKind(KIND_KNIGHT))
    } else if c == 'b' {
        Some(PieceKind(KIND_BISHOP))
    } else if c == 'r' {
        Some(PieceKind(KIND_ROOK))
    } else if c == 'q' {
        Some(PieceKind(KIND_QUEEN))
    } else {
        None
    }
}

/// A move in coordinate notation: origin and destination squares ("e2e4"), then, when
/// there is a fifth character, a piece letter: a promotion for `n`, `b`, `r` or `q`
/// ("e7e8q"), no promotion for `p` or `k`; any other fifth character makes the text no
/// move. Characters after the fifth are ignored.
pub open spec fn coordinate_move(s: Seq<char>) -> Option<ChessMove> {
    if s.len() >= 4 && file_letter(s[0]) && rank_digit(s[1]) && file_letter(s[2]) && rank_digit(s[3]) {
        let from = square_named(s[0], s[1]);
        let to = square_named(s[2], s[3]);
        if s.len() == 4 {
            Some(ChessMove { from, to, promotion: None })
        } else {
            match promotion_letter(s[4]) {
                Some(p) => Some(ChessMove { from, to, promotion: Some(p) }),
                None => if s[4] == 'p' || s[4] == 'k' { Some(ChessMove { from, to, promotion: None }) } else { None },
            }
        }
    } else {
        None
    }
}

/// `Move::from_str` of `cozy_chess` (the `FromStr` impl), as a `ChessMove`: it reads the
/// first two bytes and the next two as squares and a fifth byte, if there is one, as a
/// piece letter, a pawn or king letter meaning no promotion. For a string whose fifth character, if any,
/// is ASCII this is `coordinate_move`; when that character is not ASCII the slice is not on
/// a character boundary and the code ignores it, which is left unstated.
#[verifier::external_body]
pub(crate) fn move_from_str(s: &str) -> (r: Option<ChessMove>)
    ensures
        s@.len() < 5 || (s@[4] as u32) < 128 ==> r == coordinate_move(s@),
{
    s.parse::<cozy_chess::Move>().ok().map(|m| ChessMove {
        from: Square(m.from as u32),
        to: Square(m.to as u32),
        promotion: m.promotion.map(|p| PieceKind(p as u32)),
    })
}

} // verus!
