use vstd::prelude::*;
use crate::types::square::{Square, File, FILE_C, FILE_G, string_push, file_char, rank_char};
use crate::types::piece::{Color, PieceType, KNIGHT, QUEEN, WHITE, piece_to_char, piece_char_spec};

verus! {

pub const NORMAL: u32 = 0;
pub const PROMOTION: u32 = 0x4000;
pub const EN_PASSANT: u32 = 0x8000;
pub const CASTLING: u32 = 0xc000;

pub const MOVE_NONE: u32 = 0;
pub const MOVE_NULL: u32 = 65;

pub const CASTLING_RIGHT_NB: usize = 16;
pub const NO_CASTLING: u32 = 0;
pub const WHITE_OO: u32 = 1;
pub const WHITE_OOO: u32 = 2;
pub const BLACK_OO: u32 = 4;
pub const BLACK_OOO: u32 = 8;
pub const KING_SIDE: u32 = 5;
pub const QUEEN_SIDE: u32 = 10;
pub const WHITE_CASTLING: u32 = 3;
pub const BLACK_CASTLING: u32 = 12;
pub const ANY_CASTLING: u32 = 15;
pub const INVALID_CASTLING: u32 = 16;

/// The kind of a move, kept in bits 14 and 15: normal, promotion, en passant or castling.
#[derive(Debug, Clone, Copy, PartialEq, Eq, Structural)]
pub struct MoveType(pub u32);

/// A move packed in 16 bits: destination in bits 0..6, origin in bits 6..12,
/// promotion piece (minus knight) in bits 12..14 and the move type in bits 14..16.
#[derive(Debug, Clone, Copy, PartialEq, Eq, Structural)]
pub struct Move(pub u32);

/// A set of castling rights, one bit each.
#[derive(Debug, Clone, Copy, PartialEq, Eq, Structural)]
pub struct CastlingRight(pub u32);

/// A range of castling-right sets walked upwards from `start` to `end` (exclusive).
#[derive(Debug, Clone, Copy)]
pub struct CastlingRights {
    pub start: CastlingRight,
    pub end: CastlingRight,
}

/// The fields of a move code: origin in bits 6..12, destination in bits 0..6,
/// promotion piece in bits 12..14.
proof fn lemma_move_fields(m: u32)
    by (bit_vector)
    ensures
        (m >> 6) & 0x3f == (m / 64) % 64,
        (m >> 6) & 0x3f < 64,
        m & 0x3f == m % 64,
        m & 0x3f < 64,
        m & 0xfff == m % 4096,
        m & 0xfff == 64 * ((m / 64) % 64) + m % 64,
        (m >> 12) & 3 == (m / 4096) % 4,
        (m >> 12) & 3 < 4,
{
}

/// Reading back the fields of the code `k + 4096 * p + 64 * f + t`; the shifts that
/// build it are the multiplications.
proof fn lemma_move_code(f: u32, t: u32, p: u32, k: u32, m: u32)
    by (bit_vector)
    requires
        f < 64,
        t < 64,
        p < 4,
        k == 0 || k == 0x4000 || k == 0x8000 || k == 0xc000,
        m == k + 4096 * p + 64 * f + t,
    ensures
        (m / 64) % 64 == f,
        m % 64 == t,
        m & 0xc000 == k,
        (m / 4096) % 4 == p,
        f << 6u32 == 64 * f,
        p << 12u32 == 4096 * p,
{
}

impl Move {
    /// The origin square: bits 6..12.
    pub open spec fn from_spec(self) -> u32 {
        (self.0 / 64) % 64
    }

    /// The destination square: bits 0..6.
    pub open spec fn to_spec(self) -> u32 {
        self.0 % 64
    }

    /// The move type: bits 14..16, in place.
    pub open spec fn type_spec(self) -> u32 {
        self.0 & 0xc000
    }

    /// The origin square.
    pub fn from(self) -> (s: Square)
        ensures
            s.0 == self.from_spec(),
            s.0 < 64,
    {
        let m = self.0;
        let r = (m >> 6) & 0x3f;
        proof {
            lemma_move_fields(m);
        }
        Square(r)
    }

    /// The destination square.
    pub fn to(self) -> (s: Square)
        ensures
            s.0 == self.to_spec(),
            s.0 < 64,
    {
        let m = self.0;
        let r = m & 0x3f;
        proof {
            lemma_move_fields(m);
        }
        Square(r)
    }

    /// Origin and destination together: the low twelve bits.
    pub fn from_to(self) -> (r: u32)
        ensures
            r == self.0 % 4096,
            r == 64 * self.from_spec() + self.to_spec(),
    {
        let m = self.0;
        let r = m & 0xfff;
        proof {
            lemma_move_fields(m);
        }
        r
    }

    /// The move type.
    pub fn move_type(self) -> (t: MoveType)
        ensures
            t.0 == self.type_spec(),
    {
        MoveType(self.0 & 0xc000)
    }

    /// The promotion piece type: bits 12..14 plus `KNIGHT`.
    pub fn promotion_type(self) -> (pt: PieceType)
        ensures
            pt.0 == (self.0 / 4096) % 4 + KNIGHT,
            KNIGHT <= pt.0 <= QUEEN,
    {
        let m = self.0;
        let r = (m >> 12) & 3;
        proof {
            lemma_move_fields(m);
        }
        PieceType(r + KNIGHT)
    }

    /// A move is well formed when origin and destination differ.
    pub fn is_ok(self) -> (b: bool)
        ensures
            b <==> self.from_spec() != self.to_spec(),
    {
        self.from().0 != self.to().0
    }

    /// The normal move from `from` to `to`: `from` shifted six bits up (its bits above
    /// the low 26 falling off) plus `to`.
    pub fn make(from: Square, to: Square) -> (m: Move)
        requires
            (from.0 << 6u32) + to.0 <= u32::MAX,
        ensures
            m.0 == (from.0 << 6u32) + to.0,
            from.0 < 64 && to.0 < 64 ==> {
                &&& m.0 == 64 * from.0 + to.0
                &&& m.from_spec() == from.0
                &&& m.to_spec() == to.0
                &&& m.type_spec() == NORMAL
            },
    {
        let (f, t) = (from.0, to.0);
        let m = (f << 6u32) + t;
        proof {
            if f < 64 && t < 64 {
                lemma_move_code(f, t, 0, 0, (64 * f + t) as u32);
            }
        }
        Move(m)
    }

    /// The promotion move from `from` to `to` into piece type `pt`: the promotion flag,
    /// `pt` counted from the knight in bits 12 and up, `from` in bits 6 and up, and `to`.
    pub fn make_prom(from: Square, to: Square, pt: PieceType) -> (m: Move)
        requires
            KNIGHT <= pt.0,
            PROMOTION + (((pt.0 - KNIGHT) as u32) << 12u32) + (from.0 << 6u32) + to.0 <= u32::MAX,
        ensures
            m.0 == PROMOTION + (((pt.0 - KNIGHT) as u32) << 12u32) + (from.0 << 6u32) + to.0,
            from.0 < 64 && to.0 < 64 && pt.0 <= QUEEN ==> {
                &&& m.0 == PROMOTION + 4096 * (pt.0 - KNIGHT) + 64 * from.0 + to.0
                &&& m.from_spec() == from.0
                &&& m.to_spec() == to.0
                &&& m.type_spec() == PROMOTION
                &&& (m.0 / 4096) % 4 + KNIGHT == pt.0
            },
    {
        let (f, t, p) = (from.0, to.0, pt.0 - KNIGHT);
        let m = PROMOTION + (p << 12u32) + (f << 6u32) + t;
        proof {
            if f < 64 && t < 64 && pt.0 <= QUEEN {
                lemma_move_code(f, t, p, PROMOTION, (PROMOTION + 4096 * p + 64 * f + t) as u32);
            }
        }
        Move(m)
    }

    /// A move of type `mt` from `from` to `to`: the type's bits plus `from` shifted six
    /// bits up plus `to`.
    pub fn make_special(mt: MoveType, from: Square, to: Square) -> (m: Move)
        requires
            mt.0 + (from.0 << 6u32) + to.0 <= u32::MAX,
        ensures
            m.0 == mt.0 + (from.0 << 6u32) + to.0,
            from.0 < 64 && to.0 < 64 && (mt.0 == NORMAL || mt.0 == PROMOTION || mt.0 == EN_PASSANT || mt.0 == CASTLING)
                ==> {
                &&& m.0 == mt.0 + 64 * from.0 + to.0
                &&& m.from_spec() == from.0
                &&& m.to_spec() == to.0
                &&& m.type_spec() == mt.0
            },
    {
        let (f, t, k) = (from.0, to.0, mt.0);
        let m = k + (f << 6u32) + t;
        proof {
            if f < 64 && t < 64 && (k == NORMAL || k == PROMOTION || k == EN_PASSANT || k == CASTLING) {
                lemma_move_code(f, t, 0, k, (k + 64 * f + t) as u32);
            }
        }
        Move(m)
    }

    /// The move in coordinate notation: "(none)" for the empty move, "0000" for the null
    /// move; otherwise origin and destination, castling written as the king's two-square
    /// step unless `chess960`, and a promotion followed by the lower-case piece letter.
    pub fn to_string(self, chess960: bool) -> (s: String)
        ensures
            s@ == move_string_spec(self, chess960),
    {
        if self.0 == MOVE_NONE {
            let mut s = String::new();
            string_push(&mut s, '(');
            string_push(&mut s, 'n');
            string_push(&mut s, 'o');
            string_push(&mut s, 'n');
            string_push(&mut s, 'e');
            string_push(&mut s, ')');
            assert(s@ =~= seq!['(', 'n', 'o', 'n', 'e', ')']);
            return s;
        }
        if self.0 == MOVE_NULL {
            let mut s = String::new();
            string_push(&mut s, '0');
            string_push(&mut s, '0');
            string_push(&mut s, '0');
            string_push(&mut s, '0');
            assert(s@ =~= seq!['0', '0', '0', '0']);
            return s;
        }
        let from = self.from();
        let mut to = self.to();
        if self.move_type().0 == CASTLING && !chess960 {
            let f = if to.0 > from.0 { File(FILE_G) } else { File(FILE_C) };
            let r = from.rank();
            to = Square::make(f, r);
        }
        let mut s = String::new();
        push_square(&mut s, from);
        push_square(&mut s, to);
        if self.move_type().0 == PROMOTION {
            let pt = self.promotion_type();
            string_push(&mut s, piece_to_char(pt.0 + 8));
        }
        assert(s@ =~= move_string_spec(self, chess960));
        s
    }
}

/// The two characters of square `sq`.
pub open spec fn square_chars(sq: int) -> Seq<char> {
    seq![file_char(sq % 8), rank_char(sq / 8)]
}

/// The destination written for a move: for castling outside Chess960, the king's
/// destination (file g or c on the king's rank) instead of the rook's square.
pub open spec fn shown_destination(m: Move, chess960: bool) -> int {
    let from = m.from_spec();
    let to = m.to_spec();
    if m.type_spec() == CASTLING && !chess960 {
        8 * (from / 8) + (if to > from { FILE_G } else { FILE_C })
    } else {
        to as int
    }
}

/// The coordinate notation of a move.
pub open spec fn move_string_spec(m: Move, chess960: bool) -> Seq<char> {
    if m.0 == MOVE_NONE {
        seq!['(', 'n', 'o', 'n', 'e', ')']
    } else if m.0 == MOVE_NULL {
        seq!['0', '0', '0', '0']
    } else {
        let base = square_chars(m.from_spec() as int) + square_chars(shown_destination(m, chess960));
        if m.type_spec() == PROMOTION {
            base.push(piece_char_spec((m.0 / 4096) % 4 + KNIGHT + 8))
        } else {
            base
        }
    }
}

/// Appends the two characters of square `sq` to `s`.
pub(crate) fn push_square(s: &mut String, sq: Square)
    requires
        sq.0 < 64,
    ensures
        final(s)@ == old(s)@ + square_chars(sq.0 as int),
{
    let files: [char; 8] = ['a', 'b', 'c', 'd', 'e', 'f', 'g', 'h'];
    let ranks: [char; 8] = ['1', '2', '3', '4', '5', '6', '7', '8'];
    string_push(s, files[sq.file().0 as usize]);
    string_push(s, ranks[sq.rank().0 as usize]);
    assert(s@ =~= old(s)@ + square_chars(sq.0 as int));
}

impl CastlingRight {
    /// The rights held in both sets.
    pub fn bitand(self, rhs: CastlingRight) -> (r: CastlingRight)
        ensures
            r.0 == self.0 & rhs.0,
    {
        CastlingRight(self.0 & rhs.0)
    }

    /// The rights held in either set.
    pub fn bitor(self, rhs: CastlingRight) -> (r: CastlingRight)
        ensures
            r.0 == self.0 | rhs.0,
    {
        CastlingRight(self.0 | rhs.0)
    }

    /// The rights held in exactly one of the sets.
    pub fn bitxor(self, rhs: CastlingRight) -> (r: CastlingRight)
        ensures
            r.0 == self.0 ^ rhs.0,
    {
        CastlingRight(self.0 ^ rhs.0)
    }

    /// The complement of the set (all 32 bits).
    pub fn not(self) -> (r: CastlingRight)
        ensures
            r.0 == !self.0,
    {
        CastlingRight(!self.0)
    }
}

impl CastlingRights {
    /// All sixteen sets of castling rights.
    pub fn valid() -> (crs: CastlingRights)
        ensures
            crs.start.0 == NO_CASTLING,
            crs.end.0 == INVALID_CASTLING,
    {
        CastlingRights { start: CastlingRight(NO_CASTLING), end: CastlingRight(INVALID_CASTLING) }
    }

    /// Returns the next set of the range; `None` once `end` is reached.
    pub fn next(&mut self) -> (r: Option<CastlingRight>)
        requires
            old(self).start.0 < u32::MAX,
        ensures
            old(self).start == old(self).end ==> r is None && *final(self) == *old(self),
            old(self).start != old(self).end ==> {
                &&& r == Some(old(self).start)
                &&& final(self).end == old(self).end
                &&& final(self).start.0 == old(self).start.0 + 1
            },
    {
        let cr = self.start;
        if cr.0 != self.end.0 {
            self.start = CastlingRight(cr.0 + 1);
            Some(cr)
        } else {
            None
        }
    }
}

/// The rights of `cr` that belong to the side `c`.
pub fn castling_right_c(c: Color, cr: CastlingRight) -> (r: CastlingRight)
    requires
        c.0 < 2,
    ensures
        r.0 == (if c.0 == WHITE { WHITE_CASTLING & cr.0 } else { BLACK_CASTLING & cr.0 }),
{
    if c.0 == WHITE {
        CastlingRight(WHITE_CASTLING & cr.0)
    } else {
        CastlingRight(BLACK_CASTLING & cr.0)
    }
}

} // verus!
