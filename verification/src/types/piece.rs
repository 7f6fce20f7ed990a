use vstd::prelude::*;

verus! {

pub const COLOR_NB: usize = 2;
/// Raw value of the white side.
pub const WHITE: u32 = 0;
/// Raw value of the black side.
pub const BLACK: u32 = 1;

pub const PIECE_TYPE_NB: usize = 8;
pub const NO_PIECE_TYPE: u32 = 0;
pub const ALL_PIECES: u32 = 0;
pub const PAWN: u32 = 1;
pub const KNIGHT: u32 = 2;
pub const BISHOP: u32 = 3;
pub const ROOK: u32 = 4;
pub const QUEEN: u32 = 5;
pub const KING: u32 = 6;
pub const QUEEN_DIAGONAL: u32 = 7;

pub const PIECE_NB: usize = 16;
pub const NO_PIECE: u32 = 0;
pub const W_PAWN: u32 = 1;
pub const W_KNIGHT: u32 = 2;
pub const W_BISHOP: u32 = 3;
pub const W_ROOK: u32 = 4;
pub const W_QUEEN: u32 = 5;
pub const W_KING: u32 = 6;
pub const B_PAWN: u32 = 9;
pub const B_KNIGHT: u32 = 10;
pub const B_BISHOP: u32 = 11;
pub const B_ROOK: u32 = 12;
pub const B_QUEEN: u32 = 13;
pub const B_KING: u32 = 14;

/// A side: white (0) or black (1).
#[derive(Debug, Clone, Copy, PartialEq, Eq, Structural)]
pub struct Color(pub u32);

/// A kind of piece, `PAWN` (1) to `KING` (6); 0 stands for no piece or all pieces.
#[derive(Debug, Clone, Copy, PartialEq, Eq, Structural)]
pub struct PieceType(pub u32);

/// A colored piece: bit 3 is the color, bits 0..3 the piece type.
#[derive(Debug, Clone, Copy, PartialEq, Eq, Structural)]
pub struct Piece(pub u32);

/// The characters of the pieces, indexed by their raw value.
pub open spec fn piece_char_spec(p: int) -> char {
    if p == 1 { 'P' } else if p == 2 { 'N' } else if p == 3 { 'B' } else if p == 4 { 'R' }
    else if p == 5 { 'Q' } else if p == 6 { 'K' } else if p == 9 { 'p' } else if p == 10 { 'n' }
    else if p == 11 { 'b' } else if p == 12 { 'r' } else if p == 13 { 'q' } else if p == 14 { 'k' }
    else { ' ' }
}

/// The character of the piece with raw value `p`; blank for values that name no piece.
pub fn piece_to_char(p: u32) -> (c: char)
    requires
        p < 16,
    ensures
        c == piece_char_spec(p as int),
{
    let table: [char; 16] = [' ', 'P', 'N', 'B', 'R', 'Q', 'K', ' ', ' ', 'p', 'n', 'b', 'r', 'q', 'k', ' '];
    table[p as usize]
}

impl Color {
    /// White.
    pub fn white() -> (c: Color)
        ensures
            c.0 == WHITE,
    {
        Color(WHITE)
    }

    /// Black.
    pub fn black() -> (c: Color)
        ensures
            c.0 == BLACK,
    {
        Color(BLACK)
    }

    /// The other side (flips the lowest bit).
    pub fn flip(self) -> (r: Color)
        ensures
            r.0 == self.0 ^ 1,
            self.0 < 2 ==> r.0 == 1 - self.0,
    {
        let x = self.0;
        let r = x ^ 1;
        assert(x < 2 ==> r == 1 - x) by (bit_vector) requires r == x ^ 1;
        Color(r)
    }

    /// The side, flipped when `b` holds.
    pub fn xor_bool(self, b: bool) -> (r: Color)
        ensures
            r.0 == (if b { self.0 ^ 1 } else { self.0 }),
    {
        if b { Color(self.0 ^ 1) } else { self }
    }

    /// True for white and black only.
    pub fn is_ok(self) -> (r: bool)
        ensures
            r <==> (self.0 == WHITE || self.0 == BLACK),
    {
        self.0 == WHITE || self.0 == BLACK
    }
}

impl PieceType {
    /// The slot of this piece type in tables of size `PIECE_TYPE_NB`.
    pub open spec fn spec_index(self) -> int {
        self.0 as int
    }
}

impl Piece {
    /// The piece type: the low three bits.
    pub open spec fn type_spec(self) -> u32 {
        self.0 & 7
    }

    /// The color: the bits above the third.
    pub open spec fn color_spec(self) -> u32 {
        self.0 >> 3
    }

    /// The character that stands for the piece in a FEN string.
    pub fn to_char(self) -> (c: char)
        requires
            self.0 < 16,
        ensures
            c == piece_char_spec(self.0 as int),
    {
        piece_to_char(self.0)
    }

    /// The piece type (low three bits).
    pub fn piece_type(self) -> (pt: PieceType)
        ensures
            pt.0 == self.type_spec(),
            pt.0 < 8,
    {
        let x = self.0;
        assert(x & 7 < 8) by (bit_vector);
        PieceType(x & 7)
    }

    /// The color (bits above the third).
    pub fn color(self) -> (c: Color)
        ensures
            c.0 == self.color_spec(),
            self.0 < 16 ==> c.0 < 2,
    {
        let x = self.0;
        assert(x < 16 ==> x >> 3 < 2) by (bit_vector);
        Color(x >> 3)
    }

    /// The piece of color `c` and type `pt`: `8 * c + pt`.
    pub fn make(c: Color, pt: PieceType) -> (p: Piece)
        requires
            c.0 < 2,
            pt.0 < 8,
        ensures
            p.0 == 8 * c.0 + pt.0,
            p.type_spec() == pt.0,
            p.color_spec() == c.0,
    {
        let cc = c.0;
        let t = pt.0;
        assert(cc << 3 <= 8) by (bit_vector) requires cc < 2;
        let p = (cc << 3) + t;
        assert(p == 8 * cc + t && p & 7 == t && p >> 3 == cc) by (bit_vector)
            requires
                cc < 2,
                t < 8,
                p == (cc << 3) + t,
        ;
        Piece(p)
    }

    /// The same piece type of the other color (flips bit 3).
    pub fn flip(self) -> (p: Piece)
        ensures
            p.0 == self.0 ^ 8,
    {
        Piece(self.0 ^ 8)
    }

    /// The piece, its color flipped when `b` holds.
    pub fn xor_bool(self, b: bool) -> (p: Piece)
        ensures
            p.0 == (if b { self.0 ^ 8 } else { self.0 }),
    {
        if b { Piece(self.0 ^ 8) } else { self }
    }

    /// Returns the current piece and steps to the next raw value.
    pub fn next(&mut self) -> (r: Option<Piece>)
        requires
            old(self).0 < u32::MAX,
        ensures
            r == Some(*old(self)),
            final(self).0 == old(self).0 + 1,
    {
        let pc = *self;
        self.0 = self.0 + 1;
        Some(pc)
    }
}

} // verus!
