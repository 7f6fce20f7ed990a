use vstd::prelude::*;
use crate::types::piece::Color;

verus! {

pub const SQUARE_NB: usize = 64;
pub const FILE_NB: usize = 8;
pub const RANK_NB: usize = 8;

pub const FILE_A: u32 = 0;
pub const FILE_B: u32 = 1;
pub const FILE_C: u32 = 2;
pub const FILE_D: u32 = 3;
pub const FILE_E: u32 = 4;
pub const FILE_F: u32 = 5;
pub const FILE_G: u32 = 6;
pub const FILE_H: u32 = 7;
pub const FILE_NONE: u32 = 8;

pub const RANK_1: u32 = 0;
pub const RANK_2: u32 = 1;
pub const RANK_3: u32 = 2;
pub const RANK_4: u32 = 3;
pub const RANK_5: u32 = 4;
pub const RANK_6: u32 = 5;
pub const RANK_7: u32 = 6;
pub const RANK_8: u32 = 7;
pub const RANK_NONE: u32 = 8;

pub const SQ_A1: u32 = 0;
pub const SQ_C1: u32 = 2;
pub const SQ_D1: u32 = 3;
pub const SQ_F1: u32 = 5;
pub const SQ_G1: u32 = 6;
pub const SQ_H1: u32 = 7;
pub const SQ_C5: u32 = 34;
pub const SQ_A8: u32 = 56;
pub const SQ_H8: u32 = 63;
pub const SQ_NONE: u32 = 64;

pub const NORTH: i32 = 8;
pub const EAST: i32 = 1;
pub const SOUTH: i32 = -8;
pub const WEST: i32 = -1;
pub const NORTH_EAST: i32 = 9;
pub const NORTH_WEST: i32 = 7;
pub const SOUTH_EAST: i32 = -7;
pub const SOUTH_WEST: i32 = -9;

/// A file, 0 (a) to 7 (h); 8 stands for no file.
#[derive(Debug, Clone, Copy, PartialEq, Eq, Structural)]
pub struct File(pub u32);

/// A rank, 0 (first) to 7 (eighth); 8 stands for no rank.
#[derive(Debug, Clone, Copy, PartialEq, Eq, Structural)]
pub struct Rank(pub u32);

/// A square, 0 (a1) to 63 (h8), numbered rank by rank; 64 stands for no square.
#[derive(Debug, Clone, Copy, PartialEq, Eq, Structural)]
pub struct Square(pub u32);

/// A step between squares, as a difference of square numbers.
#[derive(Debug, Clone, Copy, PartialEq, Eq, Structural)]
pub struct Direction(pub i32);

/// A range of files walked from `start` towards `end` (exclusive), in either direction.
#[derive(Clone, Copy)]
pub struct Files {
    pub start: File,
    pub end: File,
}

/// A range of ranks walked upwards from `start` to `end` (exclusive).
#[derive(Clone, Copy)]
pub struct Ranks {
    pub start: Rank,
    pub end: Rank,
}

/// A range of squares walked upwards from `start` to `end` (exclusive).
#[derive(Clone, Copy)]
pub struct Squares {
    pub start: Square,
    pub end: Square,
}

/// A value between `-2^32` and `2^33` brought into the range of `u32` by adding or
/// subtracting `2^32` once.
pub open spec fn wrap_u32(v: int) -> int {
    if v > u32::MAX { v - 0x1_0000_0000 } else if v < 0 { v + 0x1_0000_0000 } else { v }
}

/// The characters of the files.
pub open spec fn file_char(f: int) -> char {
    if f == 0 { 'a' } else if f == 1 { 'b' } else if f == 2 { 'c' } else if f == 3 { 'd' }
    else if f == 4 { 'e' } else if f == 5 { 'f' } else if f == 6 { 'g' } else { 'h' }
}

/// The characters of the ranks.
pub open spec fn rank_char(r: int) -> char {
    if r == 0 { '1' } else if r == 1 { '2' } else if r == 2 { '3' } else if r == 3 { '4' }
    else if r == 4 { '5' } else if r == 5 { '6' } else if r == 6 { '7' } else { '8' }
}

/// The rank seen from the side `c`: unchanged for white, mirrored for black.
pub fn relative_rank(c: Color, r: Rank) -> (rr: Rank)
    requires
        c.0 * 7 <= u32::MAX,
    ensures
        rr.0 == r.0 ^ ((c.0 * 7) as u32),
        c.0 < 2 && r.0 < 8 ==> rr.0 == (if c.0 == 0 { r.0 as int } else { 7 - r.0 }),
{
    let m = c.0 * 7;
    let x = r.0;
    let rr = x ^ m;
    if c.0 < 2 && x < 8 {
        assert(rr == (if m == 0 { x } else { (7 - x) as u32 })) by (bit_vector)
            requires
                m == 0 || m == 7,
                x < 8,
                rr == x ^ m,
        ;
    }
    Rank(rr)
}

impl File {
    /// Returns the current file and steps to the next one.
    pub fn next(&mut self) -> (r: Option<File>)
        requires
            old(self).0 < u32::MAX,
        ensures
            r == Some(*old(self)),
            final(self).0 == old(self).0 + 1,
    {
        let f = *self;
        self.0 = self.0 + 1;
        Some(f)
    }
}

impl Rank {
    /// Returns the current rank and steps to the next one.
    pub fn next(&mut self) -> (r: Option<Rank>)
        requires
            old(self).0 < u32::MAX,
        ensures
            r == Some(*old(self)),
            final(self).0 == old(self).0 + 1,
    {
        let rk = *self;
        self.0 = self.0 + 1;
        Some(rk)
    }
}

impl Files {
    /// All eight files, a to h.
    pub fn valid() -> (fs: Files)
        ensures
            fs.start.0 == FILE_A,
            fs.end.0 == FILE_NONE,
    {
        Files { start: File(FILE_A), end: File(FILE_NONE) }
    }

    /// The files from h down to b.
    pub fn reversed() -> (fs: Files)
        ensures
            fs.start.0 == FILE_H,
            fs.end.0 == FILE_A,
    {
        Files { start: File(FILE_H), end: File(FILE_A) }
    }

    /// Returns the next file of the range, stepping towards `end`; `None` once `end` is reached.
    pub fn next(&mut self) -> (r: Option<File>)
        requires
            old(self).start.0 < 9,
            old(self).end.0 < 9,
        ensures
            old(self).start == old(self).end ==> r is None && *final(self) == *old(self),
            old(self).start != old(self).end ==> {
                &&& r == Some(old(self).start)
                &&& final(self).end == old(self).end
                &&& final(self).start.0 == (if old(self).start.0 < old(self).end.0 {
                    old(self).start.0 + 1
                } else {
                    old(self).start.0 - 1
                })
            },
    {
        let f = self.start;
        if f.0 != self.end.0 {
            if self.start.0 < self.end.0 {
                self.start = File(f.0 + 1);
            } else {
                self.start = File(f.0 - 1);
            }
            Some(f)
        } else {
            None
        }
    }
}

impl Ranks {
    /// All eight ranks, 1 to 8.
    pub fn valid() -> (rs: Ranks)
        ensures
            rs.start.0 == RANK_1,
            rs.end.0 == RANK_NONE,
    {
        Ranks { start: Rank(RANK_1), end: Rank(RANK_NONE) }
    }

    /// Returns the next rank of the range; `None` once `end` is reached.
    pub fn next(&mut self) -> (r: Option<Rank>)
        requires
            old(self).start.0 < u32::MAX,
        ensures
            old(self).start == old(self).end ==> r is None && *final(self) == *old(self),
            old(self).start != old(self).end ==> {
                &&& r == Some(old(self).start)
                &&& final(self).end == old(self).end
                &&& final(self).start.0 == old(self).start.0 + 1
            },
    {
        let r = self.start;
        if r.0 != self.end.0 {
            self.start = Rank(r.0 + 1);
            Some(r)
        } else {
            None
        }
    }
}

impl Squares {
    /// All 64 squares, a1 to h8.
    pub fn valid() -> (ss: Squares)
        ensures
            ss.start.0 == SQ_A1,
            ss.end.0 == SQ_NONE,
    {
        Squares { start: Square(SQ_A1), end: Square(SQ_NONE) }
    }

    /// Returns the next square of the range; `None` once `end` is reached.
    pub fn next(&mut self) -> (r: Option<Square>)
        requires
            old(self).start.0 < u32::MAX,
        ensures
            old(self).start == old(self).end ==> r is None && *final(self) == *old(self),
            old(self).start != old(self).end ==> {
                &&& r == Some(old(self).start)
                &&& final(self).end == old(self).end
                &&& final(self).start.0 == old(self).start.0 + 1
            },
    {
        let s = self.start;
        if s.0 != self.end.0 {
            self.start = Square(s.0 + 1);
            Some(s)
        } else {
            None
        }
    }
}

impl Square {
    /// The file of the square: its three low bits.
    pub open spec fn file_spec(self) -> u32 {
        self.0 % 8
    }

    /// The rank of the square: its number divided by eight.
    pub open spec fn rank_spec(self) -> u32 {
        self.0 / 8
    }

    /// The file of the square.
    pub fn file(self) -> (f: File)
        ensures
            f.0 == self.file_spec(),
            f.0 < 8,
    {
        let x = self.0;
        assert(x & 7 == x % 8) by (bit_vector);
        File(x & 7)
    }

    /// The rank of the square.
    pub fn rank(self) -> (r: Rank)
        ensures
            r.0 == self.rank_spec(),
    {
        let x = self.0;
        assert(x >> 3 == x / 8) by (bit_vector);
        Rank(x >> 3)
    }

    /// The square seen from the side `c`: unchanged for white, mirrored rank for black.
    pub fn relative(self, c: Color) -> (s: Square)
        requires
            c.0 * 56 <= u32::MAX,
        ensures
            s.0 == self.0 ^ ((c.0 * 56) as u32),
            c.0 < 2 && self.0 < 64 ==> s.0 == (if c.0 == 0 { self.0 as int } else { 8 * (7 - self.rank_spec())
                + self.file_spec() }) && s.0 < 64,
    {
        let x = self.0;
        let m = c.0 * 56;
        let s = x ^ m;
        if c.0 < 2 && x < 64 {
            assert(s == (if m == 0 { x } else { (8 * (7 - x / 8) + x % 8) as u32 }) && s < 64) by (bit_vector)
                requires
                    m == 0 || m == 56,
                    x < 64,
                    s == x ^ m,
            ;
        }
        Square(s)
    }

    /// The rank of the square seen from the side `c`.
    pub fn relative_rank(self, c: Color) -> (r: Rank)
        requires
            c.0 * 7 <= u32::MAX,
        ensures
            r.0 == self.rank_spec() ^ ((c.0 * 7) as u32),
            c.0 < 2 && self.0 < 64 ==> r.0 == (if c.0 == 0 { self.rank_spec() as int } else { 7 - self.rank_spec() }),
    {
        relative_rank(c, self.rank())
    }

    /// True for the 64 squares of the board.
    pub fn is_ok(self) -> (b: bool)
        ensures
            b <==> self.0 < 64,
    {
        self.0 <= SQ_H8
    }

    /// The square on file `f` and rank `r`.
    pub fn make(f: File, r: Rank) -> (s: Square)
        ensures
            s.0 == (r.0 << 3u32) | f.0,
            f.0 < 8 && r.0 < 8 ==> {
                &&& s.0 == 8 * r.0 + f.0
                &&& s.file_spec() == f.0
                &&& s.rank_spec() == r.0
                &&& s.0 < 64
            },
    {
        let (a, b) = (f.0, r.0);
        let s = (b << 3u32) | a;
        if a < 8 && b < 8 {
            assert(s == 8 * b + a && s % 8 == a && s / 8 == b) by (bit_vector)
                requires
                    a < 8,
                    b < 8,
                    s == (b << 3u32) | a,
            ;
        }
        Square(s)
    }

    /// The square in coordinate notation, such as "e4".
    pub fn to_string(self) -> (s: String)
        requires
            self.0 < 64,
        ensures
            s@ == seq![file_char(self.file_spec() as int), rank_char(self.rank_spec() as int)],
    {
        let files: [char; 8] = ['a', 'b', 'c', 'd', 'e', 'f', 'g', 'h'];
        let ranks: [char; 8] = ['1', '2', '3', '4', '5', '6', '7', '8'];
        let mut s = String::new();
        string_push(&mut s, files[self.file().0 as usize]);
        string_push(&mut s, ranks[self.rank().0 as usize]);
        assert(s@ =~= seq![file_char(self.file_spec() as int), rank_char(self.rank_spec() as int)]);
        s
    }

    /// The square mirrored vertically (a8 and a1 swapped): flips bits 3..6.
    pub fn flip_rank(self) -> (s: Square)
        ensures
            s.0 == self.0 ^ 56,
            self.0 < 64 ==> s.0 == 8 * (7 - self.rank_spec()) + self.file_spec(),
    {
        let x = self.0;
        assert(x < 64 ==> (x ^ 56) == (8 * (7 - x / 8) + x % 8) as u32) by (bit_vector);
        Square(x ^ 56)
    }

    /// The square mirrored vertically when `b` holds.
    pub fn xor_bool(self, b: bool) -> (s: Square)
        ensures
            s.0 == (if b { self.0 ^ 0x38 } else { self.0 }),
    {
        if b { Square(self.0 ^ 0x38) } else { self }
    }

    /// The square `d` steps away, with the wrap-around of `u32` arithmetic.
    pub fn add_dir(self, d: Direction) -> (s: Square)
        ensures
            s.0 == wrap_u32(self.0 + d.0),
    {
        Square(self.0.wrapping_add_signed(d.0))
    }

    /// The square `d` steps back, with the wrap-around of `u32` arithmetic.
    pub fn sub_dir(self, d: Direction) -> (s: Square)
        requires
            d.0 > i32::MIN,
        ensures
            s.0 == wrap_u32(self.0 - d.0),
    {
        Square(self.0.wrapping_add_signed(-d.0))
    }

    /// Returns the current square and steps to the next one.
    pub fn next(&mut self) -> (r: Option<Square>)
        requires
            old(self).0 < u32::MAX,
        ensures
            r == Some(*old(self)),
            final(self).0 == old(self).0 + 1,
    {
        let s = *self;
        self.0 = self.0 + 1;
        Some(s)
    }
}

/// Appends a character to a string.
#[verifier::external_body]
pub(crate) fn string_push(s: &mut String, c: char)
    ensures
        final(s)@ == old(s)@.push(c),
{
    s.push(c)
}

/// The square `s` seen from the side `c`.
pub fn relative_square(c: Color, s: Square) -> (r: Square)
    requires
        c.0 * 56 <= u32::MAX,
    ensures
        r.0 == s.0 ^ ((c.0 * 56) as u32),
        c.0 < 2 && s.0 < 64 ==> r.0 == (if c.0 == 0 { s.0 as int } else { 8 * (7 - s.rank_spec()) + s.file_spec() })
            && r.0 < 64,
{
    s.relative(c)
}

/// True when the two squares have different colors on the board.
pub fn opposite_colors(s1: Square, s2: Square) -> (b: bool)
    ensures
        b == ((((s1.0 ^ s2.0) >> 3u32) ^ (s1.0 ^ s2.0)) & 1 != 0),
        s1.0 < 64 && s2.0 < 64 ==> (b <==> (s1.file_spec() + s1.rank_spec() + s2.file_spec() + s2.rank_spec()) % 2
            == 1),
{
    let s = s1.0 ^ s2.0;
    let x = s1.0;
    let y = s2.0;
    assert(x < 64 && y < 64 ==> ((((x ^ y) >> 3) ^ (x ^ y)) & 1 != 0 <==> (x % 8 + x / 8 + y % 8 + y / 8) % 2 == 1))
        by (bit_vector);
    (((s >> 3) ^ s) & 1) != 0
}

/// The step of a pawn push for the side `c`: north for white, south for black.
pub fn pawn_push(c: Color) -> (d: Direction)
    requires
        c.0 < 2,
    ensures
        d.0 == (if c.0 == 0 { NORTH } else { SOUTH }),
{
    if c.0 == 0 { Direction(NORTH) } else { Direction(SOUTH) }
}

impl Direction {
    /// The opposite step.
    pub fn neg(self) -> (d: Direction)
        requires
            self.0 > i32::MIN,
        ensures
            d.0 == -self.0,
    {
        Direction(-self.0)
    }

    /// The step repeated `k` times.
    pub fn times(self, k: i32) -> (d: Direction)
        requires
            i32::MIN <= k * self.0 <= i32::MAX,
        ensures
            d.0 == k * self.0,
    {
        Direction(k * self.0)
    }
}

} // verus!
