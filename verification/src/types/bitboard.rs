use vstd::prelude::*;
use vstd::std_specs::bits::{u64_trailing_zeros, u64_leading_zeros, axiom_u64_trailing_zeros, axiom_u64_leading_zeros};
use crate::types::square::{Square, Direction, NORTH, SOUTH, NORTH_EAST, SOUTH_EAST, NORTH_WEST, SOUTH_WEST, string_push};
use crate::types::piece::{Color, WHITE};
use crate::uci::tokens::push_str;
use crate::position::classic::fen::{nat_str, push_nat};

verus! {

pub const EMPTY_BB: u64 = 0;
pub const ALL_SQUARES: u64 = 0xffff_ffff_ffff_ffff;
pub const DARK_SQUARES: u64 = 0xaa55aa55aa55aa55;

pub const FILE_A_BB: u64 = 0x0101010101010101;
pub const FILE_B_BB: u64 = 0x0202020202020202;
pub const FILE_C_BB: u64 = 0x0404040404040404;
pub const FILE_D_BB: u64 = 0x0808080808080808;
pub const FILE_E_BB: u64 = 0x1010101010101010;
pub const FILE_F_BB: u64 = 0x2020202020202020;
pub const FILE_G_BB: u64 = 0x4040404040404040;
pub const FILE_H_BB: u64 = 0x8080808080808080;

pub const RANK_1_BB: u64 = 0xff;
pub const RANK_2_BB: u64 = 0xff00;
pub const RANK_3_BB: u64 = 0xff0000;
pub const RANK_4_BB: u64 = 0xff000000;
pub const RANK_5_BB: u64 = 0xff00000000;
pub const RANK_6_BB: u64 = 0xff0000000000;
pub const RANK_7_BB: u64 = 0xff000000000000;
pub const RANK_8_BB: u64 = 0xff00000000000000;

/// A set of squares: bit `s` is set when square `s` belongs to the set.
#[derive(Debug, Clone, Copy, PartialEq, Eq, Structural)]
pub struct Bitboard(pub u64);

/// Square `s` belongs to the set `b`.
pub open spec fn bb_has(b: u64, s: int) -> bool {
    0 <= s < 64 && (b >> (s as u64)) & 1 == 1
}

/// The number of set bits among the low `n` bits of `x`.
pub open spec fn bits_below(x: u64, n: nat) -> nat
    decreases n,
{
    if n == 0 {
        0
    } else {
        bits_below(x, (n - 1) as nat) + (if (x >> ((n - 1) as u64)) & 1 == 1 { 1nat } else { 0nat })
    }
}

/// The number of squares in the set `x`.
pub open spec fn popcount_spec(x: u64) -> nat {
    bits_below(x, 64)
}

proof fn lemma_bits_below_le(x: u64, n: nat)
    ensures
        bits_below(x, n) <= n,
    decreases n,
{
    if n > 0 {
        lemma_bits_below_le(x, (n - 1) as nat);
    }
}

/// The number of squares in the set.
pub fn popcount(bb: Bitboard) -> (n: u32)
    ensures
        n == popcount_spec(bb.0),
        n <= 64,
{
    let x = bb.0;
    let mut cnt: u32 = 0;
    let mut i: u64 = 0;
    while i < 64
        invariant
            i <= 64,
            cnt == bits_below(x, i as nat),
            cnt <= i,
        decreases 64 - i,
    {
        if (x >> i) & 1 == 1 {
            cnt = cnt + 1;
        }
        i = i + 1;
    }
    cnt
}

/// True when the set holds two squares or more: clearing the lowest bit leaves some bit.
pub fn more_than_one(b: Bitboard) -> (r: bool)
    ensures
        r <==> (b.0 & (if b.0 == 0 { u64::MAX } else { (b.0 - 1) as u64 })) != 0,
{
    (b.0 & b.0.wrapping_sub(1)) != 0
}

/// The lowest square of a non-empty set.
pub fn lsb(b: Bitboard) -> (s: Square)
    requires
        b.0 != 0,
    ensures
        s.0 == u64_trailing_zeros(b.0),
        s.0 < 64,
        bb_has(b.0, s.0 as int),
        forall|j: int| 0 <= j < s.0 ==> !bb_has(b.0, j),
{
    proof {
        axiom_u64_trailing_zeros(b.0);
        assert forall|j: int| 0 <= j < u64_trailing_zeros(b.0) implies !bb_has(b.0, j) by {
            assert((b.0 >> (j as u64)) & 1u64 == 0u64);
        }
    }
    Square(b.0.trailing_zeros())
}

/// The highest square of a non-empty set.
pub fn msb(b: Bitboard) -> (s: Square)
    requires
        b.0 != 0,
    ensures
        s.0 == 63 - u64_leading_zeros(b.0),
        s.0 < 64,
        bb_has(b.0, s.0 as int),
        forall|j: int| s.0 < j < 64 ==> !bb_has(b.0, j),
{
    let x = b.0;
    let z = x.leading_zeros();
    proof {
        axiom_u64_leading_zeros(x);
        assert(z < 64);
        assert((63 ^ z) == 63 - z) by (bit_vector) requires z < 64;
        let k = (63 - z) as u64;
        assert((x >> k) & 1u64 != 0u64);
        assert(((x >> k) & 1u64 != 0u64) ==> (x >> k) & 1u64 == 1u64) by (bit_vector);
        assert forall|j: int| (63 - z) < j < 64 implies !bb_has(x, j) by {
            assert((x >> (j as u64)) & 1u64 == 0u64);
        }
    }
    Square(63 ^ z)
}

/// Removes the lowest square of a non-empty set and returns it.
pub fn pop_lsb(b: &mut Bitboard) -> (s: Square)
    requires
        old(b).0 != 0,
    ensures
        s.0 == u64_trailing_zeros(old(b).0),
        s.0 < 64,
        bb_has(old(b).0, s.0 as int),
        final(b).0 == old(b).0 & ((old(b).0 - 1) as u64),
        forall|j: int| 0 <= j < 64 ==> (bb_has(final(b).0, j) <==> (bb_has(old(b).0, j) && j != s.0)),
        forall|j: int| 0 <= j < s.0 ==> !bb_has(old(b).0, j),
{
    let s = lsb(*b);
    let x = b.0;
    let xm1 = x.wrapping_sub(1);
    let y = x & xm1;
    proof {
        let t = s.0 as u64;
        axiom_u64_trailing_zeros(x);
        let sh = (64 - t) as u64;
        assert(x << sh == 0);
        assert forall|j: int| 0 <= j < 64 implies (bb_has(y, j) <==> (bb_has(x, j) && j != t)) by {
            let jj = j as u64;
            assert(((y >> jj) & 1 == 1) <==> ((x >> jj) & 1 == 1 && jj != t)) by (bit_vector)
                requires
                    x != 0,
                    xm1 + 1 == x,
                    y == x & xm1,
                    t < 64,
                    jj < 64,
                    (x >> t) & 1 == 1,
                    sh + t == 64,
                    x << sh == 0,
            ;
        }
    }
    b.0 = y;
    s
}

/// The square of `b` furthest advanced for side `c`: the highest for white, the lowest for black.
pub fn frontmost_sq(c: Color, b: Bitboard) -> (s: Square)
    requires
        b.0 != 0,
    ensures
        s.0 == (if c.0 == WHITE { 63 - u64_leading_zeros(b.0) } else { u64_trailing_zeros(b.0) as int }),
{
    if c.0 == WHITE { msb(b) } else { lsb(b) }
}

/// The square of `b` least advanced for side `c`: the lowest for white, the highest for black.
pub fn backmost_sq(c: Color, b: Bitboard) -> (s: Square)
    requires
        b.0 != 0,
    ensures
        s.0 == (if c.0 == WHITE { u64_trailing_zeros(b.0) as int } else { 63 - u64_leading_zeros(b.0) }),
{
    if c.0 == WHITE { lsb(b) } else { msb(b) }
}

impl Bitboard {
    /// The squares in both sets.
    pub fn bitand(self, rhs: Bitboard) -> (r: Bitboard)
        ensures
            r.0 == self.0 & rhs.0,
    {
        Bitboard(self.0 & rhs.0)
    }

    /// The squares in either set.
    pub fn bitor(self, rhs: Bitboard) -> (r: Bitboard)
        ensures
            r.0 == self.0 | rhs.0,
    {
        Bitboard(self.0 | rhs.0)
    }

    /// The squares in exactly one of the sets.
    pub fn bitxor(self, rhs: Bitboard) -> (r: Bitboard)
        ensures
            r.0 == self.0 ^ rhs.0,
    {
        Bitboard(self.0 ^ rhs.0)
    }

    /// The squares outside the set.
    pub fn not(self) -> (r: Bitboard)
        ensures
            r.0 == !self.0,
    {
        Bitboard(!self.0)
    }

    /// The set moved `n` squares up the numbering (bits shifted left).
    pub fn shl(self, n: u32) -> (r: Bitboard)
        requires
            n < 64,
        ensures
            r.0 == self.0 << n,
    {
        Bitboard(self.0 << n)
    }

    /// The set moved `n` squares down the numbering (bits shifted right).
    pub fn shr(self, n: u32) -> (r: Bitboard)
        requires
            n < 64,
        ensures
            r.0 == self.0 >> n,
    {
        Bitboard(self.0 >> n)
    }

    /// The two's complement of the set, as a number.
    pub fn neg(self) -> (r: Bitboard)
        ensures
            r.0 == (if self.0 == 0 { 0 } else { 0x1_0000_0000_0000_0000 - self.0 }),
    {
        Bitboard(0u64.wrapping_sub(self.0))
    }

    /// The set is empty.
    pub fn is_empty(self) -> (r: bool)
        ensures
            r <==> self.0 == 0,
    {
        self.0 == 0
    }

    /// Removes and returns the lowest square; `None` for the empty set.
    pub fn next(&mut self) -> (r: Option<Square>)
        ensures
            old(self).0 == 0 ==> r is None && final(self).0 == 0,
            old(self).0 != 0 ==> {
                &&& r == Some(Square(u64_trailing_zeros(old(self).0) as u32))
                &&& final(self).0 == old(self).0 & ((old(self).0 - 1) as u64)
            },
    {
        if self.0 != 0 {
            Some(pop_lsb(self))
        } else {
            None
        }
    }

    /// The set moved one step along `d` (north, south or one of the diagonals); squares
    /// that would leave the board through a side edge are dropped.
    pub fn shift(self, d: Direction) -> (r: Bitboard)
        requires
            d.0 == NORTH || d.0 == SOUTH || d.0 == NORTH_EAST || d.0 == SOUTH_EAST || d.0 == NORTH_WEST
                || d.0 == SOUTH_WEST,
        ensures
            r.0 == shift_spec(d.0 as int, self.0),
    {
        let b = self.0;
        if d.0 == NORTH {
            Bitboard(b << 8u64)
        } else if d.0 == SOUTH {
            Bitboard(b >> 8u64)
        } else if d.0 == NORTH_EAST {
            Bitboard((b & !FILE_H_BB) << 9u64)
        } else if d.0 == SOUTH_EAST {
            Bitboard((b & !FILE_H_BB) >> 7u64)
        } else if d.0 == NORTH_WEST {
            Bitboard((b & !FILE_A_BB) << 7u64)
        } else {
            Bitboard((b & !FILE_A_BB) >> 9u64)
        }
    }
}

/// A set moved one step along direction `d`, dropping squares that would wrap around a
/// side edge; east and west are included.
pub open spec fn shift_spec(d: int, b: u64) -> u64 {
    if d == 8 {
        b << 8u64
    } else if d == -8 {
        b >> 8u64
    } else if d == 9 {
        (b & !0x8080808080808080u64) << 9u64
    } else if d == -7 {
        (b & !0x8080808080808080u64) >> 7u64
    } else if d == 7 {
        (b & !0x0101010101010101u64) << 7u64
    } else if d == -9 {
        (b & !0x0101010101010101u64) >> 9u64
    } else if d == 1 {
        (b & !0x8080808080808080u64) << 1u64
    } else if d == -1 {
        (b & !0x0101010101010101u64) >> 1u64
    } else {
        0
    }
}

/// The line drawn above, between and below the ranks of a board picture.
pub const BOARD_LINE: &'static str = "+---+---+---+---+---+---+---+---+\n";

/// The file letters under a board picture.
pub const BOARD_FILES: &'static str = "  a   b   c   d   e   f   g   h\n";

/// The first `n` cells of rank `r` of the picture of `b`: a cross where a bit is set.
pub open spec fn pretty_cells(b: u64, r: int, n: nat) -> Seq<char>
    decreases n,
{
    if n == 0 {
        Seq::empty()
    } else if b & (1u64 << ((r * 8 + n - 1) as u64)) != 0 {
        pretty_cells(b, r, (n - 1) as nat) + "| X "@
    } else {
        pretty_cells(b, r, (n - 1) as nat) + "|   "@
    }
}

/// Rank `r` of the picture of `b`: its cells, its number, and a line.
pub open spec fn pretty_rank(b: u64, r: int) -> Seq<char> {
    pretty_cells(b, r, 8) + "| "@ + nat_str((r + 1) as nat) + " \n"@ + BOARD_LINE@
}

/// The top `k` ranks of the picture of `b`, the eighth first.
pub open spec fn pretty_ranks(b: u64, k: nat) -> Seq<char>
    decreases k,
{
    if k == 0 {
        Seq::empty()
    } else {
        pretty_ranks(b, (k - 1) as nat) + pretty_rank(b, 8 - k)
    }
}

/// The picture of `b`: a line, the ranks from the eighth down, and the file letters.
pub open spec fn pretty_spec(b: u64) -> Seq<char> {
    BOARD_LINE@ + pretty_ranks(b, 8) + BOARD_FILES@
}

/// A picture of the bitboard: a grid of eight ranks, the eighth on top, with a cross on
/// each square in `b`.
pub fn pretty(b: Bitboard) -> (s: String)
    ensures
        s@ == pretty_spec(b.0),
{
    let mut s = String::new();
    push_str(&mut s, BOARD_LINE);
    let mut k: u32 = 0;
    while k < 8
        invariant
            k <= 8,
            s@ == BOARD_LINE@ + pretty_ranks(b.0, k as nat),
        decreases 8 - k,
    {
        let r: u32 = 7 - k;
        let ghost before = s@;
        let mut f: u32 = 0;
        while f < 8
            invariant
                f <= 8,
                r < 8,
                s@ == before + pretty_cells(b.0, r as int, f as nat),
            decreases 8 - f,
        {
            let sq: u32 = r * 8 + f;
            if b.0 & (1u64 << sq) != 0 {
                push_str(&mut s, "| X ");
            } else {
                push_str(&mut s, "|   ");
            }
            f = f + 1;
        }
        push_str(&mut s, "| ");
        push_nat(&mut s, (r + 1) as u64);
        push_str(&mut s, " \n");
        push_str(&mut s, BOARD_LINE);
        proof {
            assert(s@ =~= BOARD_LINE@ + pretty_ranks(b.0, (k + 1) as nat));
        }
        k = k + 1;
    }
    push_str(&mut s, BOARD_FILES);
    s
}

} // verus!
