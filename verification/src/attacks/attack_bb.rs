use vstd::prelude::*;
use crate::attacks::{sliding_attacks, sliding_spec, safe_destination, step_ok, sq_bit, distance_spec,
    pawn_attacks_spec};
use crate::types::bitboard::{Bitboard, bb_has, EMPTY_BB, FILE_A_BB, RANK_1_BB, RANK_8_BB, shift_spec};
use crate::types::square::{Square, File, Rank, Direction, EAST, WEST, SQUARE_NB};
use crate::types::piece::{Color, PieceType, KNIGHT, BISHOP, ROOK, QUEEN, KING, WHITE, BLACK, COLOR_NB};

verus! {

/// The squares of rank `r`.
pub open spec fn rank_spec(r: int) -> u64 {
    0xffu64 << ((8 * r) as u64)
}

/// The squares of file `f`.
pub open spec fn file_spec(f: int) -> u64 {
    0x0101010101010101u64 << (f as u64)
}

/// The squares on the line through `s1` and `s2` (both included) when they share a rank,
/// file or diagonal; empty otherwise.
pub open spec fn line_spec(s1: int, s2: int) -> u64 {
    if bb_has(sliding_spec(ROOK, s1, 0), s2) {
        (sliding_spec(ROOK, s1, 0) & sliding_spec(ROOK, s2, 0)) | sq_bit(s1) | sq_bit(s2)
    } else if bb_has(sliding_spec(BISHOP, s1, 0), s2) {
        (sliding_spec(BISHOP, s1, 0) & sliding_spec(BISHOP, s2, 0)) | sq_bit(s1) | sq_bit(s2)
    } else {
        0
    }
}

/// The squares strictly between `s1` and `s2` when they share a rank, file or diagonal,
/// together with `s2` itself.
pub open spec fn between_spec(s1: int, s2: int) -> u64 {
    (if bb_has(sliding_spec(ROOK, s1, 0), s2) {
        sliding_spec(ROOK, s1, sq_bit(s2)) & sliding_spec(ROOK, s2, sq_bit(s1))
    } else if bb_has(sliding_spec(BISHOP, s1, 0), s2) {
        sliding_spec(BISHOP, s1, sq_bit(s2)) & sliding_spec(BISHOP, s2, sq_bit(s1))
    } else {
        0
    }) | sq_bit(s2)
}

/// The target of `step` from `sq` as a set, empty when the step leaves the board.
pub open spec fn step_bit(sq: int, step: int) -> u64 {
    if step_ok(sq, step) { sq_bit(sq + step) } else { 0 }
}

/// The squares a knight on `sq` attacks.
pub open spec fn knight_spec(sq: int) -> u64 {
    step_bit(sq, -17) | step_bit(sq, -15) | step_bit(sq, -10) | step_bit(sq, -6) | step_bit(sq, 6)
        | step_bit(sq, 10) | step_bit(sq, 15) | step_bit(sq, 17)
}

/// The squares a king on `sq` attacks.
pub open spec fn king_spec(sq: int) -> u64 {
    step_bit(sq, -9) | step_bit(sq, -8) | step_bit(sq, -7) | step_bit(sq, -1) | step_bit(sq, 1)
        | step_bit(sq, 7) | step_bit(sq, 8) | step_bit(sq, 9)
}

/// The squares attacked by a piece of type `pt` on `sq` when the squares of `occ` block;
/// the square itself never blocks.
pub open spec fn attacks_spec(pt: u32, sq: int, occ: u64) -> u64 {
    let blockers = occ & !sq_bit(sq);
    if pt == KNIGHT {
        knight_spec(sq)
    } else if pt == BISHOP {
        sliding_spec(BISHOP, sq, blockers)
    } else if pt == ROOK {
        sliding_spec(ROOK, sq, blockers)
    } else if pt == QUEEN {
        sliding_spec(BISHOP, sq, blockers) | sliding_spec(ROOK, sq, blockers)
    } else {
        king_spec(sq)
    }
}

/// The squares of the ranks in front of `s` from the point of view of `c`.
pub open spec fn forward_ranks_spec(c: u32, s: int) -> u64 {
    if c == WHITE {
        (!0xffu64) << ((8 * (s / 8)) as u64)
    } else {
        (!0xff00000000000000u64) >> ((8 * (7 - s / 8)) as u64)
    }
}

/// The squares of the files next to the file of `s`.
pub open spec fn adjacent_files_spec(s: int) -> u64 {
    shift_spec(1, file_spec(s % 8)) | shift_spec(-1, file_spec(s % 8))
}

impl Square {
    /// The set holding this square alone.
    pub fn bb(self) -> (b: Bitboard)
        requires
            self.0 < 64,
        ensures
            b.0 == sq_bit(self.0 as int),
    {
        Bitboard::from_square(self)
    }

    /// The squares of the file of this square.
    pub fn file_bb(self) -> (b: Bitboard)
        requires
            self.0 < 64,
        ensures
            b.0 == file_spec(self.file_spec() as int),
    {
        file_bb(self.file())
    }

    /// The squares of the rank of this square.
    pub fn rank_bb(self) -> (b: Bitboard)
        requires
            self.0 < 64,
        ensures
            b.0 == rank_spec(self.rank_spec() as int),
    {
        rank_bb(self.rank())
    }
}

impl Bitboard {
    /// The set holding square `s` alone.
    pub fn from_square(s: Square) -> (b: Bitboard)
        requires
            s.0 < 64,
        ensures
            b.0 == sq_bit(s.0 as int),
    {
        crate::attacks::square_bb(s)
    }

    /// The set with square `s` added.
    pub fn bitor_sq(self, s: Square) -> (b: Bitboard)
        requires
            s.0 < 64,
        ensures
            b.0 == self.0 | sq_bit(s.0 as int),
    {
        Bitboard(self.0 | square_bb(s).0)
    }

    /// The set restricted to square `s`.
    pub fn bitand_sq(self, s: Square) -> (b: Bitboard)
        requires
            s.0 < 64,
        ensures
            b.0 == self.0 & sq_bit(s.0 as int),
    {
        Bitboard(self.0 & square_bb(s).0)
    }

    /// The set with square `s` toggled.
    pub fn bitxor_sq(self, s: Square) -> (b: Bitboard)
        requires
            s.0 < 64,
        ensures
            b.0 == self.0 ^ sq_bit(s.0 as int),
    {
        Bitboard(self.0 ^ square_bb(s).0)
    }
}

/// The set holding square `sq` alone.
pub fn square_bb(sq: Square) -> (b: Bitboard)
    requires
        sq.0 < 64,
    ensures
        b.0 == sq_bit(sq.0 as int),
{
    crate::attacks::square_bb(sq)
}

/// The squares of rank `r`.
pub fn rank_bb(r: Rank) -> (b: Bitboard)
    requires
        r.0 < 8,
    ensures
        b.0 == rank_spec(r.0 as int),
{
    Bitboard(RANK_1_BB << (8 * r.0) as u64)
}

/// The squares of file `f`.
pub fn file_bb(f: File) -> (b: Bitboard)
    requires
        f.0 < 8,
    ensures
        b.0 == file_spec(f.0 as int),
{
    Bitboard(FILE_A_BB << f.0 as u64)
}

/// The squares on the line through `s1` and `s2`, both included; empty when they share
/// no rank, file or diagonal.
pub fn line_bb(s1: Square, s2: Square) -> (b: Bitboard)
    requires
        s1.0 < 64,
        s2.0 < 64,
    ensures
        b.0 == line_spec(s1.0 as int, s2.0 as int),
{
    let empty = Bitboard(EMPTY_BB);
    let rook = PieceType(ROOK);
    let bishop = PieceType(BISHOP);
    let r1 = sliding_attacks(rook, s1, empty);
    if r1.0 & square_bb(s2).0 != 0 {
        proof { lemma_has_bit(r1.0, s2.0 as int); }
        let r2 = sliding_attacks(rook, s2, empty);
        return Bitboard((r1.0 & r2.0) | square_bb(s1).0 | square_bb(s2).0);
    }
    proof { lemma_has_bit(r1.0, s2.0 as int); }
    let b1 = sliding_attacks(bishop, s1, empty);
    if b1.0 & square_bb(s2).0 != 0 {
        proof { lemma_has_bit(b1.0, s2.0 as int); }
        let b2 = sliding_attacks(bishop, s2, empty);
        return Bitboard((b1.0 & b2.0) | square_bb(s1).0 | square_bb(s2).0);
    }
    proof { lemma_has_bit(b1.0, s2.0 as int); }
    empty
}

/// A set meets the single-square set of `s` exactly when it holds `s`.
pub proof fn lemma_has_bit(b: u64, s: int)
    requires
        0 <= s < 64,
    ensures
        (b & sq_bit(s) != 0) <==> bb_has(b, s),
{
    let x = s as u64;
    assert((b & (1u64 << x) != 0) <==> ((b >> x) & 1 == 1)) by (bit_vector) requires x < 64;
}

/// The squares strictly between `s1` and `s2` when they share a rank, file or diagonal,
/// plus `s2` itself.
pub fn between_bb(s1: Square, s2: Square) -> (b: Bitboard)
    requires
        s1.0 < 64,
        s2.0 < 64,
    ensures
        b.0 == between_spec(s1.0 as int, s2.0 as int),
{
    let empty = Bitboard(EMPTY_BB);
    let rook = PieceType(ROOK);
    let bishop = PieceType(BISHOP);
    let b1 = square_bb(s1);
    let b2 = square_bb(s2);
    proof {
        lemma_has_bit(sliding_spec(ROOK, s1.0 as int, 0), s2.0 as int);
        lemma_has_bit(sliding_spec(BISHOP, s1.0 as int, 0), s2.0 as int);
    }
    let mid = if sliding_attacks(rook, s1, empty).0 & b2.0 != 0 {
        sliding_attacks(rook, s1, b2).0 & sliding_attacks(rook, s2, b1).0
    } else if sliding_attacks(bishop, s1, empty).0 & b2.0 != 0 {
        sliding_attacks(bishop, s1, b2).0 & sliding_attacks(bishop, s2, b1).0
    } else {
        0
    };
    Bitboard(mid | b2.0)
}

/// The king distance between two squares.
pub fn square_distance(s1: Square, s2: Square) -> (d: u32)
    requires
        s1.0 < 64,
        s2.0 < 64,
    ensures
        d == distance_spec(s1.0 as int, s2.0 as int),
{
    crate::attacks::square_distance(s1, s2)
}

/// The squares attacked by a knight, bishop, rook, queen or king on `sq` when the squares
/// of `occ` block.
pub fn attacks_bb(pt: PieceType, sq: Square, occ: Bitboard) -> (b: Bitboard)
    requires
        KNIGHT <= pt.0 <= KING,
        sq.0 < 64,
    ensures
        b.0 == attacks_spec(pt.0, sq.0 as int, occ.0),
{
    if pt.0 == KNIGHT {
        knight_attacks(sq)
    } else if pt.0 == BISHOP {
        bishop_attacks(sq, occ)
    } else if pt.0 == ROOK {
        rook_attacks(sq, occ)
    } else if pt.0 == QUEEN {
        Bitboard(bishop_attacks(sq, occ).0 | rook_attacks(sq, occ).0)
    } else {
        king_attacks(sq)
    }
}

/// The squares attacked by a piece of type `pt` on `sq` on an empty board.
pub fn pseudo_attacks(pt: PieceType, sq: Square) -> (b: Bitboard)
    requires
        KNIGHT <= pt.0 <= KING,
        sq.0 < 64,
    ensures
        b.0 == attacks_spec(pt.0, sq.0 as int, 0),
{
    attacks_bb(pt, sq, Bitboard(EMPTY_BB))
}

/// The squares attacked by a pawn of color `c` on `sq`.
pub fn pawn_attacks_bb(c: Color, sq: Square) -> (b: Bitboard)
    requires
        c.0 == WHITE || c.0 == BLACK,
        sq.0 < 64,
    ensures
        b.0 == pawn_attacks_spec(c.0, sq_bit(sq.0 as int)),
{
    crate::attacks::pawn_attacks_bb(c, square_bb(sq))
}

/// True when `s3` lies on the line through `s1` and `s2`.
pub fn aligned(s1: Square, s2: Square, s3: Square) -> (b: bool)
    requires
        s1.0 < 64,
        s2.0 < 64,
        s3.0 < 64,
    ensures
        b <==> bb_has(line_spec(s1.0 as int, s2.0 as int), s3.0 as int),
{
    let l = line_bb(s1, s2);
    proof { lemma_has_bit(l.0, s3.0 as int); }
    l.0 & square_bb(s3).0 != EMPTY_BB
}

/// The squares on the files next to the file of `s`.
pub fn adjacent_files_bb(s: Square) -> (b: Bitboard)
    requires
        s.0 < 64,
    ensures
        b.0 == adjacent_files_spec(s.0 as int),
{
    let f = s.file_bb();
    Bitboard(crate::attacks::shift(Direction(EAST), f).0 | crate::attacks::shift(Direction(WEST), f).0)
}

/// The squares on the ranks in front of `s` from the point of view of `c`; for instance,
/// black's ranks in front of d3 are the first and second.
pub fn forward_ranks_bb(c: Color, s: Square) -> (b: Bitboard)
    requires
        c.0 == WHITE || c.0 == BLACK,
        s.0 < 64,
    ensures
        b.0 == forward_ranks_spec(c.0, s.0 as int),
{
    if c.0 == WHITE {
        let r = s.relative_rank(c).0;
        Bitboard((!RANK_1_BB) << (r * 8) as u64)
    } else {
        let r = s.relative_rank(c).0;
        Bitboard((!RANK_8_BB) >> (r * 8) as u64)
    }
}

/// The squares in front of `s` on its file, from the point of view of `c`.
pub fn forward_file_bb(c: Color, s: Square) -> (b: Bitboard)
    requires
        c.0 == WHITE || c.0 == BLACK,
        s.0 < 64,
    ensures
        b.0 == forward_ranks_spec(c.0, s.0 as int) & file_spec(s.file_spec() as int),
{
    Bitboard(forward_ranks_bb(c, s).0 & s.file_bb().0)
}

/// The squares a pawn of color `c` could attack while advancing along its file from `s`.
pub fn pawn_attack_span(c: Color, s: Square) -> (b: Bitboard)
    requires
        c.0 == WHITE || c.0 == BLACK,
        s.0 < 64,
    ensures
        b.0 == forward_ranks_spec(c.0, s.0 as int) & adjacent_files_spec(s.0 as int),
{
    Bitboard(forward_ranks_bb(c, s).0 & adjacent_files_bb(s).0)
}

/// The squares that must hold no enemy pawn for a pawn of color `c` on `s` to be passed.
pub fn passed_pawn_span(c: Color, s: Square) -> (b: Bitboard)
    requires
        c.0 == WHITE || c.0 == BLACK,
        s.0 < 64,
    ensures
        b.0 == (forward_ranks_spec(c.0, s.0 as int) & adjacent_files_spec(s.0 as int))
            | (forward_ranks_spec(c.0, s.0 as int) & file_spec(s.file_spec() as int)),
{
    Bitboard(pawn_attack_span(c, s).0 | forward_file_bb(c, s).0)
}

/// The squares a bishop on `sq` attacks; the square itself never blocks.
fn bishop_attacks(sq: Square, occ: Bitboard) -> (b: Bitboard)
    requires
        sq.0 < 64,
    ensures
        b.0 == sliding_spec(BISHOP, sq.0 as int, occ.0 & !sq_bit(sq.0 as int)),
{
    sliding_attacks(PieceType(BISHOP), sq, Bitboard(occ.0 & !square_bb(sq).0))
}

/// The squares a rook on `sq` attacks; the square itself never blocks.
fn rook_attacks(sq: Square, occ: Bitboard) -> (b: Bitboard)
    requires
        sq.0 < 64,
    ensures
        b.0 == sliding_spec(ROOK, sq.0 as int, occ.0 & !sq_bit(sq.0 as int)),
{
    sliding_attacks(PieceType(ROOK), sq, Bitboard(occ.0 & !square_bb(sq).0))
}

/// The squares a knight on `sq` attacks.
fn knight_attacks(sq: Square) -> (b: Bitboard)
    requires
        sq.0 < 64,
    ensures
        b.0 == knight_spec(sq.0 as int),
{
    Bitboard(safe_destination(sq, -17).0 | safe_destination(sq, -15).0 | safe_destination(sq, -10).0
        | safe_destination(sq, -6).0 | safe_destination(sq, 6).0 | safe_destination(sq, 10).0
        | safe_destination(sq, 15).0 | safe_destination(sq, 17).0)
}

/// The squares a king on `sq` attacks.
fn king_attacks(sq: Square) -> (b: Bitboard)
    requires
        sq.0 < 64,
    ensures
        b.0 == king_spec(sq.0 as int),
{
    Bitboard(safe_destination(sq, -9).0 | safe_destination(sq, -8).0 | safe_destination(sq, -7).0
        | safe_destination(sq, -1).0 | safe_destination(sq, 1).0 | safe_destination(sq, 7).0
        | safe_destination(sq, 8).0 | safe_destination(sq, 9).0)
}

/// The attack sets of a knight (`KNIGHT`) or king (any other type) on every square.
pub fn init_non_slider_attacks(pt: PieceType) -> (table: Vec<Bitboard>)
    ensures
        table.len() == SQUARE_NB,
        forall|s: int| 0 <= s < 64 ==> #[trigger] table[s].0 == (if pt.0 == KNIGHT {
            knight_spec(s)
        } else {
            king_spec(s)
        }),
{
    let mut table: Vec<Bitboard> = Vec::new();
    let mut s: u32 = 0;
    while s < 64
        invariant
            s <= 64,
            table.len() == s,
            forall|j: int| 0 <= j < s ==> #[trigger] table[j].0 == (if pt.0 == KNIGHT {
                knight_spec(j)
            } else {
                king_spec(j)
            }),
        decreases 64 - s,
    {
        let b = if pt.0 == KNIGHT { knight_attacks(Square(s)) } else { king_attacks(Square(s)) };
        table.push(b);
        s = s + 1;
    }
    table
}

/// The pawn attack sets of both colors on every square, indexed by color then square.
pub fn init_pawn_attacks() -> (table: Vec<Vec<Bitboard>>)
    ensures
        table.len() == COLOR_NB,
        forall|c: int| 0 <= c < 2 ==> #[trigger] table[c].len() == SQUARE_NB,
        forall|c: int, s: int| 0 <= c < 2 && 0 <= s < 64 ==> #[trigger] table[c][s].0 == pawn_attacks_spec(
            c as u32,
            sq_bit(s),
        ),
{
    let mut table: Vec<Vec<Bitboard>> = Vec::new();
    let mut c: u32 = 0;
    while c < 2
        invariant
            c <= 2,
            table.len() == c,
            forall|i: int| 0 <= i < c ==> #[trigger] table[i].len() == SQUARE_NB,
            forall|i: int, s: int| 0 <= i < c && 0 <= s < 64 ==> #[trigger] table[i][s].0
                == pawn_attacks_spec(i as u32, sq_bit(s)),
        decreases 2 - c,
    {
        let mut row: Vec<Bitboard> = Vec::new();
        let mut s: u32 = 0;
        while s < 64
            invariant
                s <= 64,
                c < 2,
                row.len() == s,
                forall|j: int| 0 <= j < s ==> #[trigger] row[j].0 == pawn_attacks_spec(c, sq_bit(j)),
            decreases 64 - s,
        {
            row.push(pawn_attacks_bb(Color(c), Square(s)));
            s = s + 1;
        }
        table.push(row);
        c = c + 1;
    }
    table
}

/// The single-square sets of every square.
pub fn init_square_bb() -> (table: Vec<Bitboard>)
    ensures
        table.len() == SQUARE_NB,
        forall|s: int| 0 <= s < 64 ==> #[trigger] table[s].0 == sq_bit(s),
{
    let mut table: Vec<Bitboard> = Vec::new();
    let mut s: u32 = 0;
    while s < 64
        invariant
            s <= 64,
            table.len() == s,
            forall|j: int| 0 <= j < s ==> #[trigger] table[j].0 == sq_bit(j),
        decreases 64 - s,
    {
        table.push(square_bb(Square(s)));
        s = s + 1;
    }
    table
}

/// The king distances between every pair of squares.
pub fn init_square_distance() -> (table: Vec<Vec<u32>>)
    ensures
        table.len() == SQUARE_NB,
        forall|a: int| 0 <= a < 64 ==> #[trigger] table[a].len() == SQUARE_NB,
        forall|a: int, b: int| 0 <= a < 64 && 0 <= b < 64 ==> #[trigger] table[a][b] == distance_spec(a, b),
{
    let mut table: Vec<Vec<u32>> = Vec::new();
    let mut a: u32 = 0;
    while a < 64
        invariant
            a <= 64,
            table.len() == a,
            forall|i: int| 0 <= i < a ==> #[trigger] table[i].len() == SQUARE_NB,
            forall|i: int, j: int| 0 <= i < a && 0 <= j < 64 ==> #[trigger] table[i][j] == distance_spec(i, j),
        decreases 64 - a,
    {
        let mut row: Vec<u32> = Vec::new();
        let mut b: u32 = 0;
        while b < 64
            invariant
                b <= 64,
                a < 64,
                row.len() == b,
                forall|j: int| 0 <= j < b ==> #[trigger] row[j] == distance_spec(a as int, j),
            decreases 64 - b,
        {
            row.push(square_distance(Square(a), Square(b)));
            b = b + 1;
        }
        table.push(row);
        a = a + 1;
    }
    table
}

} // verus!
