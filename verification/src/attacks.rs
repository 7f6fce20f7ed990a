//! Attack sets computed square by square, without precomputed tables.

pub mod attack_bb;

use vstd::prelude::*;
use crate::types::bitboard::{Bitboard, bb_has, EMPTY_BB, FILE_A_BB, FILE_H_BB, RANK_1_BB, shift_spec};
use crate::types::square::{Square, File, Rank, Direction, NORTH, SOUTH, EAST, WEST, NORTH_EAST, NORTH_WEST, SOUTH_EAST, SOUTH_WEST, SQ_A1, SQ_H8};
use crate::types::piece::{Color, PieceType, ROOK, BISHOP, WHITE, BLACK};

verus! {

/// The set holding square `s` alone (empty for numbers off the board).
pub open spec fn sq_bit(s: int) -> u64 {
    if 0 <= s < 64 { 1u64 << (s as u64) } else { 0 }
}

/// The larger of the file distance and the rank distance between squares `a` and `b`.
pub open spec fn distance_spec(a: int, b: int) -> int {
    let df = if a % 8 >= b % 8 { a % 8 - b % 8 } else { b % 8 - a % 8 };
    let dr = if a / 8 >= b / 8 { a / 8 - b / 8 } else { b / 8 - a / 8 };
    if df > dr { df } else { dr }
}

/// A step of `step` from square `s` lands on the board, at most two files and ranks away.
pub open spec fn step_ok(s: int, step: int) -> bool {
    let to = s + step;
    0 <= to < 64 && distance_spec(s, to) <= 2
}

/// The squares reached from `s` stepping along `d` until a step would leave the board or
/// the square stepped from is occupied.
pub open spec fn ray(s: int, d: int, occ: u64) -> u64
    decreases (if d > 0 { 64 - s } else { s + 1 }),
{
    if 0 <= s < 64 && d != 0 && step_ok(s, d) && !bb_has(occ, s) {
        sq_bit(s + d) | ray(s + d, d, occ)
    } else {
        0
    }
}

/// The four ray directions of a rook (`ROOK`) or a bishop (any other type).
pub open spec fn slider_dir(pt: u32, i: int) -> int {
    if pt == ROOK {
        if i == 0 { 8 } else if i == 1 { -8 } else if i == 2 { 1 } else { -1 }
    } else {
        if i == 0 { 9 } else if i == 1 { -7 } else if i == 2 { -9 } else { 7 }
    }
}

/// The squares attacked by a rook or bishop on `sq` with blockers `occ`.
pub open spec fn sliding_spec(pt: u32, sq: int, occ: u64) -> u64 {
    ray(sq, slider_dir(pt, 0), occ) | ray(sq, slider_dir(pt, 1), occ) | ray(sq, slider_dir(pt, 2), occ)
        | ray(sq, slider_dir(pt, 3), occ)
}

/// The squares attacked by pawns of color `c` standing on the squares of `b`.
pub open spec fn pawn_attacks_spec(c: u32, b: u64) -> u64 {
    if c == WHITE {
        shift_spec(7, b) | shift_spec(9, b)
    } else {
        shift_spec(-9, b) | shift_spec(-7, b)
    }
}

proof fn lemma_or_assoc(a: u64, b: u64, c: u64)
    ensures
        (a | b) | c == a | (b | c),
        a | 0 == a,
{
    assert((a | b) | c == a | (b | c)) by (bit_vector);
    assert(a | 0 == a) by (bit_vector);
}

/// True for the 64 squares of the board.
pub(crate) fn is_square_ok(s: Square) -> (b: bool)
    ensures
        b <==> s.0 < 64,
{
    s.0 >= SQ_A1 && s.0 <= SQ_H8
}

/// The square `step` squares away, with the wrap-around of `u32` arithmetic.
pub(crate) fn shift_square(s: Square, step: i32) -> (r: Square)
    requires
        s.0 < 64,
        -64 <= step <= 64,
    ensures
        0 <= s.0 + step < 64 ==> r.0 == s.0 + step,
        !(0 <= s.0 + step < 64) ==> r.0 >= 64,
{
    Square(s.0.wrapping_add_signed(step))
}

/// The squares of rank `r`.
pub(crate) fn rank_bb(r: Rank) -> (b: Bitboard)
    requires
        r.0 < 8,
    ensures
        b.0 == RANK_1_BB << (8 * r.0) as u64,
{
    Bitboard(RANK_1_BB << (8 * r.0) as u64)
}

/// The squares of file `f`.
pub(crate) fn file_bb(f: File) -> (b: Bitboard)
    requires
        f.0 < 8,
    ensures
        b.0 == FILE_A_BB << f.0 as u64,
{
    Bitboard(FILE_A_BB << f.0 as u64)
}

/// The set holding square `s` alone.
pub fn square_bb(s: Square) -> (b: Bitboard)
    requires
        s.0 < 64,
    ensures
        b.0 == sq_bit(s.0 as int),
        forall|j: int| bb_has(b.0, j) <==> j == s.0,
{
    let x = s.0 as u64;
    proof {
        assert forall|j: int| bb_has(1u64 << x, j) <==> j == x by {
            if 0 <= j < 64 {
                let jj = j as u64;
                assert(((1u64 << x) >> jj) & 1 == 1 <==> jj == x) by (bit_vector)
                    requires x < 64, jj < 64;
            }
        }
    }
    Bitboard(1u64 << x)
}

/// The distance between the files of two squares.
fn file_distance(s1: Square, s2: Square) -> (d: u32)
    requires
        s1.0 < 64,
        s2.0 < 64,
    ensures
        d == (if s1.0 % 8 >= s2.0 % 8 { s1.0 % 8 - s2.0 % 8 } else { s2.0 % 8 - s1.0 % 8 }),
{
    let (a, b) = (s1.file().0, s2.file().0);
    if a >= b { a - b } else { b - a }
}

/// The distance between the ranks of two squares.
fn rank_distance(s1: Square, s2: Square) -> (d: u32)
    requires
        s1.0 < 64,
        s2.0 < 64,
    ensures
        d == (if s1.0 / 8 >= s2.0 / 8 { s1.0 / 8 - s2.0 / 8 } else { s2.0 / 8 - s1.0 / 8 }),
{
    let (a, b) = (s1.rank().0, s2.rank().0);
    if a >= b { a - b } else { b - a }
}

/// The king distance between two squares: the larger of file and rank distance.
pub(crate) fn square_distance(s1: Square, s2: Square) -> (d: u32)
    requires
        s1.0 < 64,
        s2.0 < 64,
    ensures
        d == distance_spec(s1.0 as int, s2.0 as int),
{
    let file_dist = file_distance(s1, s2);
    let rank_dist = rank_distance(s1, s2);
    if file_dist > rank_dist { file_dist } else { rank_dist }
}

/// The target of `step` from `s` as a set: empty when the step leaves the board or
/// wraps around an edge (more than two files or ranks away).
pub(crate) fn safe_destination(s: Square, step: i32) -> (b: Bitboard)
    requires
        s.0 < 64,
        -64 <= step <= 64,
    ensures
        b.0 == (if step_ok(s.0 as int, step as int) { sq_bit(s.0 + step) } else { 0 }),
{
    let to = shift_square(s, step);
    if is_square_ok(to) && square_distance(s, to) <= 2 { square_bb(to) } else { Bitboard(EMPTY_BB) }
}

/// The set moved one step along `d`, dropping squares that would wrap around a side edge.
pub(crate) fn shift(d: Direction, b: Bitboard) -> (r: Bitboard)
    requires
        d.0 == NORTH || d.0 == SOUTH || d.0 == NORTH_EAST || d.0 == SOUTH_EAST || d.0 == NORTH_WEST
            || d.0 == SOUTH_WEST || d.0 == EAST || d.0 == WEST,
    ensures
        r.0 == shift_spec(d.0 as int, b.0),
{
    let x = b.0;
    if d.0 == NORTH {
        Bitboard(x << 8u64)
    } else if d.0 == SOUTH {
        Bitboard(x >> 8u64)
    } else if d.0 == NORTH_EAST {
        Bitboard((x & !FILE_H_BB) << 9u64)
    } else if d.0 == SOUTH_EAST {
        Bitboard((x & !FILE_H_BB) >> 7u64)
    } else if d.0 == NORTH_WEST {
        Bitboard((x & !FILE_A_BB) << 7u64)
    } else if d.0 == SOUTH_WEST {
        Bitboard((x & !FILE_A_BB) >> 9u64)
    } else if d.0 == EAST {
        Bitboard((x & !FILE_H_BB) << 1u64)
    } else {
        Bitboard((x & !FILE_A_BB) >> 1u64)
    }
}

/// The squares reached from `sq` along direction `d`, OR-ed into `acc`.
fn add_ray(acc: Bitboard, sq: Square, d: i32, occupied: Bitboard) -> (r: Bitboard)
    requires
        sq.0 < 64,
        d == 1 || d == -1 || d == 7 || d == -7 || d == 8 || d == -8 || d == 9 || d == -9,
    ensures
        r.0 == acc.0 | ray(sq.0 as int, d as int, occupied.0),
{
    let mut attacks = acc;
    let mut s: Square = sq;
    proof { lemma_or_assoc(acc.0, 0, 0); }
    loop
        invariant
            s.0 < 64,
            d == 1 || d == -1 || d == 7 || d == -7 || d == 8 || d == -8 || d == 9 || d == -9,
            attacks.0 | ray(s.0 as int, d as int, occupied.0) == acc.0 | ray(sq.0 as int, d as int, occupied.0),
        ensures
            attacks.0 == acc.0 | ray(sq.0 as int, d as int, occupied.0),
        decreases (if d > 0 { 64 - s.0 } else { s.0 + 1 }),
    {
        let dest = safe_destination(s, d);
        let here = square_bb(s);
        let x = s.0 as u64;
        let o = occupied.0;
        proof {
            assert(((o & (1u64 << x)) == 0) <==> !(((o >> x) & 1) == 1)) by (bit_vector) requires x < 64;
            if step_ok(s.0 as int, d as int) {
                let t = (s.0 + d) as u64;
                assert(1u64 << t != 0) by (bit_vector) requires t < 64;
            }
        }
        if dest.0 == 0 || (o & here.0) != 0 {
            proof { lemma_or_assoc(attacks.0, 0, 0); }
            break;
        }
        proof {
            lemma_or_assoc(attacks.0, sq_bit(s.0 + d), ray(s.0 + d, d as int, occupied.0));
        }
        s = shift_square(s, d);
        attacks = Bitboard(attacks.0 | square_bb(s).0);
    }
    attacks
}

/// The squares attacked by a rook (`ROOK`) or bishop (`BISHOP`) on `sq` when the squares
/// of `occupied` block. A direction yields nothing when `sq` itself is occupied.
pub fn sliding_attacks(pt: PieceType, sq: Square, occupied: Bitboard) -> (b: Bitboard)
    requires
        pt.0 == ROOK || pt.0 == BISHOP,
        sq.0 < 64,
    ensures
        b.0 == sliding_spec(pt.0, sq.0 as int, occupied.0),
{
    let (d0, d1, d2, d3) = if pt.0 == ROOK {
        (NORTH, SOUTH, EAST, WEST)
    } else {
        (NORTH_EAST, SOUTH_EAST, SOUTH_WEST, NORTH_WEST)
    };
    let a0 = add_ray(Bitboard(EMPTY_BB), sq, d0, occupied);
    let a1 = add_ray(a0, sq, d1, occupied);
    let a2 = add_ray(a1, sq, d2, occupied);
    let a3 = add_ray(a2, sq, d3, occupied);
    proof {
        let r0 = ray(sq.0 as int, d0 as int, occupied.0);
        assert(0u64 | r0 == r0) by (bit_vector);
    }
    a3
}

/// The squares attacked by pawns of color `c` standing on the squares of `b`.
pub(crate) fn pawn_attacks_bb(c: Color, b: Bitboard) -> (r: Bitboard)
    requires
        c.0 == WHITE || c.0 == BLACK,
    ensures
        r.0 == pawn_attacks_spec(c.0, b.0),
{
    if c.0 == WHITE {
        Bitboard(shift(Direction(NORTH_WEST), b).0 | shift(Direction(NORTH_EAST), b).0)
    } else {
        Bitboard(shift(Direction(SOUTH_WEST), b).0 | shift(Direction(SOUTH_EAST), b).0)
    }
}

} // verus!
