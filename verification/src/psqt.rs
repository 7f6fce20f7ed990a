//! Piece-square values of the classic evaluation: the material value of a piece
//! plus a bonus by rank and by distance from the edge file, white's bonuses mirrored
//! and negated for black.

use vstd::prelude::*;
use crate::types::piece::Piece;
use crate::types::square::{File, Square};

verus! {

pub const PSQ_MAX_PLY: i32 = 128;
pub const PSQ_MAX_MATE_PLY: i32 = 128;

/// A value in centipawns.
#[derive(Debug, Clone, Copy, PartialEq, Eq, Structural)]
pub struct Value(pub i32);

/// The material value of each raw piece value: pawn 100, knight 320, bishop 330,
/// rook 500, queen 900, kings and non-pieces 0, for both colors.
pub const PIECE_VALUE: [i32; 16] = [0, 100, 320, 330, 500, 900, 0, 0, 0, 100, 320, 330, 500, 900, 0, 0];

/// The bonus of each piece type by rank and by file counted from the nearer edge.
pub const BONUS: [[[i32; 4]; 8]; 7] = [
    [[0, 0, 0, 0], [0, 0, 0, 0], [0, 0, 0, 0], [0, 0, 0, 0], [0, 0, 0, 0], [0, 0, 0, 0], [0, 0, 0, 0], [0, 0, 0, 0]],
    [[0, 0, 0, 0], [5, 10, 10, -20], [5, -5, -10, 0], [0, 0, 0, 20], [5, 5, 10, 25], [10, 10, 20, 30], [50, 50, 50, 50], [0, 0, 0, 0]],
    [[-50, -40, -30, -30], [-40, -20, 0, 5], [-30, 5, 10, 15], [-30, 0, 15, 20], [-30, 5, 15, 20], [-30, 0, 10, 15], [-40, -20, 0, 0], [-50, -40, -30, -30]],
    [[-20, -10, -10, -10], [-10, 5, 0, 0], [-10, 10, 10, 10], [-10, 0, 10, 10], [-10, 5, 5, 10], [-10, 0, 5, 10], [-10, 0, 0, 0], [-20, -10, -10, -10]],
    [[0, 0, 0, 5], [-5, 0, 0, 0], [-5, 0, 0, 0], [-5, 0, 0, 0], [-5, 0, 0, 0], [-5, 0, 0, 0], [5, 10, 10, 10], [0, 0, 0, 0]],
    [[-20, -10, -10, -5], [-10, 0, 5, 0], [-10, 5, 5, 5], [0, 0, 5, 5], [-5, 0, 5, 5], [-10, 0, 5, 5], [-10, 0, 0, 0], [-20, -10, -10, -5]],
    [[20, 30, 10, 0], [20, 20, 0, 0], [-10, -20, -20, -20], [-20, -30, -30, -40], [-30, -40, -40, -50], [-30, -40, -40, -50], [-30, -40, -40, -50], [-30, -40, -40, -50]],
];

/// The nearer of two files to the a-file.
pub open spec fn min_file_spec(f1: int, f2: int) -> int {
    if f1 < f2 { f1 } else { f2 }
}

/// Square `s` with its rank flipped (a1 to a8, e2 to e7).
pub open spec fn mirror(s: int) -> int {
    (7 - s / 8) * 8 + s % 8
}

/// The value of a white piece of raw value `p` (1 to 6) on square `s`.
pub open spec fn white_psq(p: int, s: int) -> int {
    PIECE_VALUE[p] + BONUS[p][s / 8][min_file_spec(s % 8, 7 - s % 8)]
}

/// The piece-square value of piece `p` on square `s`: for a white piece, its value plus
/// its bonus; for a black piece, minus that of the white piece on the mirrored square
/// (rank flipped); zero for raw values that name no piece.
pub open spec fn psq_spec(p: int, s: int) -> int {
    if 1 <= p <= 6 {
        white_psq(p, s)
    } else if 9 <= p <= 14 {
        -white_psq(p - 8, mirror(s))
    } else {
        0
    }
}

impl Value {
    /// The absolute value.
    pub fn abs(self) -> (v: Value)
        requires
            self.0 > i32::MIN,
        ensures
            v.0 == if self.0 < 0 { -self.0 } else { self.0 as int },
    {
        Value(if self.0 < 0 { -self.0 } else { self.0 })
    }
}

/// The material value of piece `pc`.
pub fn piece_value(pc: Piece) -> (v: Value)
    requires
        pc.0 < 16,
    ensures
        v.0 == PIECE_VALUE[pc.0 as int],
{
    Value(PIECE_VALUE[pc.0 as usize])
}

/// The nearer of two files to the a-file.
pub fn min_file(f1: File, f2: File) -> (f: File)
    ensures
        f.0 == min_file_spec(f1.0 as int, f2.0 as int),
{
    if f1.0 < f2.0 { f1 } else { f2 }
}

fn white_value(p: usize, s: usize) -> (v: i32)
    requires
        1 <= p <= 6,
        s < 64,
    ensures
        v == white_psq(p as int, s as int),
{
    let f = s % 8;
    let mf = if f < 7 - f { f } else { 7 - f };
    PIECE_VALUE[p] + BONUS[p][s / 8][mf]
}

/// The piece-square value of piece `pc` on square `s` (see `psq_spec`).
pub fn psq(pc: Piece, s: Square) -> (v: Value)
    requires
        pc.0 < 16,
        s.0 < 64,
    ensures
        v.0 == psq_spec(pc.0 as int, s.0 as int),
{
    let p = pc.0 as usize;
    let sq = s.0 as usize;
    if 1 <= p && p <= 6 {
        Value(white_value(p, sq))
    } else if 9 <= p && p <= 14 {
        let m = sq ^ 56;
        assert(m < 64 && m == (7 - sq / 8) * 8 + sq % 8) by (bit_vector)
            requires sq < 64usize, m == sq ^ 56usize;
        Value(-white_value(p - 8, m))
    } else {
        Value(0)
    }
}

/// The table of all piece-square values, by raw piece value and square.
pub fn init_psq() -> (t: [[Value; 64]; 16])
    ensures
        forall|p: int, s: int| 0 <= p < 16 && 0 <= s < 64 ==> #[trigger] t[p][s].0 == psq_spec(p, s),
{
    let mut t = [[Value(0); 64]; 16];
    let mut p: usize = 0;
    while p < 16
        invariant
            p <= 16,
            forall|q: int, s: int| 0 <= q < p && 0 <= s < 64 ==> #[trigger] t[q][s].0 == psq_spec(q, s),
            forall|q: int, s: int| p <= q < 16 && 0 <= s < 64 ==> #[trigger] t[q][s].0 == 0,
        decreases 16 - p,
    {
        let mut s: usize = 0;
        while s < 64
            invariant
                p < 16,
                s <= 64,
                forall|q: int, r: int| 0 <= q < p && 0 <= r < 64 ==> #[trigger] t[q][r].0 == psq_spec(q, r),
                forall|r: int| 0 <= r < s ==> #[trigger] t[p as int][r].0 == psq_spec(p as int, r),
                forall|q: int, r: int| p < q < 16 && 0 <= r < 64 ==> #[trigger] t[q][r].0 == 0,
            decreases 64 - s,
        {
            t[p][s] = psq(Piece(p as u32), Square(s as u32));
            s = s + 1;
        }
        p = p + 1;
    }
    t
}

/// A black piece is worth, on any square, minus what the white piece of the same type
/// is worth on the square mirrored across the middle of the board.
pub proof fn lemma_psq_mirror(p: int, s: int)
    requires
        1 <= p <= 6,
        0 <= s < 64,
    ensures
        0 <= mirror(s) < 64,
        mirror(mirror(s)) == s,
        psq_spec(p + 8, s) == -psq_spec(p, mirror(s)),
        psq_spec(p + 8, mirror(s)) == -psq_spec(p, s),
{
}

/// Every piece-square value lies within 2000 centipawns of zero.
pub proof fn lemma_psq_bounds(p: int, s: int)
    requires
        0 <= s < 64,
    ensures
        -2000 <= psq_spec(p, s) <= 2000,
{
    assert(forall|q: int| 0 <= q < 16 ==> 0 <= #[trigger] PIECE_VALUE[q] <= 900);
    assert(forall|q: int, r: int, f: int| 0 <= q < 7 && 0 <= r < 8 && 0 <= f < 4 ==> -100 <= #[trigger] BONUS[q][r][f]
        <= 100);
}

} // verus!
