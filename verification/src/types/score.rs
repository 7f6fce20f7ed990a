use vstd::prelude::*;
use crate::types::piece::Piece;

verus! {

pub const MAX_MOVES: usize = 256;
pub const MAX_PLY: i32 = 128;
pub const MAX_MATE_PLY: i32 = 128;

pub const MG: usize = 0;
pub const EG: usize = 1;

pub const VALUE_ZERO: i32 = 0;
pub const VALUE_DRAW: i32 = 0;
pub const VALUE_KNOWN_WIN: i32 = 10000;
pub const VALUE_MATE: i32 = 32000;
pub const VALUE_INFINITE: i32 = 32001;
pub const VALUE_NONE: i32 = 32002;
pub const VALUE_MATE_IN_MAX_PLY: i32 = 31744;
pub const VALUE_MATED_IN_MAX_PLY: i32 = -31744;

pub const PAWN_MG: i32 = 100;
pub const KNIGHT_MG: i32 = 320;
pub const BISHOP_MG: i32 = 330;
pub const ROOK_MG: i32 = 500;
pub const QUEEN_MG: i32 = 900;
pub const PAWN_EG: i32 = 100;
pub const KNIGHT_EG: i32 = 320;
pub const BISHOP_EG: i32 = 330;
pub const ROOK_EG: i32 = 500;
pub const QUEEN_EG: i32 = 900;

pub const MIDGAME_LIMIT: i32 = 15258;
pub const ENDGAME_LIMIT: i32 = 3915;

pub const PHASE_ENDGAME: u32 = 0;
pub const PHASE_MIDGAME: u32 = 128;

/// A search depth in plies.
#[derive(Debug, Clone, Copy, PartialEq, Eq, Structural)]
pub struct Depth(pub i32);

/// A game phase, from 0 (endgame) to 128 (middlegame).
#[derive(Debug, Clone, Copy, PartialEq, Eq, Structural)]
pub struct Phase(pub u32);

/// A position value in centipawns.
#[derive(Debug, Clone, Copy, PartialEq, Eq, Structural)]
pub struct Value(pub i32);

/// A middlegame and an endgame value packed in one integer: `eg * 65536 + mg`.
#[derive(Debug, Clone, Copy, PartialEq, Eq, Structural)]
pub struct Score(pub i32);

/// The material value of piece `pc` (raw value below 16) in the middlegame (`phase` 0) or
/// the endgame (`phase` 1); kings and non-pieces count zero.
pub open spec fn piece_value_spec(pc: int) -> int {
    let pt = pc % 8;
    if pt == 1 { 100 } else if pt == 2 { 320 } else if pt == 3 { 330 } else if pt == 4 { 500 }
    else if pt == 5 { 900 } else { 0 }
}

/// The material value of piece `pc` in phase `phase` (0 middlegame, 1 endgame).
pub fn piece_value(phase: usize, pc: Piece) -> (v: Value)
    requires
        phase < 2,
        pc.0 < 16,
    ensures
        v.0 == piece_value_spec(pc.0 as int),
{
    let mg: [i32; 16] = [0, PAWN_MG, KNIGHT_MG, BISHOP_MG, ROOK_MG, QUEEN_MG, 0, 0,
        0, PAWN_MG, KNIGHT_MG, BISHOP_MG, ROOK_MG, QUEEN_MG, 0, 0];
    let eg: [i32; 16] = [0, PAWN_EG, KNIGHT_EG, BISHOP_EG, ROOK_EG, QUEEN_EG, 0, 0,
        0, PAWN_EG, KNIGHT_EG, BISHOP_EG, ROOK_EG, QUEEN_EG, 0, 0];
    if phase == MG { Value(mg[pc.0 as usize]) } else { Value(eg[pc.0 as usize]) }
}

impl Depth {
    /// The depth multiplied by `k`.
    pub fn times(self, k: i32) -> (d: Depth)
        requires
            i32::MIN <= k * self.0 <= i32::MAX,
        ensures
            d.0 == k * self.0,
    {
        Depth(k * self.0)
    }
}

impl Value {
    /// The absolute value.
    pub fn abs(self) -> (v: Value)
        requires
            self.0 > i32::MIN,
        ensures
            v.0 == (if self.0 < 0 { -self.0 } else { self.0 as int }),
    {
        if self.0 < 0 { Value(-self.0) } else { self }
    }

    /// The value seen from the other side.
    pub fn neg(self) -> (v: Value)
        requires
            self.0 > i32::MIN,
        ensures
            v.0 == -self.0,
    {
        Value(-self.0)
    }
}

/// The value of giving mate in `ply` plies.
pub fn mate_in(ply: i32) -> (v: Value)
    requires
        VALUE_MATE - ply <= i32::MAX,
    ensures
        v.0 == VALUE_MATE - ply,
{
    Value(VALUE_MATE - ply)
}

/// The value of being mated in `ply` plies.
pub fn mated_in(ply: i32) -> (v: Value)
    requires
        -VALUE_MATE + ply >= i32::MIN,
    ensures
        v.0 == -VALUE_MATE + ply,
{
    Value(-VALUE_MATE + ply)
}

/// Packing a high half `e` and a low half `m` into one value, and reading them back.
proof fn lemma_packed_halves(e: i32, m: i32, hi: i32, s: i32)
    by (bit_vector)
    requires
        hi == e << 16u32,
    ensures
        hi == ((e as i16) as i32) * 65536,
        s == hi + m && -32768 <= m <= 32767 ==> (s as i16) as i32 == m,
        s == hi + m && -32768 <= m <= 32767 && s <= i32::MAX - 0x8000 ==> ((((s + 0x8000) as i32) >> 16i32) as i16)
            as i32 == (e as i16) as i32,
{
}

/// The 16-bit value held in the low half of `s`, sign extended.
pub open spec fn low_half(s: i32) -> i32 {
    (s as i16) as i32
}

/// The 16-bit value held in the high half of `s`, rounded for the borrow of a negative low half.
pub open spec fn high_half(s: i32) -> i32 {
    (((s + 0x8000) as i32 >> 16i32) as i16) as i32
}

impl Score {
    /// The packed score with middlegame value `mg` and endgame value `eg`: `eg` shifted
    /// into the high half (its bits above the low 16 falling off) plus `mg`.
    pub fn make(mg: Value, eg: Value) -> (s: Score)
        requires
            i32::MIN <= low_half(eg.0) * 65536 + mg.0 <= i32::MAX,
        ensures
            s.0 == low_half(eg.0) * 65536 + mg.0,
            i16::MIN <= mg.0 <= i16::MAX ==> low_half(s.0) == mg.0,
            i16::MIN <= mg.0 <= i16::MAX && s.0 <= i32::MAX - 0x8000 ==> high_half(s.0) == low_half(eg.0),
    {
        let (m, e) = (mg.0, eg.0);
        let hi = e << 16u32;
        proof {
            lemma_packed_halves(e, m, hi, (hi + m) as i32);
        }
        Score(hi + m)
    }

    /// The middlegame value.
    pub fn mg(self) -> (v: Value)
        ensures
            v.0 == low_half(self.0),
    {
        Value((self.0 as i16) as i32)
    }

    /// The endgame value.
    pub fn eg(self) -> (v: Value)
        requires
            self.0 <= i32::MAX - 0x8000,
        ensures
            v.0 == high_half(self.0),
    {
        Value((((self.0 + 0x8000) >> 16i32) as i16) as i32)
    }

    /// The sum of two scores.
    pub fn add(self, rhs: Score) -> (s: Score)
        requires
            i32::MIN <= self.0 + rhs.0 <= i32::MAX,
        ensures
            s.0 == self.0 + rhs.0,
    {
        Score(self.0 + rhs.0)
    }

    /// The difference of two scores.
    pub fn sub(self, rhs: Score) -> (s: Score)
        requires
            i32::MIN <= self.0 - rhs.0 <= i32::MAX,
        ensures
            s.0 == self.0 - rhs.0,
    {
        Score(self.0 - rhs.0)
    }

    /// The score seen from the other side.
    pub fn neg(self) -> (s: Score)
        requires
            self.0 > i32::MIN,
        ensures
            s.0 == -self.0,
    {
        Score(-self.0)
    }
}

} // verus!
