use vstd::prelude::*;

verus! {

pub const PHASE_NUM: usize = 2;

/// The value of a draw.
pub const VALUE_DRAW: i16 = 0;
/// The value of giving mate at once.
pub const VALUE_MATE: i16 = 32000;
/// A value beyond every reachable one.
pub const VALUE_INFINITE: i16 = 32001;

/// The value of being mated at `ply` plies from the root.
pub open spec fn mated_in_spec(ply: int) -> int {
    -VALUE_MATE + ply
}

/// A value in centipawns, 16 bits wide; sums wrap around as in release builds.
#[derive(Debug, Clone, Copy, PartialEq, Eq, Structural)]
pub struct Value(pub i16);

/// A game-phase weight.
#[derive(Debug, Clone, Copy, PartialEq, Eq, Structural)]
pub struct Phase(pub u32);

/// A pair of values: middlegame (index 0) and endgame (index 1).
#[derive(Debug, Clone, Copy, PartialEq, Eq)]
pub struct Score {
    pub values: [Value; PHASE_NUM],
}

/// `v` brought into the range of `i16` by wrapping around.
pub open spec fn wrap16(v: int) -> i16 {
    let m = v % 65536;
    (if m >= 32768 { m - 65536 } else { m }) as i16
}

pub proof fn lemma_wrap16_small(v: int)
    requires
        -65536 <= v < 65536,
    ensures
        wrap16(v) == (if v > i16::MAX { v - 65536 } else if v < i16::MIN { v + 65536 } else { v }),
{
}

/// The componentwise wrapped sum of two (middlegame, endgame) pairs.
pub open spec fn add_pair(a: (i16, i16), b: (i16, i16)) -> (i16, i16) {
    (wrap16(a.0 + b.0), wrap16(a.1 + b.1))
}

/// The componentwise wrapped difference of two pairs.
pub open spec fn sub_pair(a: (i16, i16), b: (i16, i16)) -> (i16, i16) {
    (wrap16(a.0 - b.0), wrap16(a.1 - b.1))
}

/// The componentwise wrapped negation of a pair.
pub open spec fn neg_pair(a: (i16, i16)) -> (i16, i16) {
    (wrap16(-a.0), wrap16(-a.1))
}

impl View for Score {
    type V = (i16, i16);

    /// The middlegame and endgame values.
    open spec fn view(&self) -> (i16, i16) {
        (self.values[0].0, self.values[1].0)
    }
}

impl Value {
    /// Zero.
    pub fn zero() -> (v: Value)
        ensures
            v.0 == 0,
    {
        Value(0)
    }

    /// The wrapped sum.
    pub fn add(self, rhs: Value) -> (v: Value)
        ensures
            v.0 == wrap16(self.0 + rhs.0),
    {
        proof { lemma_wrap16_small(self.0 + rhs.0); }
        Value(self.0.wrapping_add(rhs.0))
    }

    /// The wrapped difference.
    pub fn sub(self, rhs: Value) -> (v: Value)
        ensures
            v.0 == wrap16(self.0 - rhs.0),
    {
        proof { lemma_wrap16_small(self.0 - rhs.0); }
        Value(self.0.wrapping_sub(rhs.0))
    }

    /// The value of being mated `ply` plies from the root.
    pub fn mated_in(ply: u32) -> (v: Value)
        requires
            ply <= 32000,
        ensures
            v.0 == mated_in_spec(ply as int),
    {
        Value(ply as i16 - VALUE_MATE)
    }

    /// The wrapped negation.
    pub fn neg(self) -> (v: Value)
        ensures
            v.0 == wrap16(-self.0),
    {
        proof { lemma_wrap16_small(-self.0); }
        Value(0i16.wrapping_sub(self.0))
    }
}

impl Phase {
    /// The sum of two phase weights.
    pub fn add(self, rhs: Phase) -> (p: Phase)
        requires
            self.0 + rhs.0 <= u32::MAX,
        ensures
            p.0 == self.0 + rhs.0,
    {
        Phase(self.0 + rhs.0)
    }
}

impl Score {
    /// Both values zero.
    pub fn default() -> (s: Score)
        ensures
            s@ == (0i16, 0i16),
    {
        Score { values: [Value(0), Value(0)] }
    }

    /// The score with middlegame value `vals[0]` and endgame value `vals[1]`.
    pub fn new(vals: &[i16; PHASE_NUM]) -> (s: Score)
        ensures
            s@ == (vals[0], vals[1]),
    {
        Score { values: [Value(vals[0]), Value(vals[1])] }
    }

    /// The componentwise wrapped sum.
    pub fn add(self, rhs: Score) -> (s: Score)
        ensures
            s@ == add_pair(self@, rhs@),
    {
        Score { values: [self.values[0].add(rhs.values[0]), self.values[1].add(rhs.values[1])] }
    }

    /// The componentwise wrapped difference.
    pub fn sub(self, rhs: Score) -> (s: Score)
        ensures
            s@ == sub_pair(self@, rhs@),
    {
        Score { values: [self.values[0].sub(rhs.values[0]), self.values[1].sub(rhs.values[1])] }
    }

    /// The componentwise wrapped negation.
    pub fn neg(self) -> (s: Score)
        ensures
            s@ == neg_pair(self@),
    {
        Score { values: [self.values[0].neg(), self.values[1].neg()] }
    }
}

} // verus!
