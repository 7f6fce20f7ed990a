//! Zobrist hashing keys, drawn from a fixed-seed generator so that every
//! run hashes positions alike.

use vstd::prelude::*;
use crate::rng::{Prng, nth_output, state_after};

verus! {

/// A position hash key.
pub type Key = u64;

pub const KEY_ZERO: u64 = 0;

/// The seed from which the keys are drawn.
pub const ZOBRIST_SEED: u64 = 1070372;

/// The raw value of the `i`-th real piece: white pawn to king, then black pawn to king.
pub open spec fn valid_piece(i: int) -> int {
    if i < 6 { i + 1 } else { i + 3 }
}

/// Whether a raw piece value below 16 names a real piece.
pub open spec fn is_valid_piece(p: int) -> bool {
    (1 <= p <= 6) || (9 <= p <= 14)
}

/// The `k`-th key drawn for the tables.
pub open spec fn zobrist_rand(k: int) -> u64 {
    nth_output(ZOBRIST_SEED, k as nat)
}

/// The key tables: one key per piece and square, per en-passant file and per
/// castling-right set, one for the side to move and one for "no pawns".
#[derive(Debug)]
pub struct Zobrist {
    pub psq: [[u64; 64]; 16],
    pub en_passant: [u64; 8],
    pub castling: [u64; 16],
    pub side: u64,
    pub no_pawns: u64,
}

impl Zobrist {
    /// All keys zero.
    pub fn new() -> (z: Zobrist)
        ensures
            forall|p: int, s: int| 0 <= p < 16 && 0 <= s < 64 ==> #[trigger] z.psq[p][s] == 0,
            forall|f: int| 0 <= f < 8 ==> #[trigger] z.en_passant[f] == 0,
            forall|c: int| 0 <= c < 16 ==> #[trigger] z.castling[c] == 0,
            z.side == 0,
            z.no_pawns == 0,
    {
        Zobrist {
            psq: [[KEY_ZERO; 64]; 16],
            en_passant: [KEY_ZERO; 8],
            castling: [KEY_ZERO; 16],
            side: KEY_ZERO,
            no_pawns: KEY_ZERO,
        }
    }

    /// Draws the keys in a fixed order: the 64 squares of each real piece (white
    /// pawn to king, then black), the 8 files, the 16 castling-right sets, the side
    /// and "no pawns". Rows of raw values that name no piece are left as they were.
    pub fn init(&mut self)
        ensures
            forall|i: int, s: int|
                0 <= i < 12 && 0 <= s < 64 ==> #[trigger] final(self).psq[valid_piece(i)][s]
                    == zobrist_rand(64 * i + s),
            forall|p: int, s: int|
                0 <= p < 16 && 0 <= s < 64 && !is_valid_piece(p) ==> #[trigger] final(self).psq[p][s]
                    == old(self).psq[p][s],
            forall|f: int| 0 <= f < 8 ==> #[trigger] final(self).en_passant[f] == zobrist_rand(768 + f),
            forall|c: int| 0 <= c < 16 ==> #[trigger] final(self).castling[c] == zobrist_rand(776 + c),
            final(self).side == zobrist_rand(792),
            final(self).no_pawns == zobrist_rand(793),
    {
        let mut rng = Prng::new(ZOBRIST_SEED);
        let ghost old_psq = self.psq;
        let mut i: usize = 0;
        while i < 12
            invariant
                i <= 12,
                rng@ == state_after(ZOBRIST_SEED, (64 * i) as nat),
                forall|j: int, s: int|
                    0 <= j < i && 0 <= s < 64 ==> #[trigger] self.psq[valid_piece(j)][s]
                        == zobrist_rand(64 * j + s),
                forall|p: int, s: int|
                    0 <= p < 16 && 0 <= s < 64 && !(exists|j: int| 0 <= j < i && p == valid_piece(j))
                        ==> #[trigger] self.psq[p][s] == old_psq[p][s],
            decreases 12 - i,
        {
            let pc: usize = if i < 6 { i + 1 } else { i + 3 };
            let mut s: usize = 0;
            while s < 64
                invariant
                    i < 12,
                    s <= 64,
                    pc == valid_piece(i as int),
                    rng@ == state_after(ZOBRIST_SEED, (64 * i + s) as nat),
                    forall|j: int, t: int|
                        0 <= j < i && 0 <= t < 64 ==> #[trigger] self.psq[valid_piece(j)][t]
                            == zobrist_rand(64 * j + t),
                    forall|t: int| 0 <= t < s ==> #[trigger] self.psq[pc as int][t] == zobrist_rand(64 * i + t),
                    forall|p: int, t: int|
                        0 <= p < 16 && 0 <= t < 64 && p != pc && !(exists|j: int| 0 <= j < i && p == valid_piece(j))
                            ==> #[trigger] self.psq[p][t] == old_psq[p][t],
                decreases 64 - s,
            {
                let k = rng.rand();
                self.psq[pc][s] = k;
                s = s + 1;
            }
            proof {
                assert forall|p: int, t: int|
                    0 <= p < 16 && 0 <= t < 64 && !(exists|j: int| 0 <= j < i + 1 && p == valid_piece(j))
                    implies #[trigger] self.psq[p][t] == old_psq[p][t] by {
                    assert(p != valid_piece(i as int));
                }
            }
            i = i + 1;
        }
        proof {
            assert forall|p: int, s: int|
                0 <= p < 16 && 0 <= s < 64 && !is_valid_piece(p) implies #[trigger] self.psq[p][s]
                    == old_psq[p][s] by {
                assert(!(exists|j: int| 0 <= j < 12 && p == valid_piece(j)));
            }
        }
        let mut f: usize = 0;
        while f < 8
            invariant
                f <= 8,
                rng@ == state_after(ZOBRIST_SEED, (768 + f) as nat),
                forall|g: int| 0 <= g < f ==> #[trigger] self.en_passant[g] == zobrist_rand(768 + g),
                forall|i: int, s: int|
                    0 <= i < 12 && 0 <= s < 64 ==> #[trigger] self.psq[valid_piece(i)][s]
                        == zobrist_rand(64 * i + s),
                forall|p: int, s: int|
                    0 <= p < 16 && 0 <= s < 64 && !is_valid_piece(p) ==> #[trigger] self.psq[p][s]
                        == old_psq[p][s],
            decreases 8 - f,
        {
            let k = rng.rand();
            self.en_passant[f] = k;
            f = f + 1;
        }
        let mut c: usize = 0;
        while c < 16
            invariant
                c <= 16,
                rng@ == state_after(ZOBRIST_SEED, (776 + c) as nat),
                forall|d: int| 0 <= d < c ==> #[trigger] self.castling[d] == zobrist_rand(776 + d),
                forall|g: int| 0 <= g < 8 ==> #[trigger] self.en_passant[g] == zobrist_rand(768 + g),
                forall|i: int, s: int|
                    0 <= i < 12 && 0 <= s < 64 ==> #[trigger] self.psq[valid_piece(i)][s]
                        == zobrist_rand(64 * i + s),
                forall|p: int, s: int|
                    0 <= p < 16 && 0 <= s < 64 && !is_valid_piece(p) ==> #[trigger] self.psq[p][s]
                        == old_psq[p][s],
            decreases 16 - c,
        {
            let k = rng.rand();
            self.castling[c] = k;
            c = c + 1;
        }
        self.side = rng.rand();
        self.no_pawns = rng.rand();
    }
}

} // verus!
