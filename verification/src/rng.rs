//! The xorshift64star pseudo-random number generator (Sebastiano Vigna, 2014):
//! 64-bit outputs, a single 64-bit word of state, period 2^64 - 1.

use vstd::prelude::*;

verus! {

/// The multiplier applied to the state to form each output.
pub const RNG_MULTIPLIER: u64 = 2685821657736338717;

/// One step of the xorshift state transition.
pub open spec fn xorshift(s: u64) -> u64 {
    let a = s ^ (s >> 12u64);
    let b = a ^ ((a << 25u64) as u64);
    b ^ (b >> 27u64)
}

/// The state after `k` steps from `seed`.
pub open spec fn state_after(seed: u64, k: nat) -> u64
    decreases k,
{
    if k == 0 {
        seed
    } else {
        xorshift(state_after(seed, (k - 1) as nat))
    }
}

/// The output drawn from state `s`: the next state times the multiplier, modulo 2^64.
pub open spec fn output_of(s: u64) -> u64 {
    ((xorshift(s) as int * RNG_MULTIPLIER as int) % 0x1_0000_0000_0000_0000) as u64
}

/// The `k`-th output (counting from 0) of a generator seeded with `seed`.
pub open spec fn nth_output(seed: u64, k: nat) -> u64 {
    output_of(state_after(seed, k))
}

/// The generator; its state is the seed word.
pub struct Prng {
    seed: u64,
}

impl View for Prng {
    type V = u64;

    /// The current state word.
    closed spec fn view(&self) -> u64 {
        self.seed
    }
}

impl Prng {
    /// A generator whose state is `seed`.
    pub fn new(seed: u64) -> (r: Prng)
        ensures
            r@ == seed,
    {
        Prng { seed }
    }

    fn rand64(&mut self) -> (r: u64)
        ensures
            final(self)@ == xorshift(old(self)@),
            r == output_of(old(self)@),
    {
        let s0 = self.seed;
        let s1 = s0 ^ (s0 >> 12u64);
        let s2 = s1 ^ (s1 << 25u64);
        let s3 = s2 ^ (s2 >> 27u64);
        self.seed = s3;
        s3.wrapping_mul(RNG_MULTIPLIER)
    }

    fn sparse_rand64(&mut self) -> (r: u64)
        ensures
            final(self)@ == xorshift(xorshift(xorshift(old(self)@))),
            r == output_of(old(self)@) & output_of(xorshift(old(self)@))
                & output_of(xorshift(xorshift(old(self)@))),
    {
        let a = self.rand64();
        let b = self.rand64();
        let c = self.rand64();
        a & b & c
    }

    /// The next output; the state advances by one step.
    pub fn rand(&mut self) -> (r: u64)
        ensures
            final(self)@ == xorshift(old(self)@),
            r == output_of(old(self)@),
    {
        self.rand64()
    }

    /// The bitwise and of the next three outputs, a number with few bits set;
    /// the state advances by three steps.
    pub fn sparse_rand(&mut self) -> (r: u64)
        ensures
            final(self)@ == xorshift(xorshift(xorshift(old(self)@))),
            r == output_of(old(self)@) & output_of(xorshift(old(self)@))
                & output_of(xorshift(xorshift(old(self)@))),
    {
        self.sparse_rand64()
    }
}

} // verus!
