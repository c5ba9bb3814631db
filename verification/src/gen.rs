//! The deterministic 64-bit generator at the bottom of the random stack.
//!
//! One mixing step adds a fixed odd constant to the state, multiplies the
//! new state by an XORed copy of itself in 128 bits, and folds the high
//! and low halves of the product together with XOR. The whole stream is a
//! pure function of the seed, which the contracts state exactly.

use vstd::prelude::*;

verus! {

/// The odd constant added to the state at each mixing step.
pub const STATE_INCREMENT: u64 = 0xa0761d6478bd642f;

/// The constant XORed into the new state before the widening multiply.
pub const OUTPUT_XOR: u64 = 0xe7037ed1a0b428db;

/// The state a generator holds right after seeding.
pub open spec fn wy_seed(seed: u64) -> u64 {
    (seed << 1) | 1
}

/// The state after one mixing step.
pub open spec fn wy_step(s: u64) -> u64 {
    vstd::wrapping::u64_specs::wrapping_add(s, STATE_INCREMENT)
}

/// The word one mixing step puts out of state `s`.
pub open spec fn wy_out(s: u64) -> u64 {
    let ns = wy_step(s);
    let t = vstd::wrapping::u128_specs::wrapping_mul(ns as u128, (ns ^ OUTPUT_XOR) as u128);
    ((t >> 64) ^ t) as u64
}

/// The state after `n` further mixing steps from state `s`.
pub open spec fn wy_step_n(s: u64, n: nat) -> u64
    decreases n,
{
    if n == 0 {
        s
    } else {
        wy_step(wy_step_n(s, (n - 1) as nat))
    }
}

/// Stepping `m` times and then `n` more is stepping `m + n` times.
pub proof fn lemma_wy_step_n_add(s: u64, m: nat, n: nat)
    ensures
        wy_step_n(s, m + n) == wy_step_n(wy_step_n(s, m), n),
    decreases n,
{
    if n > 0 {
        lemma_wy_step_n_add(s, m, (n - 1) as nat);
    }
}

/// The state after `n` mixing steps from a fresh seed.
pub open spec fn wy_state_at(seed: u64, n: nat) -> u64 {
    wy_step_n(wy_seed(seed), n)
}

/// The `n`-th word (counting from zero) of the stream grown from `seed`.
pub open spec fn wy_output_at(seed: u64, n: nat) -> u64 {
    wy_out(wy_state_at(seed, n))
}

/// A deterministic pseudo-random generator with one 64-bit word of state.
#[derive(Clone, Copy, Debug)]
pub struct WyRand {
    pub state: u64,
}

impl WyRand {
    /// Seed deterministically: an identical seed gives an identical stream.
    pub fn with_seed(seed: u64) -> (r: WyRand)
        ensures
            r.state == wy_seed(seed),
            r.state % 2 == 1,
    {
        proof {
            assert(((seed << 1) | 1) % 2 == 1) by (bit_vector);
        }
        WyRand { state: (seed << 1) | 1 }
    }

    /// Replace the state as if freshly seeded.
    pub fn reseed(&mut self, seed: u64)
        ensures
            final(self).state == wy_seed(seed),
    {
        self.state = (seed << 1) | 1;
    }

    /// One mixing step: advance the state and return the next word.
    pub fn rand(&mut self) -> (r: u64)
        ensures
            final(self).state == wy_step(old(self).state),
            r == wy_out(old(self).state),
    {
        let state = self.state.wrapping_add(STATE_INCREMENT);
        self.state = state;
        let t: u128 = (state as u128).wrapping_mul((state ^ OUTPUT_XOR) as u128);
        ((t >> 64) ^ t) as u64
    }
}

impl Default for WyRand {
    /// An unseeded generator starts from seed zero.
    fn default() -> (r: WyRand)
        ensures
            r.state == wy_seed(0),
    {
        WyRand::with_seed(0)
    }
}

/// Determinism: any two output sequences drawn word by word from the
/// same seed are identical, whatever run or process drew them — every
/// word is the pure function `wy_output_at` of the seed and its place.
pub proof fn lemma_equal_seeds_equal_streams(seed: u64, a: Seq<u64>, b: Seq<u64>)
    requires
        a.len() == b.len(),
        forall|i: int| 0 <= i < a.len() ==> a[i] == wy_output_at(seed, i as nat),
        forall|i: int| 0 <= i < b.len() ==> b[i] == wy_output_at(seed, i as nat),
    ensures
        a == b,
{
    assert(a =~= b);
}

/// Seeding is deterministic: the `n`-th word of the stream is a pure
/// function of the seed, so two runs given the same seed see the same
/// words in the same order, whatever machine or process draws them.
pub fn seeded_stream(seed: u64, n: usize) -> (r: Vec<u64>)
    ensures
        r@.len() == n,
        forall|i: int| 0 <= i < n ==> r@[i] == wy_output_at(seed, i as nat),
{
    let mut rng = WyRand::with_seed(seed);
    let mut out: Vec<u64> = Vec::new();
    let mut k: usize = 0;
    while k < n
        invariant
            k <= n,
            out@.len() == k,
            rng.state == wy_state_at(seed, k as nat),
            forall|i: int| 0 <= i < k ==> out@[i] == wy_output_at(seed, i as nat),
        decreases n - k,
    {
        let w = rng.rand();
        out.push(w);
        k = k + 1;
    }
    out
}

} // verus!
