//! Derived pseudo-random distributions over the deterministic generator.
//!
//! Every draw consumes whole words of the underlying stream, so the
//! contracts can say exactly which word each result is a function of.
//! Fractions come out as fixed-point [`Real`] values.

use vstd::prelude::*;
use vstd::arithmetic::div_mod::{lemma_div_pos_is_pos, lemma_mod_sub_multiples_vanish, lemma_multiply_divide_lt};
use vstd::arithmetic::mul::{lemma_mul_strict_inequality, lemma_mul_upper_bound};
use vstd::arithmetic::power2::lemma2_to64;
use vstd::bits::lemma_u128_shr_is_div;

use crate::entropy::generate_entropy;
use crate::fixed::{Real, UNIT};
use crate::gen::{wy_out, wy_step, wy_seed, WyRand};

verus! {

/// The fraction `d / 2^32` of one whole, truncated to millionths; it
/// stays strictly below one whole even at the maximal draw.
pub open spec fn unit_fraction(d: u32) -> Real {
    Real { bits: (d * (UNIT as int) / 0x1_0000_0000int) as i64 }
}

/// `unit_fraction` doubled and shifted onto `[-1, 1)`.
pub open spec fn normalised_fraction(d: u32) -> Real {
    Real { bits: (2 * (unit_fraction(d).bits as int) - UNIT) as i64 }
}

/// The word count a probability scales to: `rate` of the full 64-bit range.
pub open spec fn chance_threshold(rate: Real) -> int {
    rate.bits * 0x1_0000_0000_0000_0000 / (UNIT as int)
}

proof fn lemma_unit_fraction_bounds(d: u32)
    ensures
        0 <= unit_fraction(d).bits < UNIT,
        -UNIT <= normalised_fraction(d).bits < UNIT,
{
    let num = d * (UNIT as int);
    assert(0 <= num < 0x1_0000_0000int * (UNIT as int));
    lemma_multiply_divide_lt(num, 0x1_0000_0000int, UNIT as int);
    lemma_div_pos_is_pos(num, 0x1_0000_0000int);
}

/// The count of words, out of `2^64`, that do not divide evenly into
/// `upper` ranges: a candidate whose widened product has a low half
/// below it would be biased, and is redrawn.
pub open spec fn reject_threshold(upper: int) -> int {
    0x1_0000_0000_0000_0000int % upper
}

/// The index the debiasing draw settles on from state `s`, paired with
/// the state left behind: candidates are drawn and widened by `upper`
/// until one clears the rejection threshold or the redraws are spent,
/// and the product's high half is the index.
pub open spec fn index_result(s: u64, upper: int, redraws: int) -> (int, u64)
    recommends
        1 <= upper,
    decreases (if redraws > 0 { redraws } else { 0 }),
{
    let m = upper * (wy_out(s) as int);
    let stepped = wy_step(s);
    if m % 0x1_0000_0000_0000_0000int >= reject_threshold(upper) || redraws <= 0 {
        (m / 0x1_0000_0000_0000_0000int, stepped)
    } else {
        index_result(stepped, upper, redraws - 1)
    }
}

/// A pseudo-random source: one deterministic generator plus the derived
/// distributions the evolutionary machinery draws from.
#[derive(Clone, Copy, Debug)]
pub struct PetriRand {
    pub rng: WyRand,
}

impl PetriRand {
    /// Seed from the clock; two uncoordinated constructions almost surely
    /// differ, and the state is odd either way.
    pub fn new() -> (r: PetriRand)
        ensures
            r.rng.state % 2 == 1,
    {
        PetriRand { rng: WyRand::with_seed(generate_entropy()) }
    }

    /// Deterministic construction: an identical seed gives an identical
    /// output sequence, forever, across processes.
    pub fn with_seed(seed: u64) -> (r: PetriRand)
        ensures
            r.rng.state == wy_seed(seed),
    {
        PetriRand { rng: WyRand::with_seed(seed) }
    }

    /// Replace the state as if freshly seeded.
    pub fn reseed(&mut self, seed: u64)
        ensures
            final(self).rng.state == wy_seed(seed),
    {
        self.rng.reseed(seed);
    }

    /// The next raw 64-bit word.
    pub fn get_u64(&mut self) -> (r: u64)
        ensures
            final(self).rng.state == wy_step(old(self).rng.state),
            r == wy_out(old(self).rng.state),
    {
        self.rng.rand()
    }

    /// The low 32 bits of the next word.
    pub fn get_u32(&mut self) -> (r: u32)
        ensures
            final(self).rng.state == wy_step(old(self).rng.state),
            r == wy_out(old(self).rng.state) as u32,
    {
        let w = self.get_u64();
        proof {
            assert(w & 0xFFFF_FFFF == w as u32) by (bit_vector);
        }
        (w & 0xFFFF_FFFF) as u32
    }

    /// A uniformly distributed fraction of one whole, in `[0, 1)`.
    pub fn get_real(&mut self) -> (r: Real)
        ensures
            final(self).rng.state == wy_step(old(self).rng.state),
            r == unit_fraction(wy_out(old(self).rng.state) as u32),
            0 <= r.bits < UNIT,
    {
        let d = self.get_u32();
        let num: u128 = (d as u128) * (UNIT as u128);
        let q: u128 = num / 0x1_0000_0000u128;
        proof {
            lemma_unit_fraction_bounds(d);
        }
        Real { bits: q as i64 }
    }

    /// A uniformly distributed fraction of one whole, in `[-1, 1)`.
    pub fn get_real_normalised(&mut self) -> (r: Real)
        ensures
            final(self).rng.state == wy_step(old(self).rng.state),
            r == normalised_fraction(wy_out(old(self).rng.state) as u32),
            -UNIT <= r.bits < UNIT,
    {
        let ghost d = wy_out(self.rng.state) as u32;
        let u = self.get_real();
        proof {
            lemma_unit_fraction_bounds(d);
        }
        Real { bits: 2 * u.bits - UNIT }
    }

    /// A fair boolean: the parity of the next word's lowest byte.
    pub fn bool(&mut self) -> (r: bool)
        ensures
            final(self).rng.state == wy_step(old(self).rng.state),
            r == (wy_out(old(self).rng.state) % 2 == 0),
    {
        let w = self.get_u64();
        proof {
            assert((w & 1 == 0) == (w % 2 == 0)) by (bit_vector);
        }
        w & 1 == 0
    }

    /// An unbiased index below `upper`: a candidate word is widened by the
    /// range in 128-bit arithmetic and redrawn while the product's low
    /// half falls under the range's modular remainder threshold; the high
    /// half is the index. A zero-width range is a caller error. Each
    /// redraw happens with probability below one half, so the redraw
    /// budget of 128 is never exhausted in practice; if it ever were, the
    /// last candidate would be accepted.
    pub fn index(&mut self, upper: usize) -> (r: usize)
        requires
            1 <= upper,
        ensures
            r < upper,
            upper == 1 ==> r == 0,
            ({
                let picked = index_result(old(self).rng.state, upper as int, 128);
                r as int == picked.0 && final(self).rng.state == picked.1
            }),
    {
        let upper64: u64 = upper as u64;
        let ghost mut pre = self.rng.state;
        let mut value: u64 = self.get_u64();
        proof {
            lemma_mul_upper_bound(upper64 as int, upper64 as int, value as int, u64::MAX as int);
        }
        let mut m: u128 = (upper64 as u128) * (value as u128);
        if (m as u64) < upper64 {
            let t: u64 = (u64::MAX - upper64 + 1) % upper64;
            proof {
                lemma_mod_sub_multiples_vanish(0x1_0000_0000_0000_0000int, upper64 as int);
            }
            let mut budget: usize = 128;
            while (m as u64) < t && budget > 0
                invariant
                    1 <= upper64,
                    m <= (upper64 as int) * (u64::MAX as int),
                    m as int == upper64 * (wy_out(pre) as int),
                    self.rng.state == wy_step(pre),
                    t as int == reject_threshold(upper64 as int),
                    index_result(old(self).rng.state, upper64 as int, 128) == index_result(
                        pre,
                        upper64 as int,
                        budget as int,
                    ),
                    budget <= 128,
                decreases budget,
            {
                proof {
                    assert((m as u64) as u128 == m % 0x1_0000_0000_0000_0000u128)
                        by (bit_vector);
                    pre = self.rng.state;
                }
                value = self.get_u64();
                proof {
                    lemma_mul_upper_bound(
                        upper64 as int,
                        upper64 as int,
                        value as int,
                        u64::MAX as int,
                    );
                }
                m = (upper64 as u128) * (value as u128);
                budget = budget - 1;
            }
            proof {
                assert((m as u64) as u128 == m % 0x1_0000_0000_0000_0000u128) by (bit_vector);
                assert(index_result(pre, upper64 as int, budget as int) == (
                    m as int / 0x1_0000_0000_0000_0000int,
                    wy_step(pre),
                ));
            }
        } else {
            proof {
                assert((m as u64) as u128 == m % 0x1_0000_0000_0000_0000u128) by (bit_vector);
                assert(index_result(pre, upper64 as int, 128) == (
                    m as int / 0x1_0000_0000_0000_0000int,
                    wy_step(pre),
                ));
            }
        }
        proof {
            lemma2_to64();
            lemma_u128_shr_is_div(m, 64);
            lemma_mul_strict_inequality(
                u64::MAX as int,
                0x1_0000_0000_0000_0000,
                upper64 as int,
            );
            lemma_multiply_divide_lt(m as int, 0x1_0000_0000_0000_0000, upper64 as int);
        }
        let hi: u64 = (m >> 64u64) as u64;
        hi as usize
    }

    /// True with probability `rate`: the next word is compared against
    /// `rate` scaled to the full 64-bit range. A rate of one whole is
    /// answered true outright, without drawing.
    pub fn chance(&mut self, rate: Real) -> (r: bool)
        requires
            0 <= rate.bits <= UNIT,
        ensures
            rate.bits == UNIT ==> r == true && *final(self) == *old(self),
            rate.bits < UNIT ==> final(self).rng.state == wy_step(old(self).rng.state) && (r
                <==> (wy_out(old(self).rng.state) as int) < chance_threshold(rate)),
            rate.bits == 0 ==> r == false,
    {
        if rate.bits == UNIT {
            return true;
        }
        let num: u128 = (rate.bits as u128) * 0x1_0000_0000_0000_0000u128;
        let t: u128 = num / 1_000_000u128;
        proof {
            lemma_multiply_divide_lt(num as int, 0x1_0000_0000_0000_0000, UNIT as int);
        }
        let draw = self.get_u64();
        draw < (t as u64)
    }

    /// A uniformly drawn element, or nothing from an empty list; a list of
    /// one element is returned without drawing.
    pub fn sample<'a, T>(&mut self, list: &'a [T]) -> (r: Option<&'a T>)
        ensures
            (r is None) <==> list@.len() == 0,
            r matches Some(x) ==> list@.contains(*x),
            list@.len() == 1 ==> (r matches Some(x) && *x == list@[0]),
            list@.len() <= 1 ==> *final(self) == *old(self),
            list@.len() > 1 ==> ({
                let picked = index_result(old(self).rng.state, list@.len() as int, 128);
                r matches Some(x) && *x == list@[picked.0] && final(self).rng.state == picked.1
            }),
    {
        if list.len() == 0 {
            None
        } else if list.len() == 1 {
            Some(&list[0])
        } else {
            let i = self.index(list.len());
            proof {
                assert(list@.contains(list@[i as int]));
            }
            Some(&list[i])
        }
    }
}

impl Default for PetriRand {
    /// An unseeded source starts from seed zero.
    fn default() -> (r: PetriRand)
        ensures
            r.rng.state == wy_seed(0),
    {
        PetriRand::with_seed(0)
    }
}

} // verus!
