//! Mutation: perturbing a child chromosome gene by gene.

use vstd::prelude::*;

use crate::chromosome::Chromosome;
use crate::fixed::{r_add, r_mul, r_sub, Real, UNIT};
use crate::gen::{wy_out, wy_step};
use crate::rng::{chance_threshold, unit_fraction, PetriRand};

verus! {

/// The genes after Gaussian-style mutation of the first `k`, paired
/// with the generator state left behind. Gene by gene: a chance draw
/// decides whether to touch it (a full chance draws nothing), then a
/// parity draw picks the sign and a fraction draw the magnitude below
/// `coeff`.
pub open spec fn mutated_genes(
    chance: Real,
    coeff: Real,
    s: u64,
    genes: Seq<Real>,
    k: int,
) -> (Seq<Real>, u64)
    decreases k,
{
    if k <= 0 {
        (genes, s)
    } else {
        let (prev, st) = mutated_genes(chance, coeff, s, genes, k - 1);
        let fire = chance.bits == UNIT || (wy_out(st) as int) < chance_threshold(chance);
        let st1 = if chance.bits == UNIT {
            st
        } else {
            wy_step(st)
        };
        if fire {
            let negative = wy_out(st1) % 2 == 0;
            let st2 = wy_step(st1);
            let magnitude = r_mul(coeff, unit_fraction(wy_out(st2) as u32));
            let st3 = wy_step(st2);
            let touched = if negative {
                r_sub(prev[k - 1], magnitude)
            } else {
                r_add(prev[k - 1], magnitude)
            };
            (prev.update(k - 1, touched), st3)
        } else {
            (prev, st1)
        }
    }
}

/// A mutation strategy. The child keeps its length; a strategy that
/// declares itself an identity hands the genes back unchanged. Which
/// genes move, and the state the generator is left in, is exactly the
/// strategy's own spec function of the starting state.
pub trait MutationMethod: Sized {
    /// True when this strategy never alters a gene.
    spec fn is_identity(&self) -> bool;

    /// The genes a given generator state leads this strategy to produce,
    /// paired with the state left behind.
    spec fn mutation_spec(&self, s: u64, genes: Seq<Real>) -> (Seq<Real>, u64);

    fn mutate(&self, rng: &mut PetriRand, child: Chromosome) -> (r: Chromosome)
        ensures
            r@.len() == child@.len(),
            self.is_identity() ==> r@ == child@,
            ({
                let moved = self.mutation_spec(old(rng).rng.state, child@);
                r@ == moved.0 && final(rng).rng.state == moved.1
            }),
    ;
}

/// Gaussian-style mutation: each gene is touched independently with
/// probability `chance`, and a touched gene moves by a magnitude drawn
/// uniformly below `coeff`, with an independently drawn sign.
#[derive(Clone, Copy, Debug)]
pub struct GaussianMutation {
    chance: Real,
    coeff: Real,
}

impl GaussianMutation {
    /// The probability of touching a gene must be a probability.
    #[verifier::type_invariant]
    pub closed spec fn wf(&self) -> bool {
        0 <= self.chance.bits <= UNIT
    }

    /// The probability of touching a gene.
    pub closed spec fn chance_spec(&self) -> Real {
        self.chance
    }

    /// The largest magnitude a touched gene can move by.
    pub closed spec fn coeff_spec(&self) -> Real {
        self.coeff
    }

    /// Fix the chance of touching a gene (a probability) and the
    /// magnitude bound of a touch.
    pub fn new(chance: Real, coeff: Real) -> (r: GaussianMutation)
        requires
            0 <= chance.bits <= UNIT,
        ensures
            r.chance_spec() == chance,
            r.coeff_spec() == coeff,
    {
        GaussianMutation { chance, coeff }
    }
}

impl MutationMethod for GaussianMutation {
    /// A zero chance touches no gene, whatever the coefficient.
    open spec fn is_identity(&self) -> bool {
        self.chance_spec().bits == 0
    }

    /// Gene by gene: a chance draw, then a sign and a magnitude.
    open spec fn mutation_spec(&self, s: u64, genes: Seq<Real>) -> (Seq<Real>, u64) {
        mutated_genes(self.chance_spec(), self.coeff_spec(), s, genes, genes.len() as int)
    }

    fn mutate(&self, rng: &mut PetriRand, child: Chromosome) -> (r: Chromosome)
        ensures
            r@.len() == child@.len(),
            self.is_identity() ==> r@ == child@,
            (r@, final(rng).rng.state) == mutated_genes(
                self.chance_spec(),
                self.coeff_spec(),
                old(rng).rng.state,
                child@,
                child@.len() as int,
            ),
    {
        proof {
            use_type_invariant(&*self);
        }
        let ghost s0 = rng.rng.state;
        let ghost genes0 = child@;
        let mut out = child;
        let len = out.len();
        let mut i: usize = 0;
        while i < len
            invariant
                i <= len,
                len == out@.len(),
                out@.len() == genes0.len(),
                0 <= self.chance.bits <= UNIT,
                (out@, rng.rng.state) == mutated_genes(
                    self.chance,
                    self.coeff,
                    s0,
                    genes0,
                    i as int,
                ),
                forall|j: int| i <= j < len ==> out@[j] == genes0[j],
                self.chance.bits == 0 ==> forall|j: int| 0 <= j < i ==> out@[j] == genes0[j],
            decreases len - i,
        {
            if rng.chance(self.chance) {
                let negative = rng.bool();
                let magnitude = self.coeff.times(rng.get_real());
                let gene = out.gene(i);
                let moved = if negative {
                    gene.minus(magnitude)
                } else {
                    gene.plus(magnitude)
                };
                out.set_gene(i, moved);
            }
            i = i + 1;
        }
        proof {
            if self.chance.bits == 0 {
                assert(out@ =~= genes0);
            }
        }
        out
    }
}

} // verus!
