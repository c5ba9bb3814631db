//! Crossover: mixing two parent chromosomes into one child.

use vstd::prelude::*;

use crate::chromosome::Chromosome;
use crate::fixed::Real;
use crate::gen::{wy_out, wy_step, wy_step_n};
use crate::rng::PetriRand;

verus! {

/// The child uniform crossover breeds: gene by gene, the parity of the
/// next generator word picks which parent the gene comes from.
pub open spec fn crossed_genes(s: u64, a: Seq<Real>, b: Seq<Real>, k: int) -> Seq<Real>
    decreases k,
{
    if k <= 0 {
        Seq::empty()
    } else {
        crossed_genes(s, a, b, k - 1).push(
            if wy_out(wy_step_n(s, (k - 1) as nat)) % 2 == 0 {
                a[k - 1]
            } else {
                b[k - 1]
            },
        )
    }
}

/// A crossover strategy. Parents must have equal length; the child has
/// that length too, and every child gene comes from the same position of
/// one of the two parents — no novel values appear. Which genes, and the
/// state the generator is left in, is exactly the strategy's own spec
/// function of the starting state.
pub trait CrossoverMethod: Sized {
    /// The child a given generator state leads this strategy to breed,
    /// paired with the state left behind.
    spec fn crossover_spec(&self, s: u64, a: Seq<Real>, b: Seq<Real>) -> (Seq<Real>, u64);

    fn crossover(
        &self,
        rng: &mut PetriRand,
        parent_a: &Chromosome,
        parent_b: &Chromosome,
    ) -> (r: Chromosome)
        requires
            parent_a@.len() == parent_b@.len(),
        ensures
            r@.len() == parent_a@.len(),
            forall|i: int|
                0 <= i < r@.len() ==> #[trigger] r@[i] == parent_a@[i] || r@[i] == parent_b@[i],
            ({
                let bred = self.crossover_spec(old(rng).rng.state, parent_a@, parent_b@);
                r@ == bred.0 && final(rng).rng.state == bred.1
            }),
    ;
}

/// Uniform crossover: for every gene index independently, a fair coin
/// decides which parent the gene comes from.
#[derive(Clone, Debug)]
pub struct UniformCrossover;

impl UniformCrossover {
    /// The strategy carries no state.
    pub fn new() -> (r: UniformCrossover) {
        UniformCrossover
    }
}

impl Default for UniformCrossover {
    fn default() -> (r: UniformCrossover) {
        UniformCrossover::new()
    }
}

impl CrossoverMethod for UniformCrossover {
    /// Gene by gene, the parity of the next word picks the parent.
    open spec fn crossover_spec(&self, s: u64, a: Seq<Real>, b: Seq<Real>) -> (Seq<Real>, u64) {
        (crossed_genes(s, a, b, a.len() as int), wy_step_n(s, a.len() as nat))
    }

    fn crossover(
        &self,
        rng: &mut PetriRand,
        parent_a: &Chromosome,
        parent_b: &Chromosome,
    ) -> (r: Chromosome)
        ensures
            r@.len() == parent_a@.len(),
            forall|i: int|
                0 <= i < r@.len() ==> #[trigger] r@[i] == parent_a@[i] || r@[i] == parent_b@[i],
            r@ == crossed_genes(
                old(rng).rng.state,
                parent_a@,
                parent_b@,
                parent_a@.len() as int,
            ),
            final(rng).rng.state == wy_step_n(old(rng).rng.state, parent_a@.len() as nat),
    {
        let ghost s0 = rng.rng.state;
        let len = parent_a.len();
        let mut genes: Vec<Real> = Vec::new();
        let mut i: usize = 0;
        while i < len
            invariant
                i <= len,
                len == parent_a@.len(),
                parent_a@.len() == parent_b@.len(),
                genes@.len() == i,
                rng.rng.state == wy_step_n(s0, i as nat),
                genes@ == crossed_genes(s0, parent_a@, parent_b@, i as int),
                forall|j: int|
                    0 <= j < i ==> #[trigger] genes@[j] == parent_a@[j] || genes@[j]
                        == parent_b@[j],
            decreases len - i,
        {
            proof {
                assert(wy_step_n(s0, (i + 1) as nat) == wy_step(wy_step_n(s0, i as nat)));
            }
            if rng.bool() {
                genes.push(parent_a.gene(i));
            } else {
                genes.push(parent_b.gene(i));
            }
            i = i + 1;
        }
        Chromosome::from_genes(genes)
    }
}

} // verus!
