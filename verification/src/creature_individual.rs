//! The genome adapter: a network-backed agent seen as an individual.

use vstd::prelude::*;

use crate::chromosome::Chromosome;
use crate::fixed::Real;
use crate::individual::Individual;
use crate::network::{flat_encoding, wf_network, Network};

verus! {

/// An agent's accrued fitness paired with its brain's flat weights, in
/// the form the genetic algorithm consumes.
#[derive(Clone, Debug)]
pub struct CreatureIndividual {
    pub fitness: Real,
    pub chromosome: Chromosome,
}

impl CreatureIndividual {
    /// Snapshot an agent: its score, and its network flattened into the
    /// canonical weight order.
    pub fn from_creature(brain: &Network, fitness: Real) -> (r: CreatureIndividual)
        requires
            wf_network(brain@),
        ensures
            r.fitness_spec() == fitness,
            flat_encoding(brain@, r.chromosome_spec()),
            r.chromosome_spec().len() == crate::network::weight_count(brain.layers@),
    {
        CreatureIndividual { fitness, chromosome: Chromosome::from_genes(brain.weights()) }
    }
}

impl Individual for CreatureIndividual {
    open spec fn fitness_spec(&self) -> Real {
        self.fitness
    }

    open spec fn chromosome_spec(&self) -> Seq<Real> {
        self.chromosome@
    }

    fn fitness(&self) -> (r: Real)
        ensures
            r == self.fitness_spec(),
    {
        self.fitness
    }

    fn chromosome(&self) -> (r: &Chromosome)
        ensures
            r@ == self.chromosome_spec(),
    {
        &self.chromosome
    }

    /// A fresh agent snapshot starts with no accrued fitness.
    fn create(chromosome: Chromosome) -> (r: CreatureIndividual)
        ensures
            r.chromosome_spec() == chromosome@,
            r.fitness_spec().bits == 0,
    {
        CreatureIndividual { fitness: Real::zero(), chromosome }
    }
}

} // verus!
