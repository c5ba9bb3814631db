//! The capability an evolvable agent offers the genetic algorithm.

use vstd::prelude::*;

use crate::chromosome::Chromosome;
use crate::fixed::{r_add, Real};

verus! {

/// The saturating sum of the first `k` genes.
pub open spec fn genes_total(genes: Seq<Real>, k: int) -> Real
    decreases k,
{
    if k <= 0 {
        Real { bits: 0 }
    } else {
        r_add(genes_total(genes, k - 1), genes[k - 1])
    }
}

/// Anything the genetic algorithm can evolve: it scores itself, exposes
/// its chromosome, and can be rebuilt around a new one.
pub trait Individual: Sized {
    /// The fitness this individual reports.
    spec fn fitness_spec(&self) -> Real;

    /// The genes this individual carries.
    spec fn chromosome_spec(&self) -> Seq<Real>;

    /// The fitness score; zero or more for a population under selection.
    fn fitness(&self) -> (r: Real)
        ensures
            r == self.fitness_spec(),
    ;

    /// The chromosome, borrowed.
    fn chromosome(&self) -> (r: &Chromosome)
        ensures
            r@ == self.chromosome_spec(),
    ;

    /// A fresh individual wrapped around the given chromosome.
    fn create(chromosome: Chromosome) -> (r: Self)
        ensures
            r.chromosome_spec() == chromosome@,
    ;
}

/// A bare individual for exercising the algorithm: either a chromosome
/// whose fitness is the sum of its genes, or a fixed fitness with no
/// genes of interest.
#[derive(Clone, Debug, PartialEq)]
pub struct TestIndividual {
    chromosome: Chromosome,
    fixed_fitness: Option<Real>,
}

impl TestIndividual {
    /// An individual with the given fitness and an empty chromosome.
    pub fn new(fitness: Real) -> (r: TestIndividual)
        ensures
            r.fitness_spec() == fitness,
            r.chromosome_spec() == Seq::<Real>::empty(),
    {
        let r = TestIndividual {
            chromosome: Chromosome::from_genes(Vec::new()),
            fixed_fitness: Some(fitness),
        };
        proof {
            assert(r.chromosome_spec() =~= Seq::<Real>::empty());
        }
        r
    }
}

impl Individual for TestIndividual {
    closed spec fn fitness_spec(&self) -> Real {
        match self.fixed_fitness {
            Some(f) => f,
            None => genes_total(self.chromosome@, self.chromosome@.len() as int),
        }
    }

    closed spec fn chromosome_spec(&self) -> Seq<Real> {
        self.chromosome@
    }

    fn fitness(&self) -> (r: Real)
        ensures
            r == self.fitness_spec(),
    {
        match self.fixed_fitness {
            Some(f) => f,
            None => {
                let mut sum = Real::zero();
                let mut k: usize = 0;
                let n = self.chromosome.len();
                while k < n
                    invariant
                        k <= n,
                        n == self.chromosome@.len(),
                        sum == genes_total(self.chromosome@, k as int),
                    decreases n - k,
                {
                    sum = sum.plus(self.chromosome.gene(k));
                    k = k + 1;
                }
                sum
            },
        }
    }

    fn chromosome(&self) -> (r: &Chromosome)
        ensures
            r@ == self.chromosome_spec(),
    {
        &self.chromosome
    }

    fn create(chromosome: Chromosome) -> (r: TestIndividual)
        ensures
            r.chromosome_spec() == chromosome@,
            r.fitness_spec() == genes_total(chromosome@, chromosome@.len() as int),
    {
        TestIndividual { chromosome, fixed_fitness: None }
    }
}

} // verus!
