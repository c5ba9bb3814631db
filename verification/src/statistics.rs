//! Per-generation fitness statistics, computed in one streaming pass.

use vstd::prelude::*;

use crate::fixed::{r_add, r_div, Real, UNIT};
use crate::individual::Individual;

verus! {

/// The smaller of two values.
pub open spec fn min_r(a: Real, b: Real) -> Real {
    if a.bits <= b.bits {
        a
    } else {
        b
    }
}

/// The larger of two values.
pub open spec fn max_r(a: Real, b: Real) -> Real {
    if a.bits >= b.bits {
        a
    } else {
        b
    }
}

/// The fitness of each member, in population order.
pub open spec fn fitness_seq<I: Individual>(population: Seq<I>) -> Seq<Real> {
    Seq::new(population.len(), |i: int| population[i].fitness_spec())
}

/// One streaming pass over per-generation fitness samples.
#[derive(Clone, Copy, Debug, PartialEq, Eq, Structural)]
pub struct StatisticsBuilder {
    pub min_fitness: Real,
    pub max_fitness: Real,
    pub sum_fitness: Real,
    pub total_samples: Real,
}

/// A builder before any sample: the minimum starts at the largest value,
/// the maximum at zero.
pub open spec fn builder_empty() -> StatisticsBuilder {
    StatisticsBuilder {
        min_fitness: Real { bits: i64::MAX },
        max_fitness: Real { bits: 0 },
        sum_fitness: Real { bits: 0 },
        total_samples: Real { bits: 0 },
    }
}

/// A builder after absorbing one more fitness sample.
pub open spec fn builder_step(b: StatisticsBuilder, fitness: Real) -> StatisticsBuilder {
    StatisticsBuilder {
        min_fitness: min_r(b.min_fitness, fitness),
        max_fitness: max_r(b.max_fitness, fitness),
        sum_fitness: r_add(b.sum_fitness, fitness),
        total_samples: r_add(b.total_samples, Real { bits: UNIT }),
    }
}

/// A builder after absorbing the first `k` samples of a sequence.
pub open spec fn builder_after(fitnesses: Seq<Real>, k: int) -> StatisticsBuilder
    decreases k,
{
    if k <= 0 {
        builder_empty()
    } else {
        builder_step(builder_after(fitnesses, k - 1), fitnesses[k - 1])
    }
}

/// The statistics a finished builder yields; the average divides the sum
/// by the sample count.
pub open spec fn builder_finish(b: StatisticsBuilder) -> Statistics {
    Statistics {
        min_fitness: b.min_fitness,
        max_fitness: b.max_fitness,
        total_fitness: b.sum_fitness,
        avg_fitness: r_div(b.sum_fitness, b.total_samples),
    }
}

/// After at least one sample the count is positive, whatever the
/// samples were.
pub proof fn lemma_builder_counts(fitnesses: Seq<Real>, k: int)
    ensures
        0 <= builder_after(fitnesses, k).total_samples.bits,
        k >= 1 ==> builder_after(fitnesses, k).total_samples.bits > 0,
    decreases (if k > 0 { k } else { 0 }),
{
    if k > 0 {
        lemma_builder_counts(fitnesses, k - 1);
    }
}

/// After at least one sample the count is positive, and the running sum
/// of nonnegative samples is nonnegative and bounds each of them.
pub proof fn lemma_builder_bounds(fitnesses: Seq<Real>, k: int)
    requires
        forall|i: int| 0 <= i < fitnesses.len() ==> 0 <= (#[trigger] fitnesses[i]).bits,
        k <= fitnesses.len(),
    ensures
        0 <= builder_after(fitnesses, k).sum_fitness.bits,
        0 <= builder_after(fitnesses, k).total_samples.bits,
        k >= 1 ==> builder_after(fitnesses, k).total_samples.bits > 0,
        forall|i: int|
            0 <= i < k ==> (#[trigger] fitnesses[i]).bits <= builder_after(
                fitnesses,
                k,
            ).sum_fitness.bits,
    decreases (if k > 0 { k } else { 0 }),
{
    if k > 0 {
        lemma_builder_bounds(fitnesses, k - 1);
    }
}

impl StatisticsBuilder {
    /// An empty pass.
    pub fn new() -> (r: StatisticsBuilder)
        ensures
            r == builder_empty(),
    {
        StatisticsBuilder {
            min_fitness: Real { bits: i64::MAX },
            max_fitness: Real { bits: 0 },
            sum_fitness: Real { bits: 0 },
            total_samples: Real { bits: 0 },
        }
    }

    /// Absorb one individual's fitness.
    #[must_use]
    pub fn add_sample<I: Individual>(self, individual: &I) -> (r: StatisticsBuilder)
        ensures
            r == builder_step(self, individual.fitness_spec()),
    {
        let fitness = individual.fitness();
        let min_fitness = if self.min_fitness.bits <= fitness.bits {
            self.min_fitness
        } else {
            fitness
        };
        let max_fitness = if self.max_fitness.bits >= fitness.bits {
            self.max_fitness
        } else {
            fitness
        };
        StatisticsBuilder {
            min_fitness,
            max_fitness,
            sum_fitness: self.sum_fitness.plus(fitness),
            total_samples: self.total_samples.plus(Real::one()),
        }
    }

    /// One pass over a whole population.
    pub fn from_population<I: Individual>(population: &Vec<I>) -> (r: Statistics)
        requires
            population@.len() >= 1,
        ensures
            r == builder_finish(
                builder_after(fitness_seq(population@), population@.len() as int),
            ),
    {
        let ghost fitnesses = fitness_seq(population@);
        let mut builder = StatisticsBuilder::new();
        let mut k: usize = 0;
        let n = population.len();
        while k < n
            invariant
                k <= n,
                n == population@.len(),
                fitnesses == fitness_seq(population@),
                builder == builder_after(fitnesses, k as int),
            decreases n - k,
        {
            builder = builder.add_sample(&population[k]);
            k = k + 1;
        }
        proof {
            lemma_builder_counts(fitnesses, n as int);
        }
        builder.build()
    }

    /// Close the pass; at least one sample must have been absorbed.
    pub fn build(self) -> (r: Statistics)
        requires
            self.total_samples.bits != 0,
        ensures
            r == builder_finish(self),
    {
        Statistics {
            min_fitness: self.min_fitness,
            max_fitness: self.max_fitness,
            total_fitness: self.sum_fitness,
            avg_fitness: self.sum_fitness.over(self.total_samples),
        }
    }
}

impl Default for StatisticsBuilder {
    /// An empty pass.
    fn default() -> (r: StatisticsBuilder)
        ensures
            r == builder_empty(),
    {
        StatisticsBuilder::new()
    }
}

/// One generation's fitness figures.
#[derive(Clone, Copy, Debug, PartialEq, Eq, Structural)]
pub struct Statistics {
    pub min_fitness: Real,
    pub max_fitness: Real,
    pub total_fitness: Real,
    pub avg_fitness: Real,
}

impl Statistics {
    /// The smallest fitness seen.
    pub fn min_fitness(&self) -> (r: Real)
        ensures
            r == self.min_fitness,
    {
        self.min_fitness
    }

    /// The largest fitness seen.
    pub fn max_fitness(&self) -> (r: Real)
        ensures
            r == self.max_fitness,
    {
        self.max_fitness
    }

    /// The average fitness.
    pub fn avg_fitness(&self) -> (r: Real)
        ensures
            r == self.avg_fitness,
    {
        self.avg_fitness
    }

    /// The summed fitness.
    pub fn total_fitness(&self) -> (r: Real)
        ensures
            r == self.total_fitness,
    {
        self.total_fitness
    }

    /// Whether the generation carries no selection pressure at all.
    pub fn has_no_fitness(&self) -> (r: bool)
        ensures
            r == (self.total_fitness.bits == 0),
    {
        self.total_fitness.bits == 0
    }
}

} // verus!
