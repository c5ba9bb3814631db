//! One evolutionary step over a population, generic over the selection,
//! crossover and mutation strategies.

use vstd::prelude::*;

use crate::crossover::CrossoverMethod;
use crate::fixed::Real;
use crate::individual::Individual;
use crate::mutation::MutationMethod;
use crate::rng::PetriRand;
use crate::selection::SelectionMethod;
use crate::statistics::{builder_after, builder_finish, fitness_seq, lemma_builder_bounds,
    Statistics, StatisticsBuilder};

verus! {

/// The summed fitness of a population, exactly as the streaming
/// statistics pass computes it.
pub open spec fn population_total_fitness<I: Individual>(population: Seq<I>) -> Real {
    builder_after(fitness_seq(population), population.len() as int).sum_fitness
}

/// The chromosomes one evolutionary step breeds for the first `k`
/// output slots, paired with the generator state left behind: for each
/// slot in turn, two parents are selected, their chromosomes crossed,
/// and the child mutated, all over one threaded stream.
pub open spec fn bred_genes<
    I: Individual,
    S: SelectionMethod<I>,
    C: CrossoverMethod,
    M: MutationMethod,
>(
    selection: S,
    crossover: C,
    mutation: M,
    s: u64,
    population: Seq<I>,
    total: Real,
    k: int,
) -> (Seq<Seq<Real>>, u64)
    recommends
        population.len() >= 1,
    decreases k,
{
    if k <= 0 {
        (Seq::empty(), s)
    } else {
        let prev = bred_genes(selection, crossover, mutation, s, population, total, k - 1);
        let pa = selection.selection_spec(prev.1, population, total);
        let pb = selection.selection_spec(pa.1, population, total);
        let crossed = crossover.crossover_spec(
            pb.1,
            population[pa.0].chromosome_spec(),
            population[pb.0].chromosome_spec(),
        );
        let moved = mutation.mutation_spec(crossed.1, crossed.0);
        (prev.0.push(moved.0), moved.1)
    }
}

/// A genetic algorithm assembled from three pluggable strategies.
#[derive(Clone, Debug)]
pub struct GeneticAlgorithm<S, C, M> {
    pub selection_method: S,
    pub crossover_method: C,
    pub mutation_method: M,
}

impl<S, C: CrossoverMethod, M: MutationMethod> GeneticAlgorithm<S, C, M> {
    /// Fix the three strategies.
    pub fn new(selection_method: S, crossover_method: C, mutation_method: M) -> (r:
        GeneticAlgorithm<S, C, M>)
        ensures
            r.selection_method == selection_method,
            r.crossover_method == crossover_method,
            r.mutation_method == mutation_method,
    {
        GeneticAlgorithm { selection_method, crossover_method, mutation_method }
    }

    /// One discrete evolutionary step. An empty population, or one whose
    /// total fitness is exactly zero, yields nothing: there is no
    /// selection pressure, and the caller may retry a later cycle.
    /// Otherwise the result holds the generation's fitness statistics and
    /// a new population of exactly the input's size, every chromosome as
    /// long as the input chromosomes; each slot carries exactly the genes
    /// that `bred_genes` lays out over the generator stream — two parents
    /// selected, their chromosomes crossed, the child mutated — with no
    /// positional correspondence to the input and no elitism.
    pub fn evolve<I: Individual>(&self, rng: &mut PetriRand, population: &Vec<I>) -> (r: Option<
        (Vec<I>, Statistics),
    >) where S: SelectionMethod<I>
        requires
            forall|i: int|
                0 <= i < population@.len() ==> 0 <= (#[trigger] population@[i]).fitness_spec().bits,
            forall|i: int|
                0 <= i < population@.len() ==> (#[trigger] population@[i]).chromosome_spec().len()
                    == population@[0].chromosome_spec().len(),
        ensures
            (r is None) <==> (population@.len() == 0 || population_total_fitness(population@).bits
                == 0),
            (r is None) ==> *final(rng) == *old(rng),
            r matches Some(pair) ==> {
                &&& pair.0@.len() == population@.len()
                &&& forall|i: int|
                    0 <= i < pair.0@.len() ==> (#[trigger] pair.0@[i]).chromosome_spec().len()
                        == population@[0].chromosome_spec().len()
                &&& pair.1 == builder_finish(
                    builder_after(fitness_seq(population@), population@.len() as int),
                )
                &&& ({
                    let bred = bred_genes(
                        self.selection_method,
                        self.crossover_method,
                        self.mutation_method,
                        old(rng).rng.state,
                        population@,
                        population_total_fitness(population@),
                        population@.len() as int,
                    );
                    &&& forall|i: int|
                        0 <= i < pair.0@.len() ==> (#[trigger] pair.0@[i]).chromosome_spec()
                            == bred.0[i]
                    &&& final(rng).rng.state == bred.1
                })
            },
    {
        if population.len() == 0 {
            return None;
        }
        let stats = StatisticsBuilder::from_population(population);
        if stats.has_no_fitness() {
            return None;
        }
        let total = stats.total_fitness();
        proof {
            assert forall|i: int|
                0 <= i < fitness_seq(population@).len() implies 0 <= (#[trigger] fitness_seq(
                population@,
            )[i]).bits by {
                assert(fitness_seq(population@)[i] == population@[i].fitness_spec());
            }
            lemma_builder_bounds(fitness_seq(population@), population@.len() as int);
            assert forall|i: int|
                0 <= i < population@.len() implies 0 <= (
            #[trigger] population@[i]).fitness_spec().bits <= total.bits by {
                assert(fitness_seq(population@)[i] == population@[i].fitness_spec());
            }
        }
        let ghost s0 = rng.rng.state;
        let ghost target_len = population@[0].chromosome_spec().len();
        proof {
            assert(total == population_total_fitness(population@));
        }
        let n = population.len();
        let mut next_generation: Vec<I> = Vec::new();
        let mut slot: usize = 0;
        while slot < n
            invariant
                s0 == old(rng).rng.state,
                slot <= n,
                n == population@.len(),
                population@.len() >= 1,
                total.bits > 0,
                total == population_total_fitness(population@),
                forall|i: int|
                    0 <= i < population@.len() ==> 0 <= (
                    #[trigger] population@[i]).fitness_spec().bits <= total.bits,
                forall|i: int|
                    0 <= i < population@.len() ==> (
                    #[trigger] population@[i]).chromosome_spec().len() == target_len,
                next_generation@.len() == slot,
                forall|i: int|
                    0 <= i < slot ==> (#[trigger] next_generation@[i]).chromosome_spec().len()
                        == target_len,
                ({
                    let bred = bred_genes(
                        self.selection_method,
                        self.crossover_method,
                        self.mutation_method,
                        s0,
                        population@,
                        total,
                        slot as int,
                    );
                    &&& bred.0.len() == slot
                    &&& forall|i: int|
                        0 <= i < slot ==> (#[trigger] next_generation@[i]).chromosome_spec()
                            == bred.0[i]
                    &&& rng.rng.state == bred.1
                }),
            decreases n - slot,
        {
            let ghost bred_prev = bred_genes(
                self.selection_method,
                self.crossover_method,
                self.mutation_method,
                s0,
                population@,
                total,
                slot as int,
            );
            let parent_a = match self.selection_method.select(rng, population, total) {
                Some(p) => p,
                None => {
                    proof {
                        assert(false);
                    }
                    &population[0]
                },
            };
            let ghost pa = self.selection_method.selection_spec(bred_prev.1, population@, total);
            let parent_b = match self.selection_method.select(rng, population, total) {
                Some(p) => p,
                None => {
                    proof {
                        assert(false);
                    }
                    &population[0]
                },
            };
            let ghost pb = self.selection_method.selection_spec(pa.1, population@, total);
            proof {
                assert(*parent_a == population@[pa.0]);
                assert(*parent_b == population@[pb.0]);
                assert(parent_a.chromosome_spec().len() == target_len);
                assert(parent_b.chromosome_spec().len() == target_len);
            }
            let crossed = self.crossover_method.crossover(
                rng,
                parent_a.chromosome(),
                parent_b.chromosome(),
            );
            let child = self.mutation_method.mutate(rng, crossed);
            next_generation.push(I::create(child));
            slot = slot + 1;
            proof {
                let bred_now = bred_genes(
                    self.selection_method,
                    self.crossover_method,
                    self.mutation_method,
                    s0,
                    population@,
                    total,
                    slot as int,
                );
                assert(bred_now.0 == bred_prev.0.push(
                    self.mutation_method.mutation_spec(
                        self.crossover_method.crossover_spec(
                            pb.1,
                            population@[pa.0].chromosome_spec(),
                            population@[pb.0].chromosome_spec(),
                        ).1,
                        self.crossover_method.crossover_spec(
                            pb.1,
                            population@[pa.0].chromosome_spec(),
                            population@[pb.0].chromosome_spec(),
                        ).0,
                    ).0,
                ));
            }
        }
        Some((next_generation, stats))
    }
}

} // verus!
