//! Selection: picking a parent from a population by fitness.

use vstd::prelude::*;
use vstd::arithmetic::div_mod::{
    lemma_div_pos_is_pos,
    lemma_multiply_divide_le,
    lemma_multiply_divide_lt,
};
use vstd::arithmetic::mul::{lemma_mul_inequality, lemma_mul_nonnegative,
    lemma_mul_strict_inequality, lemma_mul_upper_bound};

use crate::fixed::{r_div, Real, UNIT};
use crate::gen::{wy_out, wy_step};
use crate::individual::Individual;
use crate::rng::{chance_threshold, index_result, reject_threshold, PetriRand};

verus! {

/// An individual's share of the population's total fitness, as a
/// probability.
pub open spec fn fitness_share(fitness: Real, total: Real) -> Real {
    r_div(fitness, total)
}

/// A share of a positive total is a probability when the fitness lies
/// between zero and the total.
pub proof fn lemma_share_is_probability(fitness: Real, total: Real)
    requires
        0 <= fitness.bits <= total.bits,
        total.bits > 0,
    ensures
        0 <= fitness_share(fitness, total).bits <= UNIT,
{
    lemma_mul_inequality(fitness.bits as int, total.bits as int, UNIT as int);
    lemma_multiply_divide_le(fitness.bits * (UNIT as int), total.bits as int, UNIT as int);
    lemma_div_pos_is_pos(fitness.bits * (UNIT as int), total.bits as int);
    assert(fitness.bits * (UNIT as int) >= 0);
}

/// The debiasing draw lands inside its range.
pub proof fn lemma_index_result_in_range(s: u64, upper: int, redraws: int)
    requires
        1 <= upper,
    ensures
        0 <= index_result(s, upper, redraws).0 < upper,
    decreases (if redraws > 0 { redraws } else { 0 }),
{
    let m = upper * (wy_out(s) as int);
    if m % 0x1_0000_0000_0000_0000int >= reject_threshold(upper) || redraws <= 0 {
        lemma_mul_nonnegative(upper, wy_out(s) as int);
        lemma_div_pos_is_pos(m, 0x1_0000_0000_0000_0000);
        lemma_mul_upper_bound(wy_out(s) as int, u64::MAX as int, upper, upper);
        lemma_mul_strict_inequality(u64::MAX as int, 0x1_0000_0000_0000_0000, upper);
        lemma_multiply_divide_lt(m, 0x1_0000_0000_0000_0000, upper);
    } else {
        lemma_index_result_in_range(wy_step(s), upper, redraws - 1);
    }
}

/// The member roulette-wheel selection settles on from state `s`,
/// paired with the state left behind. One round draws a uniformly
/// random member (for a singleton, without drawing) and accepts it with
/// probability equal to its fitness share; rounds repeat until one
/// accepts or the budget is spent, and then the last candidate stands.
pub open spec fn selection_result<I: Individual>(
    s: u64,
    population: Seq<I>,
    total: Real,
    rounds: int,
) -> (int, u64)
    recommends
        population.len() >= 1,
        total.bits != 0,
    decreases (if rounds > 0 { rounds } else { 0 }),
{
    let drawn = if population.len() == 1 {
        (0int, s)
    } else {
        index_result(s, population.len() as int, 128)
    };
    let share = fitness_share(population[drawn.0].fitness_spec(), total);
    let fired = share.bits == UNIT || (wy_out(drawn.1) as int) < chance_threshold(share);
    let after = if share.bits == UNIT {
        drawn.1
    } else {
        wy_step(drawn.1)
    };
    if fired || rounds <= 1 {
        (drawn.0, after)
    } else {
        selection_result(after, population, total, rounds - 1)
    }
}

/// The member selection settles on lands inside the population.
pub proof fn lemma_selection_result_in_range<I: Individual>(
    s: u64,
    population: Seq<I>,
    total: Real,
    rounds: int,
)
    requires
        population.len() >= 1,
    ensures
        0 <= selection_result(s, population, total, rounds).0 < population.len(),
    decreases (if rounds > 0 { rounds } else { 0 }),
{
    if population.len() > 1 {
        lemma_index_result_in_range(s, population.len() as int, 128);
    }
    let drawn = if population.len() == 1 {
        (0int, s)
    } else {
        index_result(s, population.len() as int, 128)
    };
    let share = fitness_share(population[drawn.0].fitness_spec(), total);
    let fired = share.bits == UNIT || (wy_out(drawn.1) as int) < chance_threshold(share);
    let after = if share.bits == UNIT {
        drawn.1
    } else {
        wy_step(drawn.1)
    };
    if !(fired || rounds <= 1) {
        lemma_selection_result_in_range(after, population, total, rounds - 1);
    }
}

/// A selection strategy: pick one member of a nonempty population whose
/// total fitness is strictly positive. Which member comes back, and the
/// state the generator is left in, is exactly the strategy's own spec
/// function of the starting state.
pub trait SelectionMethod<I: Individual>: Sized {
    /// Which member a given generator state leads this strategy to,
    /// paired with the state left behind.
    spec fn selection_spec(&self, s: u64, population: Seq<I>, total_fitness: Real) -> (int, u64);

    fn select<'a>(
        &self,
        rng: &mut PetriRand,
        population: &'a Vec<I>,
        total_fitness: Real,
    ) -> (r: Option<&'a I>)
        requires
            population@.len() >= 1,
            total_fitness.bits > 0,
            forall|i: int|
                0 <= i < population@.len() ==> 0 <= (#[trigger] population@[i]).fitness_spec().bits
                    <= total_fitness.bits,
        ensures
            r is Some,
            r matches Some(x) ==> exists|i: int|
                0 <= i < population@.len() && *x == #[trigger] population@[i],
            population@.len() == 1 ==> (r matches Some(x) && *x == population@[0]),
            ({
                let picked = self.selection_spec(old(rng).rng.state, population@, total_fitness);
                &&& 0 <= picked.0 < population@.len()
                &&& (r matches Some(x) && *x == population@[picked.0])
                &&& final(rng).rng.state == picked.1
            }),
    ;
}

/// Roulette-wheel selection by rejection sampling: draw a uniformly
/// random member and accept it with probability equal to its fitness
/// share; otherwise redraw. One round accepts with probability `1 / n`
/// on average, so the retry budget of `64 (n + 1)` rounds is never
/// exhausted in practice; if it ever were, the last candidate would be
/// returned.
#[derive(Clone, Debug)]
pub struct RouletteWheelSelection;

impl RouletteWheelSelection {
    /// The strategy carries no state.
    pub fn new() -> (r: RouletteWheelSelection) {
        RouletteWheelSelection
    }
}

impl Default for RouletteWheelSelection {
    fn default() -> (r: RouletteWheelSelection) {
        RouletteWheelSelection::new()
    }
}

impl<I: Individual> SelectionMethod<I> for RouletteWheelSelection {
    /// The rejection-sampling loop, given its whole round budget.
    open spec fn selection_spec(&self, s: u64, population: Seq<I>, total_fitness: Real) -> (
        int,
        u64,
    ) {
        selection_result(s, population, total_fitness, 64 * (population.len() as int + 1))
    }

    fn select<'a>(
        &self,
        rng: &mut PetriRand,
        population: &'a Vec<I>,
        total_fitness: Real,
    ) -> (r: Option<&'a I>)
        ensures
            r is Some,
            r matches Some(x) ==> exists|i: int|
                0 <= i < population@.len() && *x == #[trigger] population@[i],
            population@.len() == 1 ==> (r matches Some(x) && *x == population@[0]),
            ({
                let picked = self.selection_spec(old(rng).rng.state, population@, total_fitness);
                &&& 0 <= picked.0 < population@.len()
                &&& (r matches Some(x) && *x == population@[picked.0])
                &&& final(rng).rng.state == picked.1
            }),
    {
        let ghost s0 = rng.rng.state;
        let ghost all_rounds = 64 * (population@.len() as int + 1);
        let mut budget: u128 = (population.len() as u128 + 1) * 64;
        let mut last: &I = &population[0];
        proof {
            assert(*last == population@[0]);
            lemma_selection_result_in_range(s0, population@, total_fitness, all_rounds);
        }
        while budget > 0
            invariant
                s0 == old(rng).rng.state,
                population@.len() >= 1,
                total_fitness.bits > 0,
                forall|i: int|
                    0 <= i < population@.len() ==> 0 <= (
                    #[trigger] population@[i]).fitness_spec().bits <= total_fitness.bits,
                exists|i: int| 0 <= i < population@.len() && *last == #[trigger] population@[i],
                population@.len() == 1 ==> *last == population@[0],
                all_rounds == 64 * (population@.len() as int + 1),
                0 <= selection_result(s0, population@, total_fitness, all_rounds).0
                    < population@.len(),
                budget <= all_rounds,
                budget > 0 ==> selection_result(s0, population@, total_fitness, all_rounds)
                    == selection_result(rng.rng.state, population@, total_fitness, budget as int),
                budget == 0 ==> ({
                    let picked = selection_result(s0, population@, total_fitness, all_rounds);
                    *last == population@[picked.0] && rng.rng.state == picked.1
                }),
            decreases budget,
        {
            let ghost round_start = rng.rng.state;
            let candidate = match rng.sample(population.as_slice()) {
                Some(c) => c,
                None => {
                    proof {
                        assert(false);
                    }
                    last
                },
            };
            let ghost s1 = rng.rng.state;
            proof {
                if population@.len() > 1 {
                    lemma_index_result_in_range(round_start, population@.len() as int, 128);
                }
                let i = choose|i: int|
                    0 <= i < population@.len() && *candidate == #[trigger] population@[i];
                lemma_share_is_probability(candidate.fitness_spec(), total_fitness);
            }
            let share = candidate.fitness().over(total_fitness);
            let accepted = rng.chance(share);
            proof {
                let drawn = if population@.len() == 1 {
                    (0int, round_start)
                } else {
                    index_result(round_start, population@.len() as int, 128)
                };
                assert(drawn.1 == s1);
                assert(*candidate == population@[drawn.0]);
                assert(share == fitness_share(population@[drawn.0].fitness_spec(), total_fitness));
                let fired = share.bits == UNIT || (wy_out(s1) as int) < chance_threshold(share);
                let after = if share.bits == UNIT {
                    s1
                } else {
                    wy_step(s1)
                };
                assert(accepted == fired);
                assert(rng.rng.state == after);
                if fired || budget as int <= 1 {
                    assert(selection_result(round_start, population@, total_fitness, budget as int)
                        == (drawn.0, after));
                } else {
                    assert(selection_result(round_start, population@, total_fitness, budget as int)
                        == selection_result(after, population@, total_fitness, budget as int - 1));
                }
            }
            if accepted {
                return Some(candidate);
            }
            last = candidate;
            budget = budget - 1;
        }
        Some(last)
    }
}

} // verus!
