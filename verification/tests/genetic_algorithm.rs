use petri_core::{Chromosome, CrossoverMethod, GaussianMutation, GeneticAlgorithm, Individual,
    MutationMethod, PetriRand, Real, RouletteWheelSelection, TestIndividual, UniformCrossover};

fn r(x: f32) -> Real {
    Real::from_millionths((x as f64 * 1_000_000.0).round() as i64)
}

fn individual(genes: &[f32]) -> TestIndividual {
    let chromosome = Chromosome::from_genes(genes.iter().map(|g| r(*g)).collect());

    TestIndividual::create(chromosome)
}

#[test]
fn crossover_and_mutate() {
    let mut rng = PetriRand::with_seed(0);
    let crosser = UniformCrossover::new();
    let mutator = GaussianMutation::new(r(0.5), r(0.5));

    let parent_a = individual(&[1.0, 2.0, 3.0, 4.0, 5.0]).chromosome().clone();
    let parent_b = individual(&[-1.0, -2.0, -3.0, -4.0, -5.0]).chromosome().clone();

    let crossed = crosser.crossover(&mut rng, &parent_a, &parent_b);
    let child = mutator.mutate(&mut rng, crossed);

    // The child keeps the parents' length, every gene sits within the
    // mutation magnitude of the gene one parent carried there, and the
    // values are pinned by the seed.
    assert_eq!(child.len(), 5);
    for i in 0..child.len() {
        let g = child.gene(i).to_millionths();
        let a = parent_a.gene(i).to_millionths();
        let b = parent_b.gene(i).to_millionths();
        assert!((g - a).abs() <= 500_000 || (g - b).abs() <= 500_000);
    }

    let expected = vec![1.0f32, 2.0, -3.489681, 3.849236, 4.533562];
    for (g, e) in child.genes().iter().zip(expected.iter()) {
        let diff = g.to_millionths() as f64 / 1_000_000.0 - *e as f64;
        assert!(diff.abs() < 1e-4, "got {} expected {}", g.to_millionths(), e);
    }

    // The whole pipeline is deterministic under a fixed seed.
    let mut rng_again = PetriRand::with_seed(0);
    let crossed_again = crosser.crossover(&mut rng_again, &parent_a, &parent_b);
    let child_again = mutator.mutate(&mut rng_again, crossed_again);
    assert_eq!(child, child_again);
}

#[test]
fn evolve_no_fitness() {
    let mut rng = PetriRand::with_seed(0);

    let ga = GeneticAlgorithm::new(
        RouletteWheelSelection::new(),
        UniformCrossover::new(),
        GaussianMutation::new(r(0.5), r(0.5)),
    );

    let population = vec![
        individual(&[0.0, 0.0, 0.0]),
        individual(&[0.0, 0.0, 0.0]),
        individual(&[0.0, 0.0, 0.0]),
        individual(&[0.0, 0.0, 0.0]),
    ];

    let result = ga.evolve(&mut rng, &population);

    assert!(result.is_none());
}

#[test]
fn evolve_no_population() {
    let mut rng = PetriRand::with_seed(0);

    let ga = GeneticAlgorithm::new(
        RouletteWheelSelection::new(),
        UniformCrossover::new(),
        GaussianMutation::new(r(0.5), r(0.5)),
    );

    let population: Vec<TestIndividual> = Vec::new();

    let result = ga.evolve(&mut rng, &population);

    assert!(result.is_none());
}

#[test]
fn evolve_success() {
    let mut rng = PetriRand::with_seed(0);

    let ga = GeneticAlgorithm::new(
        RouletteWheelSelection::new(),
        UniformCrossover::new(),
        GaussianMutation::new(r(0.5), r(0.5)),
    );

    let mut population = vec![
        individual(&[0.0, 0.0, 0.0]), // fitness = 0.0
        individual(&[1.0, 1.0, 1.0]), // fitness = 3.0
        individual(&[1.0, 2.0, 1.0]), // fitness = 4.0
        individual(&[1.0, 2.0, 4.0]), // fitness = 7.0
    ];

    // Running `evolve` for several generations; every cycle must
    // succeed, keep the population size, and keep the chromosome
    // length.
    for _ in 0..10 {
        let (next, stats) = ga
            .evolve(&mut rng, &population)
            .expect("evolution should conclude successfully");

        assert_eq!(next.len(), 4);
        for member in &next {
            assert_eq!(member.chromosome().len(), 3);
        }
        assert!(stats.total_fitness().to_millionths() > 0);

        population = next;
    }

    // And the whole run is reproducible from the seed.
    let mut rng_again = PetriRand::with_seed(0);
    let mut population_again = vec![
        individual(&[0.0, 0.0, 0.0]),
        individual(&[1.0, 1.0, 1.0]),
        individual(&[1.0, 2.0, 1.0]),
        individual(&[1.0, 2.0, 4.0]),
    ];
    for _ in 0..10 {
        population_again = ga.evolve(&mut rng_again, &population_again).unwrap().0;
    }
    for (a, b) in population.iter().zip(population_again.iter()) {
        assert_eq!(a.chromosome(), b.chromosome());
    }
}

#[test]
fn evolve_statistics_match_the_population() {
    let mut rng = PetriRand::with_seed(4);

    let ga = GeneticAlgorithm::new(
        RouletteWheelSelection::new(),
        UniformCrossover::new(),
        GaussianMutation::new(r(0.0), r(0.0)),
    );

    let population = vec![
        individual(&[1.0, 1.0]), // fitness = 2.0
        individual(&[4.0, 1.0]), // fitness = 5.0
        individual(&[0.5, 0.5]), // fitness = 1.0
    ];

    let (_, stats) = ga.evolve(&mut rng, &population).unwrap();

    assert_eq!(stats.min_fitness(), r(1.0));
    assert_eq!(stats.max_fitness(), r(5.0));
    assert_eq!(stats.total_fitness(), r(8.0));
    assert_eq!(stats.avg_fitness().to_millionths(), 8_000_000 / 3);
}
