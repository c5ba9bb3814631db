use petri_core::{Individual, PetriRand, Real, RouletteWheelSelection, SelectionMethod,
    TestIndividual};

fn r(x: f32) -> Real {
    Real::from_millionths((x as f64 * 1_000_000.0).round() as i64)
}

#[test]
fn roulette_wheel_selection() {
    let method = RouletteWheelSelection::new();
    let mut rng = PetriRand::with_seed(0);

    let population = vec![
        TestIndividual::new(r(0.0)),
        TestIndividual::new(r(2.0)),
        TestIndividual::new(r(1.0)),
        TestIndividual::new(r(4.0)),
        TestIndividual::new(r(3.0)),
    ];

    // Each individual is weighed against the population's summed
    // fitness of ten.
    let total = r(10.0);

    let mut histogram = [0usize; 5];
    for _ in 0..1000 {
        let chosen = method.select(&mut rng, &population, total).unwrap();
        let fitness = chosen.fitness().to_millionths() / 1_000_000;
        histogram[fitness as usize] += 1;
    }

    // (fitness, how many times this fitness has been chosen)
    let expected = [0usize, 99, 173, 300, 428];
    assert_eq!(histogram, expected);
}

/// Whatever comes back is a member of the population, and the whole
/// sequence of choices is a function of the seed alone.
#[test]
fn selection_returns_a_member() {
    let method = RouletteWheelSelection::new();
    let mut rng = PetriRand::with_seed(77);
    let mut rng_again = PetriRand::with_seed(77);
    let population = vec![
        TestIndividual::new(r(1.0)),
        TestIndividual::new(r(2.0)),
        TestIndividual::new(r(3.0)),
    ];
    for _ in 0..200 {
        let chosen = method.select(&mut rng, &population, r(6.0)).unwrap();
        let f = chosen.fitness();
        assert!(f == r(1.0) || f == r(2.0) || f == r(3.0));

        let again = method.select(&mut rng_again, &population, r(6.0)).unwrap();
        assert!(again.fitness() == f);
    }
}

/// A population of one always yields its one member.
#[test]
fn selection_on_a_singleton_population() {
    let method = RouletteWheelSelection::new();
    let mut rng = PetriRand::with_seed(5);
    let population = vec![TestIndividual::new(r(2.5))];
    for _ in 0..50 {
        let chosen = method.select(&mut rng, &population, r(2.5)).unwrap();
        assert!(chosen.fitness() == r(2.5));
    }
}
