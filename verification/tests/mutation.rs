use petri_core::{Chromosome, GaussianMutation, MutationMethod, PetriRand, Real};

fn r(x: f32) -> Real {
    Real::from_millionths((x as f64 * 1_000_000.0).round() as i64)
}

fn close(actual: Real, expected: f32) -> bool {
    (actual.to_millionths() as f64 / 1_000_000.0 - expected as f64).abs() < 1e-4
}

fn actual(chance: f32, coeff: f32) -> Vec<Real> {
    let child = Chromosome::from_genes(vec![r(1.0), r(2.0), r(3.0), r(4.0), r(5.0)]);

    let mut rng = PetriRand::with_seed(0);

    let child = GaussianMutation::new(r(chance), r(coeff)).mutate(&mut rng, child);

    child.into_genes()
}

#[test]
fn zero_chance_zero_coeff_does_not_change_the_original_chromosome() {
    let actual = actual(0.0, 0.0);
    let expected = vec![r(1.0), r(2.0), r(3.0), r(4.0), r(5.0)];

    assert_eq!(actual, expected);
}

#[test]
fn zero_chance_nonzero_coeff_does_not_change_the_original_chromosome() {
    let actual = actual(0.0, 0.5);
    let expected = vec![r(1.0), r(2.0), r(3.0), r(4.0), r(5.0)];

    assert_eq!(actual, expected);
}

#[test]
fn fifty_fifty_chance_zero_coeff_does_not_change_the_original_chromosome() {
    let actual = actual(0.5, 0.0);
    let expected = vec![r(1.0), r(2.0), r(3.0), r(4.0), r(5.0)];

    assert_eq!(actual, expected);
}

#[test]
fn slightly_changes_the_original_chromosome() {
    let actual = actual(0.5, 0.5);

    let expected = vec![1.0, 2.4977746, 2.7933073, 3.510318, 4.849235];

    assert_eq!(actual.len(), expected.len());
    for (a, e) in actual.iter().zip(expected.iter()) {
        assert!(close(*a, *e), "got {} expected {}", a.to_millionths(), e);
    }
}

#[test]
fn max_chance_zero_coeff_does_not_change_the_original_chromosome() {
    let actual = actual(1.0, 0.0);
    let expected = vec![r(1.0), r(2.0), r(3.0), r(4.0), r(5.0)];

    assert_eq!(actual, expected);
}

#[test]
fn entirely_changes_the_original_chromosome() {
    let actual = actual(1.0, 0.5);

    let expected = vec![0.9441324, 2.4977746, 2.5183606, 4.0430183, 4.5103183];

    assert_eq!(actual.len(), expected.len());
    for (a, e) in actual.iter().zip(expected.iter()) {
        assert!(close(*a, *e), "got {} expected {}", a.to_millionths(), e);
    }
}

/// Zero chance is an identity for any coefficient and any seed.
#[test]
fn zero_chance_is_identity_for_any_coefficient() {
    for seed in 0..16u64 {
        for coeff in [0.0f32, 0.25, 3.0, 100.0] {
            let child = Chromosome::from_genes(vec![r(-7.5), r(0.0), r(42.0)]);
            let mut rng = PetriRand::with_seed(seed);
            let out = GaussianMutation::new(r(0.0), r(coeff)).mutate(&mut rng, child);
            assert_eq!(out.into_genes(), vec![r(-7.5), r(0.0), r(42.0)]);
        }
    }
}
