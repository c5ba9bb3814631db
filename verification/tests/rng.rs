use petri_core::entropy::generate_entropy;
use petri_core::fixed::UNIT;
use petri_core::gen::seeded_stream;
use petri_core::{PetriRand, Real, WyRand};

/// Two generators given the same seed put out the same words in the
/// same order, forever.
#[test]
fn with_seed_is_deterministic() {
    let mut a = PetriRand::with_seed(0xDEAD_BEEF);
    let mut b = PetriRand::with_seed(0xDEAD_BEEF);
    for _ in 0..1000 {
        assert_eq!(a.get_u64(), b.get_u64());
    }
    let mut c = PetriRand::with_seed(1);
    let mut d = PetriRand::with_seed(2);
    let mut any_difference = false;
    for _ in 0..64 {
        if c.get_u64() != d.get_u64() {
            any_difference = true;
        }
    }
    assert!(any_difference);
}

/// The convenience stream function agrees with drawing by hand.
#[test]
fn seeded_stream_matches_manual_draws() {
    let stream = seeded_stream(99, 50);
    let mut rng = WyRand::with_seed(99);
    for k in 0..50 {
        assert_eq!(stream[k], rng.rand());
    }
}

/// Reseeding replays the stream from the top.
#[test]
fn reseed_replays_the_stream() {
    let mut a = PetriRand::with_seed(7);
    let first: Vec<u64> = (0..20).map(|_| a.get_u64()).collect();
    a.reseed(7);
    let second: Vec<u64> = (0..20).map(|_| a.get_u64()).collect();
    assert_eq!(first, second);
}

/// A bounded index always lands inside the range, and a range of one
/// has only one answer.
#[test]
fn index_stays_in_range() {
    let mut rng = PetriRand::with_seed(3);
    for upper in 1usize..=20 {
        for _ in 0..500 {
            let i = rng.index(upper);
            assert!(i < upper);
            if upper == 1 {
                assert_eq!(i, 0);
            }
        }
    }
}

/// A zero rate never fires; a full rate always does.
#[test]
fn chance_at_both_ends() {
    let mut rng = PetriRand::with_seed(11);
    let zero = Real::from_millionths(0);
    for _ in 0..100_000 {
        assert!(!rng.chance(zero));
    }
    let one = Real::from_millionths(UNIT);
    for _ in 0..100_000 {
        assert!(rng.chance(one));
    }
}

/// A full rate is answered without consuming a word of the stream.
#[test]
fn chance_of_one_draws_nothing() {
    let mut a = PetriRand::with_seed(5);
    let mut b = PetriRand::with_seed(5);
    assert!(a.chance(Real::from_millionths(UNIT)));
    assert_eq!(a.get_u64(), b.get_u64());
}

/// The uniform fraction stays inside `[0, 1)` and the normalised one
/// inside `[-1, 1)`: one whole is never attained, even at the maximal
/// draw.
#[test]
fn fractions_stay_in_their_intervals() {
    let mut rng = PetriRand::with_seed(13);
    for _ in 0..10_000 {
        let u = rng.get_real();
        assert!(0 <= u.to_millionths() && u.to_millionths() < UNIT);
        let v = rng.get_real_normalised();
        assert!(-UNIT <= v.to_millionths() && v.to_millionths() < UNIT);
    }
}

/// Sampling: nothing from an empty list, the only element from a
/// singleton (without touching the stream), a member from anything else.
#[test]
fn sample_respects_the_list() {
    let mut rng = PetriRand::with_seed(17);
    let empty: Vec<u32> = vec![];
    assert!(rng.sample(&empty).is_none());

    let single = vec![42u32];
    let state_before = rng.rng.state;
    assert_eq!(rng.sample(&single), Some(&42));
    assert_eq!(rng.rng.state, state_before);

    let several = vec![1u32, 2, 3, 4, 5];
    for _ in 0..200 {
        let got = *rng.sample(&several).unwrap();
        assert!(several.contains(&got));
    }
}

/// The low 32 bits and the low parity agree with the raw word.
#[test]
fn derived_draws_agree_with_raw_words() {
    let mut raw = PetriRand::with_seed(23);
    let mut derived = PetriRand::with_seed(23);
    for _ in 0..100 {
        let w = raw.get_u64();
        assert_eq!(derived.get_u32(), w as u32);
    }
    let mut raw = PetriRand::with_seed(29);
    let mut derived = PetriRand::with_seed(29);
    for _ in 0..100 {
        let w = raw.get_u64();
        assert_eq!(derived.bool(), w % 2 == 0);
    }
}

/// Clock-derived seeds are always odd, as promised.
#[test]
fn entropy_is_odd() {
    for _ in 0..32 {
        assert_eq!(generate_entropy() % 2, 1);
    }
}

/// An unseeded source still works as a generator.
#[test]
fn new_source_draws() {
    let mut rng = PetriRand::new();
    let i = rng.index(10);
    assert!(i < 10);
}
