use petri_core::fixed::UNIT;
use petri_core::Real;

#[test]
fn arithmetic_on_whole_units() {
    let two = Real::from_millionths(2 * UNIT);
    let three = Real::from_millionths(3 * UNIT);

    assert_eq!(two.plus(three).to_millionths(), 5 * UNIT);
    assert_eq!(two.minus(three).to_millionths(), -UNIT);
    assert_eq!(two.times(three).to_millionths(), 6 * UNIT);
    assert_eq!(three.over(two).to_millionths(), 1_500_000);
}

#[test]
fn multiplication_truncates_toward_zero() {
    let a = Real::from_millionths(1); // the smallest positive step
    let b = Real::from_millionths(999_999);

    assert_eq!(a.times(b).to_millionths(), 0);
    assert_eq!(a.negated().times(b).to_millionths(), 0);

    let c = Real::from_millionths(-1_500_000);
    let d = Real::from_millionths(333_333);
    // Exact product -0.4999995 truncates toward zero.
    assert_eq!(c.times(d).to_millionths(), -499_999);
}

#[test]
fn addition_saturates_at_the_bounds() {
    let top = Real::max_value();
    let one = Real::one();

    assert_eq!(top.plus(one).to_millionths(), i64::MAX);
    assert_eq!(top.negated().minus(one).to_millionths(), i64::MIN);
    assert_eq!(Real::from_millionths(i64::MIN).minus(one).to_millionths(), i64::MIN);
}

#[test]
fn division_matches_sign_conventions() {
    let seven = Real::from_millionths(7 * UNIT);
    let two = Real::from_millionths(2 * UNIT);

    assert_eq!(seven.over(two).to_millionths(), 3_500_000);
    assert_eq!(seven.negated().over(two).to_millionths(), -3_500_000);
    assert_eq!(seven.over(two.negated()).to_millionths(), -3_500_000);
    assert_eq!(seven.negated().over(two.negated()).to_millionths(), 3_500_000);
}

#[test]
fn zero_and_one_behave() {
    let x = Real::from_millionths(123_456);

    assert_eq!(x.times(Real::one()), x);
    assert_eq!(x.plus(Real::zero()), x);
    assert_eq!(x.over(Real::one()), x);
    assert_eq!(x.times(Real::zero()).to_millionths(), 0);
}
