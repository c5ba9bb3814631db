use petri_core::geometry::{wrap, PI_FP};
use petri_core::{Eye, Pos2, Pose, Real};

fn r(x: f32) -> Real {
    Real::from_millionths((x as f64 * 1_000_000.0).round() as i64)
}

fn at(x: f32, y: f32) -> Pos2 {
    Pos2 { x: r(x), y: r(y) }
}

fn looking_from(x: f32, y: f32, heading: f32) -> Pose {
    Pose { position: at(x, y), heading: r(heading) }
}

/// A target on the observer itself deposits one whole unit of energy.
#[test]
fn target_at_distance_zero_contributes_full_energy() {
    let eye = Eye::new(r(1.0), Real::from_millionths(PI_FP / 2), 13);
    let pose = looking_from(0.5, 0.5, 0.0);
    let targets = vec![at(0.5, 0.5)];

    let cells = eye.perceive(&pose, &targets);

    assert_eq!(cells.len(), 13);
    let total: i64 = cells.iter().map(|c| c.to_millionths()).sum();
    assert_eq!(total, 1_000_000);
    assert!(cells.iter().any(|c| c.to_millionths() == 1_000_000));
}

/// A target exactly at the range boundary contributes nothing: the
/// cutoff is strict.
#[test]
fn target_at_range_boundary_contributes_nothing() {
    let eye = Eye::new(r(1.0), Real::from_millionths(2 * PI_FP - 2), 7);
    let pose = looking_from(0.0, 0.0, 0.0);
    let targets = vec![at(1.0, 0.0)];

    let cells = eye.perceive(&pose, &targets);

    assert!(cells.iter().all(|c| c.to_millionths() == 0));
}

/// A target halfway out deposits half a unit, straight ahead.
#[test]
fn energy_falls_off_linearly_with_distance() {
    let eye = Eye::new(r(1.0), Real::from_millionths(PI_FP / 2), 9);
    let pose = looking_from(0.0, 0.0, 0.0);
    let targets = vec![at(0.5, 0.0)];

    let cells = eye.perceive(&pose, &targets);

    let total: i64 = cells.iter().map(|c| c.to_millionths()).sum();
    assert_eq!(total, 500_000);
}

/// A target outside the angular window is invisible even when close.
#[test]
fn target_behind_the_eye_is_invisible() {
    let eye = Eye::new(r(1.0), Real::from_millionths(PI_FP / 2), 9);
    let pose = looking_from(0.0, 0.0, 0.0);
    let targets = vec![at(-0.2, 0.0)];

    let cells = eye.perceive(&pose, &targets);

    assert!(cells.iter().all(|c| c.to_millionths() == 0));
}

/// Two targets landing in one bin sum their energies.
#[test]
fn targets_sharing_a_bin_sum_their_energies() {
    let eye = Eye::new(r(1.0), Real::from_millionths(PI_FP / 2), 3);
    let pose = looking_from(0.0, 0.0, 0.0);
    let targets = vec![at(0.5, 0.0), at(0.75, 0.0)];

    let cells = eye.perceive(&pose, &targets);

    let total: i64 = cells.iter().map(|c| c.to_millionths()).sum();
    assert_eq!(total, 500_000 + 250_000);
    assert!(cells.iter().any(|c| c.to_millionths() == 750_000));
}

/// A wider field of view reveals a target a narrow one hides.
#[test]
fn widening_the_angle_reveals_side_targets() {
    let narrow = Eye::new(r(1.0), Real::from_millionths(PI_FP / 2), 9);
    let wide = Eye::new(r(1.0), Real::from_millionths(2 * PI_FP - 2), 9);
    let pose = looking_from(0.0, 0.0, 0.0);
    let targets = vec![at(-0.3, 0.3)];

    let seen_narrow: i64 = narrow.perceive(&pose, &targets).iter().map(|c| c.to_millionths()).sum();
    let seen_wide: i64 = wide.perceive(&pose, &targets).iter().map(|c| c.to_millionths()).sum();

    assert_eq!(seen_narrow, 0);
    assert!(seen_wide > 0);
}

/// Rotating the observer moves a fixed target across the bins.
#[test]
fn rotation_moves_the_target_across_bins() {
    let eye = Eye::new(r(1.0), Real::from_millionths(2 * PI_FP - 2), 13);
    let targets = vec![at(0.0, 0.4)];

    let straight = eye.perceive(&looking_from(0.0, 0.0, 0.0), &targets);
    let quarter = eye.perceive(&looking_from(0.0, 0.0, 1.570796), &targets);

    let bin_straight = straight.iter().position(|c| c.to_millionths() > 0).unwrap();
    let bin_quarter = quarter.iter().position(|c| c.to_millionths() > 0).unwrap();

    assert_ne!(bin_straight, bin_quarter);
    assert!(bin_quarter < bin_straight);
}

/// Values already inside the interval wrap to themselves; values beyond
/// it come back shifted by whole turns.
#[test]
fn wrap_reduces_by_whole_widths() {
    let lo = Real::from_millionths(-PI_FP);
    let hi = Real::from_millionths(PI_FP);

    assert_eq!(wrap(r(1.0), lo, hi).to_millionths(), 1_000_000);
    assert_eq!(wrap(r(0.0), lo, hi).to_millionths(), 0);
    assert_eq!(
        wrap(Real::from_millionths(PI_FP + 1_000), lo, hi).to_millionths(),
        PI_FP + 1_000 - 2 * PI_FP
    );
    assert_eq!(
        wrap(Real::from_millionths(-PI_FP - 1_000), lo, hi).to_millionths(),
        -PI_FP - 1_000 + 2 * PI_FP
    );
    assert_eq!(wrap(hi, lo, hi).to_millionths(), PI_FP);
    assert_eq!(wrap(lo, lo, hi).to_millionths(), -PI_FP);
}
