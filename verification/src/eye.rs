//! The angular sensor model: positions in, a stimulus vector out.
//!
//! The eye sees targets strictly closer than `fov_range`, within
//! `fov_angle` around its heading. Each visible target lands in one of
//! `cells` angular bins and deposits energy that falls off linearly with
//! distance: a whole unit at distance zero, nothing at the range
//! boundary. Targets sharing a bin sum their energies.

use vstd::prelude::*;
use vstd::arithmetic::div_mod::lemma_div_multiples_vanish;
use vstd::arithmetic::mul::{lemma_mul_nonnegative, lemma_mul_upper_bound};

use crate::fixed::{r_add, r_div, r_sub, sat64, Real, UNIT};
use crate::geometry::{dist_bits, fixed_length, spec_atan2, wrap, wrapped, atan2, PI_FP};

verus! {

/// A point of the plane, in fixed-point coordinates.
#[derive(Clone, Copy, Debug, PartialEq, Eq, Structural)]
pub struct Pos2 {
    pub x: Real,
    pub y: Real,
}

/// An observer: where it stands and which way it faces, as a signed
/// angle against the positive horizontal axis.
#[derive(Clone, Copy, Debug, PartialEq, Eq, Structural)]
pub struct Pose {
    pub position: Pos2,
    pub heading: Real,
}

/// A sound sensor: positive range and angle, at least one cell.
pub open spec fn eye_wf(eye: Eye) -> bool {
    &&& eye.fov_range.bits > 0
    &&& eye.fov_angle.bits > 0
    &&& eye.cells >= 1
}

/// A stimulus vector of `n` empty bins.
pub open spec fn zero_cells(n: int) -> Seq<Real> {
    Seq::new(n as nat, |i: int| Real { bits: 0 })
}

/// The bin a wrapped relative angle falls into, clamped to the last one.
pub open spec fn bin_of(eye: Eye, angle: int, half: int) -> int {
    let raw = (angle + half) * eye.cells / (eye.fov_angle.bits as int);
    if raw < eye.cells - 1 {
        raw
    } else {
        eye.cells - 1
    }
}

/// The energy a target at the given distance deposits: linear falloff
/// from a whole unit at distance zero to nothing at the range boundary.
pub open spec fn energy_of(eye: Eye, dist: Real) -> Real {
    r_div(r_sub(eye.fov_range, dist), eye.fov_range)
}

/// One target folded into the stimulus vector: out of range or outside
/// the field of view it adds nothing, otherwise its energy joins its bin.
pub open spec fn perceive_one(eye: Eye, pose: Pose, target: Pos2, cells: Seq<Real>) -> Seq<
    Real,
> {
    let dx = r_sub(target.x, pose.position.x);
    let dy = r_sub(target.y, pose.position.y);
    let dist = Real { bits: dist_bits(dx, dy) as i64 };
    if dist.bits >= eye.fov_range.bits {
        cells
    } else {
        let bearing = spec_atan2(dy, dx);
        let half = eye.fov_angle.bits / 2;
        let angle = wrapped(r_sub(bearing, pose.heading).bits as int, -(PI_FP as int), PI_FP as int);
        if angle < -half || angle > half {
            cells
        } else {
            let bin = bin_of(eye, angle, half);
            cells.update(bin, r_add(cells[bin], energy_of(eye, dist)))
        }
    }
}

/// The stimulus vector after the first `k` targets.
pub open spec fn perceive_upto(eye: Eye, pose: Pose, targets: Seq<Pos2>, k: int) -> Seq<Real>
    decreases k,
{
    if k <= 0 {
        zero_cells(eye.cells as int)
    } else {
        perceive_one(eye, pose, targets[k - 1], perceive_upto(eye, pose, targets, k - 1))
    }
}

/// The whole stimulus: every target folded in, in order.
pub open spec fn spec_perceive(eye: Eye, pose: Pose, targets: Seq<Pos2>) -> Seq<Real> {
    perceive_upto(eye, pose, targets, targets.len() as int)
}

/// The angular sensor: its radial range, its angular width, and how many
/// photoreceptor cells split that width.
#[derive(Clone, Copy, Debug, PartialEq, Eq, Structural)]
pub struct Eye {
    pub fov_range: Real,
    pub fov_angle: Real,
    pub cells: usize,
}

impl Eye {
    /// A sensor with the given field of view; the bounds are demanded of
    /// every caller, never checked at run time.
    pub fn new(fov_range: Real, fov_angle: Real, cells: usize) -> (r: Eye)
        requires
            fov_range.bits > 0,
            fov_angle.bits > 0,
            cells >= 1,
        ensures
            r.fov_range == fov_range,
            r.fov_angle == fov_angle,
            r.cells == cells,
            eye_wf(r),
    {
        Eye { fov_range, fov_angle, cells }
    }

    /// How far the default eye sees, as a fraction of the world.
    pub fn default_fov_range() -> (r: Real)
        ensures
            r.bits == 250_000,
    {
        Real { bits: 250_000 }
    }

    /// How wide the default eye sees: five eighths of a turn.
    pub fn default_fov_angle() -> (r: Real)
        ensures
            r.bits == 3_926_991,
    {
        Real { bits: 3_926_991 }
    }

    /// Convert an observer's pose and the targets around it into a
    /// stimulus vector with one entry per cell.
    pub fn perceive(&self, pose: &Pose, targets: &Vec<Pos2>) -> (r: Vec<Real>)
        requires
            eye_wf(*self),
        ensures
            r@ == spec_perceive(*self, *pose, targets@),
            r@.len() == self.cells,
    {
        let mut cells: Vec<Real> = Vec::new();
        let mut i: usize = 0;
        while i < self.cells
            invariant
                i <= self.cells,
                cells@.len() == i,
                forall|j: int| 0 <= j < i ==> cells@[j] == (Real { bits: 0 }),
            decreases self.cells - i,
        {
            cells.push(Real { bits: 0 });
            i = i + 1;
        }
        proof {
            assert(cells@ =~= zero_cells(self.cells as int));
        }
        let half_bits = self.fov_angle.bits / 2;
        let half = Real { bits: half_bits };
        let n = targets.len();
        let mut k: usize = 0;
        while k < n
            invariant
                eye_wf(*self),
                k <= n,
                n == targets@.len(),
                half_bits == self.fov_angle.bits / 2,
                cells@.len() == self.cells,
                cells@ == perceive_upto(*self, *pose, targets@, k as int),
            decreases n - k,
        {
            let target = targets[k];
            let dx = target.x.minus(pose.position.x);
            let dy = target.y.minus(pose.position.y);
            let dist = fixed_length(dx, dy);
            if dist.bits < self.fov_range.bits {
                let bearing = atan2(dy, dx);
                let angle = wrap(
                    bearing.minus(pose.heading),
                    Real { bits: (-PI_FP) as i64 },
                    Real { bits: PI_FP },
                );
                if angle.bits >= -half_bits && angle.bits <= half_bits {
                    proof {
                        lemma_mul_nonnegative(angle.bits + half_bits, self.cells as int);
                        lemma_mul_upper_bound(
                            angle.bits + half_bits,
                            0x1_0000_0000_0000_0000,
                            self.cells as int,
                            0xFFFF_FFFF_FFFF_FFFF,
                        );
                    }
                    let num: u128 = ((angle.bits + half_bits) as u128) * (self.cells as u128);
                    let raw: u128 = num / (self.fov_angle.bits as u128);
                    let bin: usize = if raw < (self.cells - 1) as u128 {
                        raw as usize
                    } else {
                        self.cells - 1
                    };
                    proof {
                        assert(bin as int == bin_of(
                            *self,
                            angle.bits as int,
                            half_bits as int,
                        ));
                    }
                    let deposit = self.fov_range.minus(dist).over(self.fov_range);
                    let joined = cells[bin].plus(deposit);
                    cells.set(bin, joined);
                    proof {
                        assert(cells@ =~= perceive_upto(*self, *pose, targets@, k + 1));
                    }
                } else {
                    proof {
                        assert(cells@ =~= perceive_upto(*self, *pose, targets@, k + 1));
                    }
                }
            } else {
                proof {
                    assert(cells@ =~= perceive_upto(*self, *pose, targets@, k + 1));
                }
            }
            k = k + 1;
        }
        cells
    }
}

impl Default for Eye {
    /// The stock sensor: a quarter of the world's radius, five eighths
    /// of a turn, nine photoreceptor cells.
    fn default() -> (r: Eye)
        ensures
            r.fov_range.bits == 250_000,
            r.fov_angle.bits == 3_926_991,
            r.cells == 9,
            eye_wf(r),
    {
        Eye::new(Eye::default_fov_range(), Eye::default_fov_angle(), 9)
    }
}

/// A target standing exactly at the range boundary, or beyond it, adds
/// nothing: the stimulus comes back unchanged.
pub proof fn lemma_boundary_target_adds_nothing(eye: Eye, pose: Pose, target: Pos2, cells: Seq<Real>)
    requires
        eye_wf(eye),
        dist_bits(
            r_sub(target.x, pose.position.x),
            r_sub(target.y, pose.position.y),
        ) >= eye.fov_range.bits,
    ensures
        perceive_one(eye, pose, target, cells) == cells,
{
}

/// A target standing exactly on the observer, with the observer facing
/// it inside its field of view, deposits one whole unit of energy in its
/// bin.
pub proof fn lemma_adjacent_target_full_energy(
    eye: Eye,
    pose: Pose,
    target: Pos2,
    cells: Seq<Real>,
) -> (bin: int)
    requires
        eye_wf(eye),
        target == pose.position,
        -(eye.fov_angle.bits / 2) <= wrapped(
            r_sub(spec_atan2(Real { bits: 0 }, Real { bits: 0 }), pose.heading).bits as int,
            -(PI_FP as int),
            PI_FP as int,
        ) <= eye.fov_angle.bits / 2,
    ensures
        0 <= bin < eye.cells,
        perceive_one(eye, pose, target, cells) == cells.update(
            bin,
            r_add(cells[bin], Real { bits: UNIT }),
        ),
{
    let dx = r_sub(target.x, pose.position.x);
    let dy = r_sub(target.y, pose.position.y);
    assert(dx.bits == 0 && dy.bits == 0);
    assert(dist_bits(dx, dy) == 0) by {
        crate::geometry::lemma_isqrt_exists(0);
        let w = crate::geometry::isqrt_of(0);
        crate::geometry::lemma_isqrt_unique(0, w, 0);
        assert(crate::geometry::is_isqrt(0, 0)) by (nonlinear_arith);
    }
    let dist = Real { bits: dist_bits(dx, dy) as i64 };
    assert(energy_of(eye, dist).bits == UNIT) by {
        let range = eye.fov_range.bits as int;
        assert(r_sub(eye.fov_range, dist).bits == range);
        lemma_div_multiples_vanish(UNIT as int, range);
        assert(range * (UNIT as int) == (UNIT as int) * range) by (nonlinear_arith);
        lemma_mul_upper_bound(range, i64::MAX as int, UNIT as int, UNIT as int);
        lemma_mul_nonnegative(range, UNIT as int);
    }
    let half = eye.fov_angle.bits / 2;
    let angle = wrapped(
        r_sub(spec_atan2(dy, dx), pose.heading).bits as int,
        -(PI_FP as int),
        PI_FP as int,
    );
    let b = bin_of(eye, angle, half);
    assert(0 <= b < eye.cells) by {
        lemma_mul_nonnegative(angle + half, eye.cells as int);
        vstd::arithmetic::div_mod::lemma_div_pos_is_pos(
            (angle + half) * eye.cells,
            eye.fov_angle.bits as int,
        );
    }
    b
}

} // verus!
