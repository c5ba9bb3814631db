//! Fixed-point plane geometry for the sensor model: integer square
//! roots, angle wrapping, and an arctangent approximation.

use vstd::prelude::*;
use vstd::arithmetic::div_mod::{
    lemma_div_pos_is_pos,
    lemma_fundamental_div_mod,
    lemma_remainder_lower,
    lemma_remainder_upper,
};
use vstd::arithmetic::mul::lemma_mul_upper_bound;

use crate::fixed::{abs_val, r_add, r_div, r_mul, r_sub, sat64, Real, UNIT};

verus! {

/// Half a turn, in fixed-point radians.
pub const PI_FP: i64 = 3_141_593;

/// A quarter turn, in fixed-point radians.
pub const HALF_PI_FP: i64 = 1_570_796;

/// An eighth of a turn, in fixed-point radians.
pub const QUARTER_PI_FP: i64 = 785_398;

/// The linear coefficient of the arctangent correction term.
pub const ATAN_C1_FP: i64 = 244_700;

/// The quadratic coefficient of the arctangent correction term.
pub const ATAN_C2_FP: i64 = 66_300;

/// `r` is the integer square root of `n`.
pub open spec fn is_isqrt(n: int, r: int) -> bool {
    0 <= r && r * r <= n < (r + 1) * (r + 1)
}

/// The integer square root of a nonnegative integer.
pub open spec fn isqrt_of(n: int) -> int
    recommends
        n >= 0,
{
    choose|r: int| #[trigger] is_isqrt(n, r)
}

/// Every nonnegative integer has an integer square root.
pub proof fn lemma_isqrt_exists(n: int)
    requires
        n >= 0,
    ensures
        exists|r: int| #[trigger] is_isqrt(n, r),
    decreases n,
{
    if n == 0 {
        assert(is_isqrt(0, 0)) by (nonlinear_arith);
    } else {
        lemma_isqrt_exists(n - 1);
        let p = choose|r: int| #[trigger] is_isqrt(n - 1, r);
        if (p + 1) * (p + 1) <= n {
            assert(is_isqrt(n, p + 1)) by (nonlinear_arith)
                requires
                    p >= 0,
                    (p + 1) * (p + 1) <= n,
                    n - 1 < (p + 1) * (p + 1),
            ;
        } else {
            assert(is_isqrt(n, p));
        }
    }
}

/// No integer has two integer square roots.
pub proof fn lemma_isqrt_unique(n: int, r1: int, r2: int)
    requires
        is_isqrt(n, r1),
        is_isqrt(n, r2),
    ensures
        r1 == r2,
{
    assert(r1 == r2) by (nonlinear_arith)
        requires
            0 <= r1 && r1 * r1 <= n < (r1 + 1) * (r1 + 1),
            0 <= r2 && r2 * r2 <= n < (r2 + 1) * (r2 + 1),
    ;
}

/// The integer square root, by binary search over 64-bit candidates.
pub fn isqrt_u128(n: u128) -> (r: u64)
    ensures
        is_isqrt(n as int, r as int),
        r as int == isqrt_of(n as int),
{
    let mut lo: u64 = 0;
    let mut hi: u64 = u64::MAX;
    proof {
        assert((u64::MAX as int + 1) * (u64::MAX as int + 1) > u128::MAX as int)
            by (nonlinear_arith);
    }
    while lo < hi
        invariant
            lo <= hi,
            (lo as int) * (lo as int) <= n as int,
            (n as int) < (hi as int + 1) * (hi as int + 1),
        decreases hi - lo,
    {
        let mid = hi - (hi - lo) / 2;
        proof {
            lemma_mul_upper_bound(mid as int, u64::MAX as int, mid as int, u64::MAX as int);
        }
        if (mid as u128) * (mid as u128) <= n {
            lo = mid;
        } else {
            hi = mid - 1;
        }
    }
    proof {
        assert(is_isqrt(n as int, lo as int));
        let w = isqrt_of(n as int);
        assert(is_isqrt(n as int, w)) by {
            lemma_isqrt_exists(n as int);
        }
        lemma_isqrt_unique(n as int, lo as int, w);
    }
    lo
}

/// The length of a displacement, in the same fixed-point unit as its
/// components, saturating at the largest representable value.
pub open spec fn dist_bits(dx: Real, dy: Real) -> int {
    sat64(isqrt_of(dx.bits * dx.bits + dy.bits * dy.bits))
}

/// The length of the displacement `(dx, dy)`.
pub fn fixed_length(dx: Real, dy: Real) -> (r: Real)
    ensures
        r.bits as int == dist_bits(dx, dy),
        r.bits >= 0,
{
    let ax: u128 = if dx.bits >= 0 {
        dx.bits as u128
    } else {
        (-(dx.bits as i128)) as u128
    };
    let ay: u128 = if dy.bits >= 0 {
        dy.bits as u128
    } else {
        (-(dy.bits as i128)) as u128
    };
    proof {
        lemma_mul_upper_bound(ax as int, 0x8000_0000_0000_0000, ax as int, 0x8000_0000_0000_0000);
        lemma_mul_upper_bound(ay as int, 0x8000_0000_0000_0000, ay as int, 0x8000_0000_0000_0000);
        assert((ax as int) * (ax as int) == dx.bits * dx.bits) by (nonlinear_arith)
            requires
                ax as int == abs_val(dx.bits as int),
        ;
        assert((ay as int) * (ay as int) == dy.bits * dy.bits) by (nonlinear_arith)
            requires
                ay as int == abs_val(dy.bits as int),
        ;
    }
    let n: u128 = ax * ax + ay * ay;
    let root = isqrt_u128(n);
    proof {
        lemma_isqrt_exists(n as int);
    }
    if root > i64::MAX as u64 {
        Real { bits: i64::MAX }
    } else {
        Real { bits: root as i64 }
    }
}

/// The value shifted by whole widths until it lies between `min` and
/// `max`; a value already inside is untouched, so both bounds can come
/// back as themselves.
pub open spec fn wrapped(value: int, min: int, max: int) -> int
    recommends
        min < max,
{
    let width = max - min;
    if value < min {
        value + width * ((min - value + width - 1) / width)
    } else if value > max {
        value - width * ((value - max + width - 1) / width)
    } else {
        value
    }
}

/// The ceiling quotient `(a + w - 1) / w` brackets `a` between its
/// neighbouring multiples of `w`.
proof fn lemma_ceil_div(a: int, w: int)
    requires
        a >= 1,
        w >= 1,
    ensures
        ((a + w - 1) / w) * w >= a,
        (((a + w - 1) / w) - 1) * w < a,
        (a + w - 1) / w >= 1,
{
    let k = (a + w - 1) / w;
    lemma_fundamental_div_mod(a + w - 1, w);
    lemma_remainder_upper(a + w - 1, w);
    lemma_remainder_lower(a + w - 1, w);
    let m = (a + w - 1) % w;
    assert(k * w == a + w - 1 - m) by (nonlinear_arith)
        requires
            a + w - 1 == w * k + m,
    ;
    assert((k - 1) * w == k * w - w) by (nonlinear_arith);
    lemma_div_pos_is_pos(a + w - 1, w);
    assert(k >= 1) by (nonlinear_arith)
        requires
            k >= 0,
            k * w >= a,
            a >= 1,
            w >= 1,
    ;
}

/// Reduce a value into `[min, max]` by whole widths, as the wrapped
/// angle arithmetic of the sensor asks.
pub fn wrap(value: Real, min: Real, max: Real) -> (r: Real)
    requires
        min.bits < max.bits,
    ensures
        r.bits as int == wrapped(value.bits as int, min.bits as int, max.bits as int),
        min.bits <= r.bits <= max.bits,
{
    let v = value.bits as i128;
    let mn = min.bits as i128;
    let mx = max.bits as i128;
    let w = mx - mn;
    if v < mn {
        let k = (mn - v + w - 1) / w;
        proof {
            lemma_ceil_div(mn - v, w as int);
            assert(k * w == (k - 1) * w + w) by (nonlinear_arith);
            assert(w * k == k * w) by (nonlinear_arith);
        }
        Real { bits: (v + w * k) as i64 }
    } else if v > mx {
        let k = (v - mx + w - 1) / w;
        proof {
            lemma_ceil_div(v - mx, w as int);
            assert(k * w == (k - 1) * w + w) by (nonlinear_arith);
            assert(w * k == k * w) by (nonlinear_arith);
        }
        Real { bits: (v - w * k) as i64 }
    } else {
        Real { bits: value.bits }
    }
}

/// The arctangent of a ratio in `[0, 1]`, by a quadratic-corrected
/// linear approximation; exact at ratio zero.
pub open spec fn atan_unit(z: Real) -> Real {
    r_add(
        r_mul(z, Real { bits: QUARTER_PI_FP }),
        r_mul(
            r_mul(z, r_sub(Real { bits: UNIT }, z)),
            r_add(Real { bits: ATAN_C1_FP }, r_mul(Real { bits: ATAN_C2_FP }, z)),
        ),
    )
}

/// The magnitude of a value, saturating at the largest representable.
pub open spec fn r_abs(a: Real) -> Real {
    Real { bits: sat64(abs_val(a.bits as int)) as i64 }
}

/// The signed angle of the displacement `(dx, dy)` against the positive
/// horizontal axis, in `(-pi, pi]`: an octant reduction around the
/// approximated arctangent. A zero displacement maps to angle zero.
pub open spec fn spec_atan2(dy: Real, dx: Real) -> Real {
    if dx.bits == 0 && dy.bits == 0 {
        Real { bits: 0 }
    } else if dx.bits == 0 {
        if dy.bits > 0 {
            Real { bits: HALF_PI_FP }
        } else {
            Real { bits: (-HALF_PI_FP) as i64 }
        }
    } else if dy.bits == 0 {
        if dx.bits > 0 {
            Real { bits: 0 }
        } else {
            Real { bits: PI_FP }
        }
    } else {
        let ax = r_abs(dx);
        let ay = r_abs(dy);
        let base = if ay.bits <= ax.bits {
            atan_unit(r_div(ay, ax))
        } else {
            r_sub(Real { bits: HALF_PI_FP }, atan_unit(r_div(ax, ay)))
        };
        let against_axis = if dx.bits > 0 {
            base
        } else {
            r_sub(Real { bits: PI_FP }, base)
        };
        if dy.bits > 0 {
            against_axis
        } else {
            Real { bits: sat64(-against_axis.bits) as i64 }
        }
    }
}

/// The magnitude of a value, saturating at the largest representable.
pub fn abs_real(a: Real) -> (r: Real)
    ensures
        r == r_abs(a),
        r.bits >= 0,
        a.bits != 0 ==> r.bits > 0,
{
    if a.bits >= 0 {
        a
    } else {
        a.negated()
    }
}

/// The signed angle of the displacement `(dx, dy)` against the positive
/// horizontal axis.
pub fn atan2(dy: Real, dx: Real) -> (r: Real)
    ensures
        r == spec_atan2(dy, dx),
{
    if dx.bits == 0 && dy.bits == 0 {
        Real { bits: 0 }
    } else if dx.bits == 0 {
        if dy.bits > 0 {
            Real { bits: HALF_PI_FP }
        } else {
            Real { bits: 0 - HALF_PI_FP }
        }
    } else if dy.bits == 0 {
        if dx.bits > 0 {
            Real { bits: 0 }
        } else {
            Real { bits: PI_FP }
        }
    } else {
        let ax = abs_real(dx);
        let ay = abs_real(dy);
        let base = if ay.bits <= ax.bits {
            atan_unit_exec(ay.over(ax))
        } else {
            Real { bits: HALF_PI_FP }.minus(atan_unit_exec(ax.over(ay)))
        };
        let against_axis = if dx.bits > 0 {
            base
        } else {
            Real { bits: PI_FP }.minus(base)
        };
        if dy.bits > 0 {
            against_axis
        } else {
            against_axis.negated()
        }
    }
}

/// The arctangent of a ratio in `[0, 1]`.
fn atan_unit_exec(z: Real) -> (r: Real)
    ensures
        r == atan_unit(z),
{
    let linear = z.times(Real { bits: QUARTER_PI_FP });
    let correction = z.times(Real { bits: UNIT }.minus(z)).times(
        Real { bits: ATAN_C1_FP }.plus(Real { bits: ATAN_C2_FP }.times(z)),
    );
    linear.plus(correction)
}

} // verus!
