//! A saturating fixed-point real number.
//!
//! A `Real` carries a signed count of millionths, so `1.0` is `1_000_000`
//! units. Addition, subtraction, multiplication and division saturate at
//! the bounds of `i64`; multiplication and division truncate the exact
//! quotient toward zero. Every operation is a total function of its
//! operands, stated exactly by the spec functions of this module.

use vstd::prelude::*;
use vstd::arithmetic::mul::lemma_mul_upper_bound;

verus! {

/// Fixed-point units in one whole: a `Real` counts millionths.
pub const UNIT: i64 = 1_000_000;

/// A real number in saturating fixed point: `bits` millionths.
#[derive(Clone, Copy, Debug, PartialEq, Eq, Structural, Hash)]
pub struct Real {
    pub bits: i64,
}

/// Clamp a mathematical integer into the range of `i64`.
pub open spec fn sat64(i: int) -> int {
    if i > i64::MAX as int {
        i64::MAX as int
    } else if i < i64::MIN as int {
        i64::MIN as int
    } else {
        i
    }
}

/// Absolute value of a mathematical integer.
pub open spec fn abs_val(i: int) -> int {
    if i >= 0 {
        i
    } else {
        -i
    }
}

/// Saturating fixed-point sum.
pub open spec fn r_add(a: Real, b: Real) -> Real {
    Real { bits: sat64(a.bits + b.bits) as i64 }
}

/// Saturating fixed-point difference.
pub open spec fn r_sub(a: Real, b: Real) -> Real {
    Real { bits: sat64(a.bits - b.bits) as i64 }
}

/// Saturating fixed-point product: the exact product of the two values,
/// truncated toward zero to a whole count of millionths.
pub open spec fn r_mul(a: Real, b: Real) -> Real {
    let mag = abs_val(a.bits as int) * abs_val(b.bits as int) / (UNIT as int);
    let v = if (a.bits < 0) == (b.bits < 0) {
        mag
    } else {
        -mag
    };
    Real { bits: sat64(v) as i64 }
}

/// Saturating fixed-point quotient: the exact quotient of the two values,
/// truncated toward zero to a whole count of millionths.
pub open spec fn r_div(a: Real, b: Real) -> Real
    recommends
        b.bits != 0,
{
    let mag = abs_val(a.bits as int) * (UNIT as int) / abs_val(b.bits as int);
    let v = if (a.bits < 0) == (b.bits < 0) {
        mag
    } else {
        -mag
    };
    Real { bits: sat64(v) as i64 }
}

/// Build a `Real` from a sign and a magnitude in millionths, saturating.
fn from_sign_mag(neg: bool, mag: u128) -> (r: Real)
    ensures
        r.bits as int == sat64(if neg { -(mag as int) } else { mag as int }),
{
    if neg {
        if mag >= 9_223_372_036_854_775_808u128 {
            Real { bits: i64::MIN }
        } else {
            Real { bits: -(mag as i64) }
        }
    } else {
        if mag > i64::MAX as u128 {
            Real { bits: i64::MAX }
        } else {
            Real { bits: mag as i64 }
        }
    }
}

/// Magnitude of an `i64` as a `u128`.
fn abs_u128(b: i64) -> (r: u128)
    ensures
        r as int == abs_val(b as int),
{
    if b >= 0 {
        b as u128
    } else {
        (-(b as i128)) as u128
    }
}

impl Real {
    /// The value zero.
    pub fn zero() -> (r: Real)
        ensures
            r.bits == 0,
    {
        Real { bits: 0 }
    }

    /// The value one.
    pub fn one() -> (r: Real)
        ensures
            r.bits == UNIT,
    {
        Real { bits: UNIT }
    }

    /// The largest representable value.
    pub fn max_value() -> (r: Real)
        ensures
            r.bits == i64::MAX,
    {
        Real { bits: i64::MAX }
    }

    /// Build a value from a count of millionths.
    pub fn from_millionths(bits: i64) -> (r: Real)
        ensures
            r.bits == bits,
    {
        Real { bits }
    }

    /// The value as a count of millionths.
    pub fn to_millionths(self) -> (r: i64)
        ensures
            r == self.bits,
    {
        self.bits
    }

    /// Saturating sum.
    pub fn plus(self, other: Real) -> (r: Real)
        ensures
            r == r_add(self, other),
    {
        let s: i128 = self.bits as i128 + other.bits as i128;
        if s > i64::MAX as i128 {
            Real { bits: i64::MAX }
        } else if s < i64::MIN as i128 {
            Real { bits: i64::MIN }
        } else {
            Real { bits: s as i64 }
        }
    }

    /// Saturating difference.
    pub fn minus(self, other: Real) -> (r: Real)
        ensures
            r == r_sub(self, other),
    {
        let s: i128 = self.bits as i128 - other.bits as i128;
        if s > i64::MAX as i128 {
            Real { bits: i64::MAX }
        } else if s < i64::MIN as i128 {
            Real { bits: i64::MIN }
        } else {
            Real { bits: s as i64 }
        }
    }

    /// Saturating, truncating product.
    pub fn times(self, other: Real) -> (r: Real)
        ensures
            r == r_mul(self, other),
    {
        let neg = (self.bits < 0) != (other.bits < 0);
        let ma = abs_u128(self.bits);
        let mb = abs_u128(other.bits);
        proof {
            lemma_mul_upper_bound(
                ma as int,
                0x8000_0000_0000_0000,
                mb as int,
                0x8000_0000_0000_0000,
            );
        }
        let mag: u128 = ma * mb / (UNIT as u128);
        from_sign_mag(neg, mag)
    }

    /// Saturating, truncating quotient.
    pub fn over(self, other: Real) -> (r: Real)
        requires
            other.bits != 0,
        ensures
            r == r_div(self, other),
    {
        let neg = (self.bits < 0) != (other.bits < 0);
        let ma = abs_u128(self.bits);
        let mb = abs_u128(other.bits);
        proof {
            lemma_mul_upper_bound(ma as int, 0x8000_0000_0000_0000, UNIT as int, UNIT as int);
        }
        let mag: u128 = ma * (UNIT as u128) / mb;
        from_sign_mag(neg, mag)
    }

    /// Exact negation would overflow only at `i64::MIN`, where it saturates.
    pub fn negated(self) -> (r: Real)
        ensures
            r.bits as int == sat64(-(self.bits as int)),
    {
        if self.bits == i64::MIN {
            Real { bits: i64::MAX }
        } else {
            Real { bits: -self.bits }
        }
    }
}

} // verus!
