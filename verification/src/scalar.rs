//! Binary floating-point values held by their encoding.
//!
//! The library orders, compares, negates and clamps electrical quantities but
//! never rounds them: rounding arithmetic belongs to the caller. A [`Scalar`]
//! is the 32-bit IEEE 754 encoding of such a quantity and a [`Wide`] the
//! 64-bit one, so everything that depends only on order and sign is exact
//! here.

use vstd::prelude::*;

verus! {

/// Weight of the sign bit in a 32-bit encoding.
pub const SIGN: u32 = 0x8000_0000;

/// Encoding of positive infinity; every larger magnitude is not a number.
pub const INFINITE_MAGNITUDE: u32 = 0x7f80_0000;

/// A single-precision value, by its encoding.
#[derive(Clone, Copy, Debug, PartialEq, Eq, Structural)]
pub struct Scalar {
    pub bits: u32,
}

/// A double-precision value, by its encoding.
#[derive(Clone, Copy, Debug, PartialEq, Eq, Structural)]
pub struct Wide {
    pub bits: u64,
}

/// Positive zero.
#[verifier::allow_in_spec]
pub fn zero() -> Scalar
    returns
        (Scalar { bits: 0 }),
{
    Scalar { bits: 0 }
}

/// One hundred.
#[verifier::allow_in_spec]
pub fn hundred() -> Scalar
    returns
        (Scalar { bits: 0x42c8_0000 }),
{
    Scalar { bits: 0x42c8_0000 }
}

/// The lowest finite value.
#[verifier::allow_in_spec]
pub fn lowest() -> Scalar
    returns
        (Scalar { bits: 0xff7f_ffff }),
{
    Scalar { bits: 0xff7f_ffff }
}

/// Positive infinity.
#[verifier::allow_in_spec]
pub fn infinity() -> Scalar
    returns
        (Scalar { bits: 0x7f80_0000 }),
{
    Scalar { bits: 0x7f80_0000 }
}

/// Negative infinity.
#[verifier::allow_in_spec]
pub fn neg_infinity() -> Scalar
    returns
        (Scalar { bits: 0xff80_0000 }),
{
    Scalar { bits: 0xff80_0000 }
}

/// Double-precision positive zero.
#[verifier::allow_in_spec]
pub fn wide_zero() -> Wide
    returns
        (Wide { bits: 0 }),
{
    Wide { bits: 0 }
}

impl Scalar {
    /// The encoding without its sign.
    pub open spec fn spec_magnitude(self) -> int {
        if self.bits < SIGN {
            self.bits as int
        } else {
            self.bits - SIGN
        }
    }

    /// Not a number: compares false with everything, itself included.
    pub open spec fn spec_is_nan(self) -> bool {
        self.spec_magnitude() > INFINITE_MAGNITUDE
    }

    /// Position on the number line. Two values that are not NaN compare as
    /// their ranks do; both zeros have rank zero.
    pub open spec fn spec_rank(self) -> int {
        if self.bits < SIGN {
            self.bits as int
        } else {
            SIGN - self.bits
        }
    }

    /// `self < other` as the hardware compares them.
    pub open spec fn spec_below(self, other: Scalar) -> bool {
        !self.spec_is_nan() && !other.spec_is_nan() && self.spec_rank() < other.spec_rank()
    }

    /// `self <= other` as the hardware compares them.
    pub open spec fn spec_at_most(self, other: Scalar) -> bool {
        !self.spec_is_nan() && !other.spec_is_nan() && self.spec_rank() <= other.spec_rank()
    }

    /// The greater of the two; a NaN yields to the other side.
    pub open spec fn spec_greater(self, other: Scalar) -> Scalar {
        if self.spec_is_nan() || self.spec_below(other) {
            other
        } else {
            self
        }
    }

    /// The lesser of the two; a NaN yields to the other side.
    pub open spec fn spec_lesser(self, other: Scalar) -> Scalar {
        if self.spec_is_nan() || other.spec_below(self) {
            other
        } else {
            self
        }
    }

    /// `self` pulled into `[lower, upper]`; a NaN stays.
    pub open spec fn spec_clamped(self, lower: Scalar, upper: Scalar) -> Scalar {
        if self.spec_below(lower) {
            lower
        } else if upper.spec_below(self) {
            upper
        } else {
            self
        }
    }

    /// Sign flipped.
    pub open spec fn spec_negated(self) -> Scalar {
        if self.bits < SIGN {
            Scalar { bits: (self.bits + SIGN) as u32 }
        } else {
            Scalar { bits: (self.bits - SIGN) as u32 }
        }
    }

    /// Sign dropped.
    pub open spec fn spec_absolute(self) -> Scalar {
        if self.bits < SIGN {
            self
        } else {
            Scalar { bits: (self.bits - SIGN) as u32 }
        }
    }

    /// Neither infinite nor NaN.
    pub open spec fn spec_is_finite(self) -> bool {
        self.spec_magnitude() < INFINITE_MAGNITUDE
    }

    pub fn from_bits(bits: u32) -> (out: Scalar)
        ensures
            out.bits == bits,
    {
        Scalar { bits }
    }

    pub fn rank(self) -> (out: i64)
        ensures
            out == self.spec_rank(),
            -SIGN < out < SIGN,
    {
        if self.bits < SIGN {
            self.bits as i64
        } else {
            0 - (self.bits - SIGN) as i64
        }
    }

    pub fn is_nan(self) -> (out: bool)
        ensures
            out == self.spec_is_nan(),
    {
        if self.bits < SIGN {
            self.bits > INFINITE_MAGNITUDE
        } else {
            self.bits - SIGN > INFINITE_MAGNITUDE
        }
    }

    pub fn is_finite(self) -> (out: bool)
        ensures
            out == self.spec_is_finite(),
    {
        if self.bits < SIGN {
            self.bits < INFINITE_MAGNITUDE
        } else {
            self.bits - SIGN < INFINITE_MAGNITUDE
        }
    }

    pub fn below(self, other: Scalar) -> (out: bool)
        ensures
            out == self.spec_below(other),
    {
        !self.is_nan() && !other.is_nan() && self.rank() < other.rank()
    }

    pub fn at_most(self, other: Scalar) -> (out: bool)
        ensures
            out == self.spec_at_most(other),
    {
        !self.is_nan() && !other.is_nan() && self.rank() <= other.rank()
    }

    pub fn greater(self, other: Scalar) -> (out: Scalar)
        ensures
            out == self.spec_greater(other),
    {
        if self.is_nan() || self.below(other) {
            other
        } else {
            self
        }
    }

    pub fn lesser(self, other: Scalar) -> (out: Scalar)
        ensures
            out == self.spec_lesser(other),
    {
        if self.is_nan() || other.below(self) {
            other
        } else {
            self
        }
    }

    /// Pulls `self` into `[lower, upper]`, which has to be a range.
    pub fn clamp(self, lower: Scalar, upper: Scalar) -> (out: Scalar)
        requires
            lower.spec_at_most(upper),
        ensures
            out == self.spec_clamped(lower, upper),
            !self.spec_is_nan() ==> lower.spec_at_most(out) && out.spec_at_most(upper),
    {
        if self.below(lower) {
            lower
        } else if upper.below(self) {
            upper
        } else {
            self
        }
    }

    pub fn negate(self) -> (out: Scalar)
        ensures
            out == self.spec_negated(),
            out.spec_rank() == -self.spec_rank(),
            out.spec_is_nan() == self.spec_is_nan(),
    {
        if self.bits < SIGN {
            Scalar { bits: self.bits + SIGN }
        } else {
            Scalar { bits: self.bits - SIGN }
        }
    }

    pub fn absolute(self) -> (out: Scalar)
        ensures
            out == self.spec_absolute(),
    {
        if self.bits < SIGN {
            self
        } else {
            Scalar { bits: self.bits - SIGN }
        }
    }
}

impl Wide {
    /// Position on the number line, as for [`Scalar::spec_rank`].
    pub open spec fn spec_rank(self) -> int {
        if self.bits < 0x8000_0000_0000_0000 {
            self.bits as int
        } else {
            0x8000_0000_0000_0000 - self.bits
        }
    }

    pub fn rank(self) -> (out: i64)
        ensures
            out == self.spec_rank(),
    {
        if self.bits < 0x8000_0000_0000_0000 {
            self.bits as i64
        } else {
            0 - (self.bits - 0x8000_0000_0000_0000) as i64
        }
    }

    /// Not a number.
    pub open spec fn spec_is_nan(self) -> bool {
        self.spec_rank() > 0x7ff0_0000_0000_0000 || self.spec_rank() < -0x7ff0_0000_0000_0000
    }

    /// Neither infinite nor NaN.
    pub open spec fn spec_is_finite(self) -> bool {
        -0x7ff0_0000_0000_0000 < self.spec_rank() < 0x7ff0_0000_0000_0000
    }

    pub fn is_finite(self) -> (out: bool)
        ensures
            out == self.spec_is_finite(),
    {
        let rank: i64 = self.rank();
        -0x7ff0_0000_0000_0000 < rank && rank < 0x7ff0_0000_0000_0000
    }

    /// `self < other` as the hardware compares them.
    pub open spec fn spec_below(self, other: Wide) -> bool {
        !self.spec_is_nan() && !other.spec_is_nan() && self.spec_rank() < other.spec_rank()
    }

    pub fn below(self, other: Wide) -> (out: bool)
        ensures
            out == self.spec_below(other),
    {
        let a: i64 = self.rank();
        let b: i64 = other.rank();
        let limit: i64 = 0x7ff0_0000_0000_0000;
        a <= limit && a >= -limit && b <= limit && b >= -limit && a < b
    }
}

/// The order of numbers is total: of two values that are numbers, one is below
/// the other or both have the same rank.
pub proof fn order_is_total(a: Scalar, b: Scalar)
    requires
        !a.spec_is_nan(),
        !b.spec_is_nan(),
    ensures
        a.spec_below(b) || b.spec_below(a) || a.spec_rank() == b.spec_rank(),
        a.spec_at_most(b) == !b.spec_below(a),
{
}

/// Comparing is comparing ranks, and no comparison holds for a NaN.
pub proof fn comparisons_follow_the_rank(a: Scalar, b: Scalar)
    ensures
        a.spec_below(b) ==> a.spec_rank() < b.spec_rank() && a.spec_at_most(b) && !b.spec_at_most(
            a,
        ),
        a.spec_at_most(b) ==> a.spec_rank() <= b.spec_rank(),
        !a.spec_is_nan() && !b.spec_is_nan() ==> a.spec_below(b) == (a.spec_rank()
            < b.spec_rank()) && a.spec_at_most(b) == (a.spec_rank() <= b.spec_rank()),
        a.spec_is_nan() || b.spec_is_nan() ==> !a.spec_below(b) && !a.spec_at_most(b),
        a.spec_is_nan() == !a.spec_at_most(a),
{
}

/// Positive values ascend with their encoding, negative ones descend, and the
/// two zeros are equal.
pub proof fn encodings_ascend(a: Scalar, b: Scalar)
    ensures
        a.bits < b.bits && b.bits < SIGN ==> a.spec_rank() < b.spec_rank(),
        SIGN <= a.bits && a.bits < b.bits ==> b.spec_rank() < a.spec_rank(),
        SIGN < a.bits && b.bits < SIGN ==> a.spec_rank() < b.spec_rank(),
        a.spec_rank() == b.spec_rank() ==> a.bits == b.bits || (a.spec_magnitude() == 0
            && b.spec_magnitude() == 0),
        neg_infinity().spec_at_most(a) || a.spec_is_nan(),
        a.spec_at_most(infinity()) || a.spec_is_nan(),
        a.spec_is_finite() == (neg_infinity().spec_below(a) && a.spec_below(infinity())),
{
}

/// A clamp leaves what lies within, and moves what lies outside to the nearer
/// end.
pub proof fn clamp_moves_only_what_is_outside(x: Scalar, lower: Scalar, upper: Scalar)
    requires
        lower.spec_at_most(upper),
    ensures
        lower.spec_at_most(x) && x.spec_at_most(upper) ==> x.spec_clamped(lower, upper) == x,
        x.spec_below(lower) ==> x.spec_clamped(lower, upper) == lower,
        upper.spec_below(x) ==> x.spec_clamped(lower, upper) == upper,
        x.spec_is_nan() ==> x.spec_clamped(lower, upper) == x,
{
}

/// The greater of two is one of them and at least either; the lesser is the
/// other way round. A NaN gives way.
pub proof fn greater_and_lesser_pick(a: Scalar, b: Scalar)
    ensures
        a.spec_greater(b) == a || a.spec_greater(b) == b,
        a.spec_lesser(b) == a || a.spec_lesser(b) == b,
        !a.spec_is_nan() ==> a.spec_at_most(a.spec_greater(b)) && a.spec_lesser(b).spec_at_most(a),
        !b.spec_is_nan() ==> b.spec_at_most(a.spec_greater(b)) && a.spec_lesser(b).spec_at_most(b),
        a.spec_is_nan() ==> a.spec_greater(b) == b && a.spec_lesser(b) == b,
        b.spec_is_nan() && !a.spec_is_nan() ==> a.spec_greater(b) == a && a.spec_lesser(b) == a,
        !a.spec_is_nan() && !b.spec_is_nan() && a.spec_rank() == b.spec_rank() ==> a.spec_greater(b)
            == a && a.spec_lesser(b) == a,
{
}

/// Negating turns the order round and back; a size is the value without its
/// sign.
pub proof fn negation_mirrors(a: Scalar, b: Scalar)
    ensures
        a.spec_negated().spec_rank() == -a.spec_rank(),
        a.spec_negated().spec_negated() == a,
        a.spec_below(b) ==> b.spec_negated().spec_below(a.spec_negated()),
        a.spec_negated().spec_is_nan() == a.spec_is_nan(),
        a.spec_absolute().spec_rank() == (if a.spec_rank() < 0 {
            -a.spec_rank()
        } else {
            a.spec_rank()
        }),
        a.spec_absolute() == a.spec_negated().spec_absolute(),
{
}

/// Double-precision values compare by rank, and one that is not a number
/// compares with nothing.
pub proof fn wide_comparisons_follow_the_rank(a: Wide, b: Wide)
    ensures
        !a.spec_is_nan() && !b.spec_is_nan() ==> a.spec_below(b) == (a.spec_rank()
            < b.spec_rank()),
        a.spec_is_nan() || b.spec_is_nan() ==> !a.spec_below(b),
        a.bits < b.bits && b.bits < 0x8000_0000_0000_0000 ==> a.spec_rank() < b.spec_rank(),
        0x8000_0000_0000_0000 <= a.bits && a.bits < b.bits ==> b.spec_rank() < a.spec_rank(),
        0x8000_0000_0000_0000 < a.bits && b.bits < 0x8000_0000_0000_0000 ==> a.spec_rank()
            < b.spec_rank(),
        a.spec_is_finite() ==> !a.spec_is_nan(),
{
}

/// The sign alone mirrors a double-precision value, and the infinities are
/// neither finite nor not a number.
pub proof fn wide_sign_mirrors(a: Wide, b: Wide)
    ensures
        a.bits < 0x8000_0000_0000_0000 && b.bits == a.bits + 0x8000_0000_0000_0000
            ==> b.spec_rank() == -a.spec_rank(),
        a.spec_rank() == 0x7ff0_0000_0000_0000 || a.spec_rank() == -0x7ff0_0000_0000_0000
            <==> !a.spec_is_finite() && !a.spec_is_nan(),
{
}

} // verus!
