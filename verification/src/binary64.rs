//! IEEE-754 binary64 numbers, held as their 64-bit encodings, and their orders.
//!
//! Every comparison is exact integer arithmetic on the encoding, so that each
//! rule of the library that compares lengths, angles, speeds or likelihoods is
//! proved of the very bits that the rule reads.
use vstd::prelude::*;

verus! {

/// The weight of the sign bit.
pub const SIGN_BIT: u64 = 0x8000_0000_0000_0000;

/// The weight of the lowest exponent bit: two to the power 52.
pub const FRACTION_SPAN: u64 = 0x10_0000_0000_0000;

/// The magnitude of the infinities; larger magnitudes are not numbers.
pub const INFINITE_MAGNITUDE: u64 = 0x7ff0_0000_0000_0000;

/// The positive quiet value that stands for every undefined result.
pub const NOT_A_NUMBER: u64 = 0x7ff8_0000_0000_0000;

/// 0.0
pub const ZERO: u64 = 0;

/// 0.5
pub const HALF: u64 = 0x3fe0_0000_0000_0000;

/// 1.0
pub const ONE: u64 = 0x3ff0_0000_0000_0000;

/// 2.0
pub const TWO: u64 = 0x4000_0000_0000_0000;

/// 3.0
pub const THREE: u64 = 0x4008_0000_0000_0000;

/// 180.0
pub const HALF_TURN: u64 = 0x4066_8000_0000_0000;

/// 360.0
pub const FULL_TURN: u64 = 0x4076_8000_0000_0000;

/// A binary64 number. Structural equality compares encodings; `equals` compares
/// the numbers that they stand for.
#[derive(Clone, Copy, PartialEq, Eq, Structural, Debug)]
pub struct Binary64 {
    /// Sign bit, eleven exponent bits, fifty-two fraction bits.
    pub bits: u64,
}

/// The number with the given encoding, as a specification.
pub open spec fn spec_number(bits: u64) -> Binary64 {
    Binary64 { bits }
}

/// The number with the given encoding.
#[verifier::when_used_as_spec(spec_number)]
pub fn number(bits: u64) -> (r: Binary64)
    ensures
        r == spec_number(bits),
{
    Binary64 { bits }
}

/// The number with the given sign and magnitude bits.
pub open spec fn signed(negative: bool, magnitude: int) -> Binary64 {
    Binary64 { bits: (if negative { SIGN_BIT + magnitude } else { magnitude }) as u64 }
}

impl Binary64 {
    /// Whether the sign bit is set.
    pub open spec fn spec_is_negative(self) -> bool {
        self.bits >= SIGN_BIT
    }

    /// The encoding without its sign bit.
    pub open spec fn spec_magnitude(self) -> u64 {
        if self.bits >= SIGN_BIT {
            (self.bits - SIGN_BIT) as u64
        } else {
            self.bits
        }
    }

    /// Whether the encoding stands for no number.
    pub open spec fn spec_is_nan(self) -> bool {
        self.spec_magnitude() > INFINITE_MAGNITUDE
    }

    /// Whether the encoding stands for an infinity.
    pub open spec fn spec_is_infinite(self) -> bool {
        self.spec_magnitude() == INFINITE_MAGNITUDE
    }

    /// Whether the encoding stands for a finite number.
    pub open spec fn spec_is_finite(self) -> bool {
        self.spec_magnitude() < INFINITE_MAGNITUDE
    }

    /// Whether the encoding is a zero of either sign.
    pub open spec fn spec_is_zero(self) -> bool {
        self.spec_magnitude() == 0
    }

    /// The rank of a number among all numbers; both zeros have rank zero.
    pub open spec fn ordinal(self) -> int {
        if self.spec_is_negative() {
            -(self.spec_magnitude() as int)
        } else {
            self.spec_magnitude() as int
        }
    }

    /// The rank of an encoding in the order that tells every two encodings apart:
    /// negative undefined values, negative infinity, negative numbers, negative
    /// zero, zero, and so on up to the positive undefined values.
    pub open spec fn total_rank(self) -> int {
        if self.spec_is_negative() {
            -(self.spec_magnitude() as int) - 1
        } else {
            self.spec_magnitude() as int
        }
    }

    /// Numeric `<`; false whenever a side is no number.
    pub open spec fn spec_less(self, other: Binary64) -> bool {
        !self.spec_is_nan() && !other.spec_is_nan() && self.ordinal() < other.ordinal()
    }

    /// Numeric `<=`; false whenever a side is no number.
    pub open spec fn spec_at_most(self, other: Binary64) -> bool {
        !self.spec_is_nan() && !other.spec_is_nan() && self.ordinal() <= other.ordinal()
    }

    /// Numeric `==`: the zeros are equal, and what is no number equals nothing.
    pub open spec fn spec_equals(self, other: Binary64) -> bool {
        !self.spec_is_nan() && !other.spec_is_nan() && self.ordinal() == other.ordinal()
    }

    /// The number with the opposite sign.
    pub open spec fn spec_negated(self) -> Binary64 {
        signed(!self.spec_is_negative(), self.spec_magnitude() as int)
    }

    /// The number without its sign.
    pub open spec fn spec_absolute(self) -> Binary64 {
        Binary64 { bits: self.spec_magnitude() }
    }

    /// The smaller of two numbers; what is no number gives way to the other.
    pub open spec fn spec_min(self, other: Binary64) -> Binary64 {
        if self.spec_is_nan() {
            other
        } else if other.spec_less(self) {
            other
        } else {
            self
        }
    }

    /// The larger of two numbers; what is no number gives way to the other.
    pub open spec fn spec_max(self, other: Binary64) -> Binary64 {
        if self.spec_is_nan() {
            other
        } else if self.spec_less(other) {
            other
        } else {
            self
        }
    }

    /// The number moved to the nearer of two bounds where it lies outside them.
    pub open spec fn spec_clamp(self, low: Binary64, high: Binary64) -> Binary64 {
        if self.spec_less(low) {
            low
        } else if high.spec_less(self) {
            high
        } else {
            self
        }
    }

    /// Whether the sign bit is set.
    #[verifier::when_used_as_spec(spec_is_negative)]
    pub fn is_negative(self) -> (r: bool)
        ensures
            r == self.spec_is_negative(),
    {
        self.bits >= SIGN_BIT
    }

    /// The encoding without its sign bit.
    #[verifier::when_used_as_spec(spec_magnitude)]
    pub fn magnitude(self) -> (r: u64)
        ensures
            r == self.spec_magnitude(),
    {
        if self.bits >= SIGN_BIT {
            self.bits - SIGN_BIT
        } else {
            self.bits
        }
    }

    /// Whether the encoding stands for no number.
    #[verifier::when_used_as_spec(spec_is_nan)]
    pub fn is_nan(self) -> (r: bool)
        ensures
            r == self.spec_is_nan(),
    {
        self.magnitude() > INFINITE_MAGNITUDE
    }

    /// Whether the encoding stands for an infinity.
    #[verifier::when_used_as_spec(spec_is_infinite)]
    pub fn is_infinite(self) -> (r: bool)
        ensures
            r == self.spec_is_infinite(),
    {
        self.magnitude() == INFINITE_MAGNITUDE
    }

    /// Whether the encoding stands for a finite number.
    #[verifier::when_used_as_spec(spec_is_finite)]
    pub fn is_finite(self) -> (r: bool)
        ensures
            r == self.spec_is_finite(),
    {
        self.magnitude() < INFINITE_MAGNITUDE
    }

    /// Whether the encoding is a zero of either sign.
    #[verifier::when_used_as_spec(spec_is_zero)]
    pub fn is_zero(self) -> (r: bool)
        ensures
            r == self.spec_is_zero(),
    {
        self.magnitude() == 0
    }

    /// The rank of a number among all numbers, as a machine integer.
    pub fn order_key(self) -> (r: i64)
        ensures
            r == self.ordinal(),
    {
        let magnitude: i64 = self.magnitude() as i64;
        if self.is_negative() {
            -magnitude
        } else {
            magnitude
        }
    }

    /// Numeric `<`; false whenever a side is no number.
    #[verifier::when_used_as_spec(spec_less)]
    pub fn less(self, other: Binary64) -> (r: bool)
        ensures
            r == self.spec_less(other),
    {
        !self.is_nan() && !other.is_nan() && self.order_key() < other.order_key()
    }

    /// Numeric `<=`; false whenever a side is no number.
    #[verifier::when_used_as_spec(spec_at_most)]
    pub fn at_most(self, other: Binary64) -> (r: bool)
        ensures
            r == self.spec_at_most(other),
    {
        !self.is_nan() && !other.is_nan() && self.order_key() <= other.order_key()
    }

    /// Numeric `==`: the zeros are equal, and what is no number equals nothing.
    #[verifier::when_used_as_spec(spec_equals)]
    pub fn equals(self, other: Binary64) -> (r: bool)
        ensures
            r == self.spec_equals(other),
    {
        !self.is_nan() && !other.is_nan() && self.order_key() == other.order_key()
    }

    /// Whether this encoding comes before the other in the order that tells
    /// every two encodings apart.
    pub fn totally_before(self, other: Binary64) -> (r: bool)
        ensures
            r == (self.total_rank() < other.total_rank()),
    {
        if self.is_negative() {
            !other.is_negative() || self.magnitude() > other.magnitude()
        } else {
            !other.is_negative() && self.magnitude() < other.magnitude()
        }
    }

    /// The number with the opposite sign.
    #[verifier::when_used_as_spec(spec_negated)]
    pub fn negated(self) -> (r: Binary64)
        ensures
            r == self.spec_negated(),
    {
        if self.bits >= SIGN_BIT {
            Binary64 { bits: self.bits - SIGN_BIT }
        } else {
            Binary64 { bits: self.bits + SIGN_BIT }
        }
    }

    /// The number without its sign.
    #[verifier::when_used_as_spec(spec_absolute)]
    pub fn absolute(self) -> (r: Binary64)
        ensures
            r == self.spec_absolute(),
    {
        Binary64 { bits: self.magnitude() }
    }

    /// The smaller of two numbers; what is no number gives way to the other.
    #[verifier::when_used_as_spec(spec_min)]
    pub fn min(self, other: Binary64) -> (r: Binary64)
        ensures
            r == self.spec_min(other),
    {
        if self.is_nan() || other.less(self) {
            other
        } else {
            self
        }
    }

    /// The larger of two numbers; what is no number gives way to the other.
    #[verifier::when_used_as_spec(spec_max)]
    pub fn max(self, other: Binary64) -> (r: Binary64)
        ensures
            r == self.spec_max(other),
    {
        if self.is_nan() || self.less(other) {
            other
        } else {
            self
        }
    }

    /// The number moved to the nearer of two bounds where it lies outside them.
    #[verifier::when_used_as_spec(spec_clamp)]
    pub fn clamp(self, low: Binary64, high: Binary64) -> (r: Binary64)
        ensures
            r == self.spec_clamp(low, high),
    {
        if self.less(low) {
            low
        } else if high.less(self) {
            high
        } else {
            self
        }
    }
}

/// On numbers, exactly one of less, equal and greater holds.
pub proof fn law_numbers_are_ordered(a: Binary64, b: Binary64)
    requires
        !a.is_nan(),
        !b.is_nan(),
    ensures
        a.less(b) || a.equals(b) || b.less(a),
        !(a.less(b) && a.equals(b)),
        !(a.less(b) && b.less(a)),
        a.at_most(b) <==> a.less(b) || a.equals(b),
{
}

/// What is no number is neither less than, equal to nor greater than anything.
pub proof fn law_undefined_is_unordered(a: Binary64, b: Binary64)
    requires
        a.is_nan() || b.is_nan(),
    ensures
        !a.less(b) && !b.less(a) && !a.at_most(b) && !a.equals(b),
{
}

/// The total order tells every two encodings apart and refines `<`.
pub proof fn law_total_order(a: Binary64, b: Binary64)
    ensures
        a.total_rank() == b.total_rank() <==> a == b,
        a.less(b) ==> a.total_rank() < b.total_rank(),
{
}

/// A clamped number lies between its bounds, and one inside them is unchanged.
pub proof fn law_clamp(x: Binary64, low: Binary64, high: Binary64)
    requires
        !x.is_nan(),
        low.at_most(high),
    ensures
        low.at_most(x.clamp(low, high)),
        x.clamp(low, high).at_most(high),
        low.at_most(x) && x.at_most(high) ==> x.clamp(low, high) == x,
{
}

} // verus!
