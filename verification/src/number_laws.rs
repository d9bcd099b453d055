//! What holds of numbers and their arithmetic, from the encodings up.
use vstd::arithmetic::div_mod::{lemma_fundamental_div_mod, lemma_mod_bound};
use vstd::arithmetic::power2::{lemma_pow2_pos, pow2};
use vstd::prelude::*;

use crate::arithmetic::{nearest_whole, signed_units};
use crate::binary64::{number, signed, Binary64};
use crate::rounding::{half_even, nearest, scale, units};

verus! {

/// The top bit of an encoding is the sign. The rest of it is a finite number up to a limit, an
/// infinity there, and no number beyond it.
pub proof fn law_encodings_are_numbers_up_to_infinity(x: Binary64)
    ensures
        x.is_negative() <==> x.bits >= 0x8000_0000_0000_0000,
        x.is_negative() ==> x.magnitude() == x.bits - 0x8000_0000_0000_0000,
        !x.is_negative() ==> x.magnitude() == x.bits,
        x.is_finite() <==> x.magnitude() < 0x7ff0_0000_0000_0000,
        x.is_infinite() <==> x.magnitude() == 0x7ff0_0000_0000_0000,
        x.is_nan() <==> x.magnitude() > 0x7ff0_0000_0000_0000,
        x.is_zero() <==> x.bits == 0 || x.bits == 0x8000_0000_0000_0000,
{
}

/// A finite number is a whole number of units of two to the power -1074: of those that its
/// fraction says where its exponent is nothing, and otherwise of as many more as a fraction
/// has, doubled once for every exponent beyond the first.
pub proof fn law_numbers_are_whole_numbers_of_units(magnitude: u64)
    ensures
        magnitude < 0x10_0000_0000_0000 ==> units(magnitude) == magnitude * pow2(0),
        magnitude >= 0x10_0000_0000_0000 ==> units(magnitude) == (0x10_0000_0000_0000 + magnitude
            % 0x10_0000_0000_0000) * pow2((magnitude / 0x10_0000_0000_0000 - 1) as nat),
{
}

/// The negative of a number has the other sign and the same size; a number without its sign
/// has its size. Negating twice gives the number back.
pub proof fn law_signs_are_turned(x: Binary64)
    ensures
        x.negated().is_negative() != x.is_negative(),
        x.negated().magnitude() == x.magnitude(),
        x.negated().negated() == x,
        !x.absolute().is_negative(),
        x.absolute().magnitude() == x.magnitude(),
        signed_units(x.negated()) == -signed_units(x),
{
}

/// The smaller of two numbers is one of them and at most either; the larger is one of them and
/// at least either. What is no number gives way to the other.
pub proof fn law_the_smaller_and_the_larger(a: Binary64, b: Binary64)
    ensures
        a.min(b) == a || a.min(b) == b,
        a.max(b) == a || a.max(b) == b,
        !a.is_nan() && !b.is_nan() ==> a.min(b).at_most(a) && a.min(b).at_most(b),
        !a.is_nan() && !b.is_nan() ==> a.at_most(a.max(b)) && b.at_most(a.max(b)),
        a.is_nan() ==> a.min(b) == b && a.max(b) == b,
        b.is_nan() ==> a.min(b) == a || a.is_nan(),
        b.is_nan() ==> a.max(b) == a || a.is_nan(),
{
}

/// A quotient is rounded to the nearest natural number: none lies nearer. Of two as near, the
/// even one is taken.
pub proof fn law_quotients_are_rounded_half_to_even(n: nat, d: nat)
    requires
        d > 0,
    ensures
        -(d as int) <= 2 * (n - half_even(n, d) * d) <= d,
        2 * (n - half_even(n, d) * d) == d || 2 * (n - half_even(n, d) * d) == -(d as int)
            ==> half_even(n, d) % 2 == 0,
{
    let q = (n / d) as int;
    let r = (n % d) as int;
    lemma_fundamental_div_mod(n as int, d as int);
    lemma_mod_bound(n as int, d as int);
    assert(q * d == d * q) by (nonlinear_arith);
    assert((q + 1) * d == q * d + d) by (nonlinear_arith);
}

/// A number of units is rounded to as many significant places as there are: what is below the
/// limit of significands stays whole, and what is not is divided by the least power of two
/// that brings it there. What exceeds the finite numbers is infinite.
pub proof fn law_units_are_rounded_to_the_places_there_are(n: nat, d: nat)
    requires
        d > 0,
    ensures
        ({
            let k = scale(n, d);
            let encoded = k * 0x10_0000_0000_0000 + half_even(n, d * pow2(k));
            &&& n < d * 0x20_0000_0000_0000 ==> k == 0
            &&& n >= d * 0x20_0000_0000_0000 ==> k == 1 + scale(n, 2 * d)
            &&& encoded < 0x7ff0_0000_0000_0000 ==> nearest(n, d) == encoded
            &&& encoded >= 0x7ff0_0000_0000_0000 ==> nearest(n, d) == 0x7ff0_0000_0000_0000
        }),
{
}

/// A sum of finite numbers is the exact one, rounded. Where that is nothing it is negative
/// only where both are.
pub proof fn law_sums_are_rounded(a: Binary64, b: Binary64)
    requires
        a.is_finite(),
        b.is_finite(),
    ensures
        ({
            let total = signed_units(a) + signed_units(b);
            &&& total > 0 ==> a.plus(b) == signed(false, nearest(total as nat, 1) as int)
            &&& total < 0 ==> a.plus(b) == signed(true, nearest((-total) as nat, 1) as int)
            &&& total == 0 ==> a.plus(b) == signed(a.is_negative() && b.is_negative(), 0)
        }),
        a.minus(b) == a.plus(b.negated()),
{
    reveal(Binary64::spec_plus);
}

/// An infinity stays itself in a sum, but for one with the opposite infinity, which is no
/// number; nor is one with what is none.
pub proof fn law_infinities_swallow_sums(a: Binary64, b: Binary64)
    requires
        !a.is_finite() || !b.is_finite(),
    ensures
        a.is_nan() || b.is_nan() ==> a.plus(b).is_nan(),
        a.is_infinite() && b.is_infinite() && a.is_negative() != b.is_negative() ==> a.plus(
            b,
        ).is_nan(),
        a.is_infinite() && !b.is_nan() && (b.is_finite() || a.is_negative() == b.is_negative())
            ==> a.plus(b) == a,
        a.is_finite() && b.is_infinite() ==> a.plus(b) == b,
{
    reveal(Binary64::spec_plus);
}

/// A product of finite numbers is the exact one, rounded, negative where one of them is.
pub proof fn law_products_are_rounded(a: Binary64, b: Binary64)
    ensures
        a.is_finite() && b.is_finite() ==> a.times(b) == signed(
            a.is_negative() != b.is_negative(),
            nearest(units(a.magnitude()) * units(b.magnitude()), pow2(1074)) as int,
        ),
        a.is_nan() || b.is_nan() ==> a.times(b).is_nan(),
        a.is_infinite() && b.is_zero() ==> a.times(b).is_nan() && b.times(a).is_nan(),
        a.is_infinite() && !b.is_nan() && !b.is_zero() ==> {
            &&& a.times(b).is_infinite()
            &&& a.times(b).is_negative() == (a.is_negative() != b.is_negative())
            &&& b.times(a) == a.times(b)
        },
{
    reveal(Binary64::spec_times);
}

/// A quotient of finite numbers is the exact one, rounded, negative where one of them is.
pub proof fn law_quotients_are_rounded(a: Binary64, b: Binary64)
    ensures
        a.is_finite() && b.is_finite() && !b.is_zero() ==> a.over(b) == signed(
            a.is_negative() != b.is_negative(),
            nearest(units(a.magnitude()) * pow2(1074), units(b.magnitude())) as int,
        ),
        a.is_nan() || b.is_nan() ==> a.over(b).is_nan(),
        a.is_zero() && b.is_zero() ==> a.over(b).is_nan(),
        a.is_infinite() && b.is_infinite() ==> a.over(b).is_nan(),
        a.is_finite() && !a.is_zero() && b.is_zero() ==> a.over(b).is_infinite(),
        a.is_infinite() && b.is_finite() ==> a.over(b).is_infinite(),
        a.is_finite() && b.is_infinite() ==> a.over(b).is_zero(),
        !a.is_nan() && !b.is_nan() && !a.over(b).is_nan() ==> a.over(b).is_negative() == (
        a.is_negative() != b.is_negative()),
{
    reveal(Binary64::spec_over);
    lemma_pow2_pos(1074);
}

/// The remainder by a turn has the sign of the number, and the turn is added once where it is
/// below nothing.
pub proof fn law_remainders_are_taken_of_whole_turns(a: Binary64, b: Binary64)
    requires
        a.is_finite(),
        b.is_finite(),
        !b.is_zero(),
    ensures
        ({
            let left = units(a.magnitude()) % units(b.magnitude());
            let rest = signed(a.is_negative(), nearest(left, 1) as int);
            &&& rest.less(number(0)) ==> a.rem_euclid(b) == rest.plus(b.absolute())
            &&& !rest.less(number(0)) ==> a.rem_euclid(b) == rest
        }),
{
    reveal(Binary64::spec_remainder);
}

/// A number is rounded to the nearest natural number, halves up; to nothing below zero or
/// where it is no number, and to the largest machine integer at most.
pub proof fn law_numbers_are_rounded_to_natural_ones(x: Binary64)
    ensures
        ({
            let one = pow2(1074);
            let n = x.to_integer();
            &&& x.is_nan() || x.is_negative() ==> n == 0
            &&& x.is_infinite() && !x.is_negative() ==> n == u64::MAX
            &&& x.is_finite() && !x.is_negative() && n < u64::MAX ==> {
                &&& 2 * (n * one) <= 2 * units(x.magnitude()) + one
                &&& 2 * units(x.magnitude()) + one < 2 * ((n + 1) * one)
            }
        }),
{
    reveal(Binary64::spec_to_integer);
    let one = pow2(1074);
    lemma_pow2_pos(1074);
    if x.is_finite() && !x.is_negative() && x.to_integer() < u64::MAX {
        let doubled = 2 * units(x.magnitude()) + one;
        let w = nearest_whole(x.magnitude()) as int;
        lemma_fundamental_div_mod(doubled as int, (2 * one) as int);
        lemma_mod_bound(doubled as int, (2 * one) as int);
        assert((2 * one) * w == 2 * (w * one)) by (nonlinear_arith);
        assert((w + 1) * one == w * one + one) by (nonlinear_arith);
        assert(x.to_integer() == w);
    }
}

/// A number of seconds is rounded to nanoseconds, halves to the even one; to nothing below
/// zero or where it is no number, and to the limit at most.
pub proof fn law_numbers_are_rounded_to_billionths(x: Binary64, limit: u128)
    ensures
        x.is_nan() || x.is_negative() ==> x.to_billionths(limit) == 0,
        x.is_infinite() && !x.is_negative() ==> x.to_billionths(limit) == limit,
        x.is_finite() && !x.is_negative() ==> {
            let n = half_even(units(x.magnitude()) * 1_000_000_000, pow2(1074));
            &&& n <= limit ==> x.to_billionths(limit) == n
            &&& n > limit ==> x.to_billionths(limit) == limit
        },
{
    reveal(Binary64::spec_to_billionths);
}

/// A natural number is taken for the number nearest to it.
pub proof fn law_natural_numbers_are_rounded(n: u128)
    ensures
        Binary64::from_integer(n) == signed(false, nearest(n as nat * pow2(1074), 1) as int),
{
    reveal(Binary64::spec_from_integer);
}

} // verus!
