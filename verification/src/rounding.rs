//! Rounding of exact quotients to binary64 magnitudes.
//!
//! A finite magnitude stands for a natural number of units of two to the power
//! -1074, the smallest positive number. Every arithmetic operation rounds its
//! exact result, written as a quotient of natural numbers in those units, to the
//! nearest magnitude, ties to the even one.
use vstd::arithmetic::div_mod::{
    lemma_fundamental_div_mod, lemma_fundamental_div_mod_converse, lemma_small_mod,
};
use vstd::arithmetic::mul::lemma_mul_is_associative;
use vstd::arithmetic::power2::{
    lemma2_to64, lemma2_to64_rest, lemma_pow2_adds, lemma_pow2_pos, lemma_pow2_strictly_increases,
    lemma_pow2_unfold, pow2,
};
use vstd::prelude::*;

use crate::binary64::{FRACTION_SPAN, INFINITE_MAGNITUDE};

verus! {

/// Two to the power 53: the significands of normal numbers lie below it.
pub const SIGNIFICAND_LIMIT: u64 = 0x20_0000_0000_0000;

/// Two to the power 127: the exact results that are rounded lie below it.
pub const EXACT_LIMIT: u128 = 0x8000_0000_0000_0000_0000_0000_0000_0000;

/// The significand of a finite magnitude.
pub open spec fn significand(magnitude: u64) -> nat {
    if magnitude < FRACTION_SPAN {
        magnitude as nat
    } else {
        (FRACTION_SPAN + magnitude % FRACTION_SPAN) as nat
    }
}

/// The power of two by which the significand of a finite magnitude is multiplied.
pub open spec fn exponent(magnitude: u64) -> nat {
    if magnitude < FRACTION_SPAN {
        0
    } else {
        (magnitude / FRACTION_SPAN - 1) as nat
    }
}

/// The number of units that a finite magnitude stands for.
pub open spec fn units(magnitude: u64) -> nat {
    significand(magnitude) * pow2(exponent(magnitude))
}

/// The quotient rounded to the nearest natural number, ties to the even one.
pub open spec fn half_even(n: nat, d: nat) -> nat {
    if 2 * (n % d) < d || (2 * (n % d) == d && (n / d) % 2 == 0) {
        n / d
    } else {
        n / d + 1
    }
}

/// The least power of two by which the quotient must be divided to fall below
/// the limit of significands.
pub open spec fn scale(n: nat, d: nat) -> nat
    decreases n - d,
{
    if d == 0 || n < d * SIGNIFICAND_LIMIT {
        0
    } else {
        1 + scale(n, 2 * d)
    }
}

/// The magnitude nearest to the quotient of two natural numbers of units. A
/// significand that rounds up to the limit carries into the exponent, and what
/// exceeds the finite magnitudes is infinite.
pub open spec fn nearest(n: nat, d: nat) -> nat {
    let k = scale(n, d);
    let encoded = k * FRACTION_SPAN + half_even(n, d * pow2(k));
    if encoded < INFINITE_MAGNITUDE {
        encoded as nat
    } else {
        INFINITE_MAGNITUDE as nat
    }
}

/// The numerator of `m` times two to the power `e`.
pub open spec fn numerator(m: nat, e: int) -> nat {
    if e >= 0 {
        m * pow2(e as nat)
    } else {
        m
    }
}

/// The denominator of two to the power `e`.
pub open spec fn denominator(e: int) -> nat {
    if e >= 0 {
        1
    } else {
        pow2((-e) as nat)
    }
}

/// The scale is the one power of two that brings the quotient between half the
/// limit of significands and that limit.
pub proof fn lemma_scale_is(n: nat, d: nat, k: nat)
    requires
        d > 0,
        n < d * pow2(k) * SIGNIFICAND_LIMIT,
        k > 0 ==> n >= d * pow2(k) * FRACTION_SPAN,
    ensures
        scale(n, d) == k,
    decreases k,
{
    lemma_pow2_pos(k);
    if k == 0 {
        assert(pow2(0) == 1) by {
            lemma2_to64();
        }
        assert(d * 1 == d);
    } else {
        let j = (k - 1) as nat;
        lemma_pow2_unfold(k);
        lemma_pow2_pos(j);
        assert(d * pow2(k) == (2 * d) * pow2(j)) by (nonlinear_arith)
            requires
                pow2(k) == 2 * pow2(j),
        ;
        assert((2 * d) * pow2(j) >= 2 * d) by (nonlinear_arith)
            requires
                pow2(j) >= 1,
        ;
        lemma_scale_is(n, 2 * d, j);
    }
}

/// A common factor of numerator and denominator does not change the rounding.
pub proof fn lemma_half_even_cancels(n: nat, d: nat, c: nat)
    requires
        d > 0,
        c > 0,
    ensures
        d * c > 0,
        half_even(n * c, d * c) == half_even(n, d),
{
    let q = (n / d) as int;
    let r = (n % d) as int;
    lemma_fundamental_div_mod(n as int, d as int);
    assert(d * c > 0) by (nonlinear_arith)
        requires
            d > 0,
            c > 0,
    ;
    assert(n * c == q * (d * c) + r * c) by (nonlinear_arith)
        requires
            n == d * q + r,
    ;
    assert(0 <= r * c < d * c) by (nonlinear_arith)
        requires
            0 <= r < d,
            c > 0,
    ;
    lemma_fundamental_div_mod_converse((n * c) as int, (d * c) as int, q, r * c);
    assert(2 * (r * c) < d * c <==> 2 * r < d) by (nonlinear_arith)
        requires
            c > 0,
    ;
    assert(2 * (r * c) == d * c <==> 2 * r == d) by (nonlinear_arith)
        requires
            c > 0,
    ;
}

/// A common factor of numerator and denominator does not change the scale.
proof fn lemma_scale_cancels(n: nat, d: nat, c: nat)
    requires
        d > 0,
        c > 0,
    ensures
        scale(n * c, d * c) == scale(n, d),
    decreases n - d,
{
    assert(d * c > 0) by (nonlinear_arith)
        requires
            d > 0,
            c > 0,
    ;
    assert(n * c < (d * c) * SIGNIFICAND_LIMIT <==> n < d * SIGNIFICAND_LIMIT) by (nonlinear_arith)
        requires
            c > 0,
    ;
    if n >= d * SIGNIFICAND_LIMIT {
        lemma_scale_cancels(n, 2 * d, c);
        assert((2 * d) * c == 2 * (d * c)) by (nonlinear_arith);
    }
}

/// A common factor of numerator and denominator does not change the nearest
/// magnitude.
pub proof fn lemma_nearest_cancels(n: nat, d: nat, c: nat)
    requires
        d > 0,
        c > 0,
    ensures
        nearest(n * c, d * c) == nearest(n, d),
{
    lemma_scale_cancels(n, d, c);
    let k = scale(n, d);
    lemma_pow2_pos(k);
    assert(d * pow2(k) > 0) by (nonlinear_arith)
        requires
            d > 0,
            pow2(k) > 0,
    ;
    lemma_half_even_cancels(n, d * pow2(k), c);
    assert((d * c) * pow2(k) == (d * pow2(k)) * c) by (nonlinear_arith);
}

/// A quotient by one is itself.
pub proof fn lemma_half_even_whole(n: nat)
    ensures
        half_even(n, 1) == n,
{
}

/// Dividing `m` times two to the power `e` by a scale is shifting `m`.
proof fn lemma_shifted(m: nat, e: int, k: nat)
    ensures
        denominator(e) * pow2(k) > 0,
        k >= e ==> half_even(numerator(m, e), denominator(e) * pow2(k)) == half_even(
            m,
            pow2((k - e) as nat),
        ),
        k < e ==> half_even(numerator(m, e), denominator(e) * pow2(k)) == m * pow2(
            (e - k) as nat,
        ),
{
    lemma_pow2_pos(k);
    if e < 0 {
        lemma_pow2_adds((-e) as nat, k);
        lemma_pow2_pos((k - e) as nat);
        assert((-e) as nat + k == (k - e) as nat);
    } else if k >= e {
        let s = (k - e) as nat;
        lemma_pow2_pos(e as nat);
        lemma_pow2_pos(s);
        lemma_pow2_adds(s, e as nat);
        lemma_half_even_cancels(m, pow2(s), pow2(e as nat));
    } else {
        let s = (e - k) as nat;
        lemma_pow2_adds(s, k);
        lemma_half_even_cancels(m * pow2(s), 1, pow2(k));
        lemma_half_even_whole(m * pow2(s));
        assert(m * pow2(s) * pow2(k) == m * pow2(e as nat)) by {
            lemma_mul_is_associative(m as int, pow2(s) as int, pow2(k) as int);
        }
    }
}

/// The scale of `m` times two to the power `e` follows from the length of `m`.
proof fn lemma_scale_of_length(m: nat, e: int, length: nat)
    requires
        length > 0,
        pow2((length - 1) as nat) <= m < pow2(length),
    ensures
        scale(numerator(m, e), denominator(e)) == (if length + e > 53 {
            length + e - 53
        } else {
            0
        }),
{
    let k: nat = if length + e > 53 {
        (length + e - 53) as nat
    } else {
        0
    };
    let n = numerator(m, e);
    let d = denominator(e);
    lemma2_to64_rest();
    lemma_pow2_pos(k);
    lemma_pow2_pos(length);
    if e >= 0 {
        let w = pow2(e as nat);
        lemma_pow2_pos(e as nat);
        lemma_pow2_adds(length, e as nat);
        lemma_pow2_adds(k, 53);
        lemma_pow2_monotone(length + e as nat, k + 53);
        assert(m * w < pow2(length) * w) by (nonlinear_arith)
            requires
                m < pow2(length),
                w > 0,
        ;
        if k > 0 {
            lemma_pow2_adds((length - 1) as nat, e as nat);
            lemma_pow2_adds(k, 52);
            assert((length - 1) as nat + e as nat == k + 52);
            assert(m * w >= pow2((length - 1) as nat) * w) by (nonlinear_arith)
                requires
                    m >= pow2((length - 1) as nat),
                    w > 0,
            ;
        }
    } else {
        let f = (-e) as nat;
        lemma_pow2_pos(f);
        lemma_pow2_adds(f, k);
        lemma_pow2_adds(f + k, 53);
        lemma_pow2_monotone(length, f + k + 53);
        if k > 0 {
            lemma_pow2_adds(f + k, 52);
            assert((length - 1) as nat == f + k + 52);
        }
    }
    lemma_scale_is(n, d, k);
}

/// Powers of two grow with their exponents.
pub proof fn lemma_pow2_monotone(a: nat, b: nat)
    requires
        a <= b,
    ensures
        pow2(a) <= pow2(b),
{
    if a < b {
        lemma_pow2_strictly_increases(a, b);
    }
}

/// The number of binary digits of a positive integer.
pub fn bit_length(m: u128) -> (r: u32)
    requires
        0 < m < EXACT_LIMIT,
    ensures
        0 < r <= 127,
        pow2((r - 1) as nat) <= m < pow2(r as nat),
{
    let mut rest: u128 = m;
    let mut length: u32 = 0;
    proof {
        lemma2_to64();
        lemma_exact_limit();
    }
    while rest > 0
        invariant
            0 < m < EXACT_LIMIT,
            pow2(127) == EXACT_LIMIT,
            length <= 127,
            rest * pow2(length as nat) <= m < (rest + 1) * pow2(length as nat),
            length > 0 ==> pow2((length - 1) as nat) <= m,
            rest == 0 ==> length > 0,
        decreases rest,
    {
        let half: u128 = rest / 2;
        proof {
            let p = pow2(length as nat);
            lemma_pow2_pos(length as nat);
            lemma_pow2_unfold((length + 1) as nat);
            assert(rest * p >= p) by (nonlinear_arith)
                requires
                    rest >= 1,
                    p >= 0,
            ;
            if length == 127 {
                assert(false);
            }
            assert(half * (2 * p) <= m < (half + 1) * (2 * p)) by (nonlinear_arith)
                requires
                    rest * p <= m < (rest + 1) * p,
                    2 * half <= rest <= 2 * half + 1,
                    p > 0,
            ;
        }
        rest = half;
        length = length + 1;
    }
    assert(0 * pow2(length as nat) == 0 && (0 + 1) * pow2(length as nat) == pow2(length as nat))
        by (nonlinear_arith);
    length
}

proof fn lemma_exact_limit()
    ensures
        pow2(127) == EXACT_LIMIT,
{
    lemma2_to64();
    lemma_pow2_adds(63, 64);
    assert(pow2(63) == 0x8000_0000_0000_0000) by {
        lemma2_to64_rest();
    }
    assert(0x8000_0000_0000_0000int * 0x1_0000_0000_0000_0000int == EXACT_LIMIT)
        by (nonlinear_arith);
}

/// Two to a power that fits the machine integer.
pub fn power_of_two(s: u32) -> (r: u128)
    requires
        s <= 127,
    ensures
        r == pow2(s as nat),
        0 < r <= EXACT_LIMIT,
{
    let mut r: u128 = 1;
    let mut i: u32 = 0;
    proof {
        lemma2_to64();
        lemma_exact_limit();
    }
    while i < s
        invariant
            i <= s <= 127,
            r == pow2(i as nat),
            0 < r <= EXACT_LIMIT,
            pow2(127) == EXACT_LIMIT,
        decreases s - i,
    {
        proof {
            lemma_pow2_unfold((i + 1) as nat);
            lemma_pow2_monotone((i + 1) as nat, 127);
        }
        r = r * 2;
        i = i + 1;
    }
    r
}

/// A positive integer divided by a power of two, rounded half to even.
pub fn shift_half_even(m: u128, s: u32) -> (r: u128)
    requires
        m < EXACT_LIMIT,
    ensures
        r == half_even(m as nat, pow2(s as nat)),
        r <= m + 1,
{
    if s > 127 {
        proof {
            lemma_exact_limit();
            lemma_pow2_unfold(128);
            lemma_pow2_monotone(128, s as nat);
            lemma_small_mod(m as nat, pow2(s as nat));
            vstd::arithmetic::div_mod::lemma_basic_div(m as int, pow2(s as nat) as int);
        }
        return 0;
    }
    let p: u128 = power_of_two(s);
    let q: u128 = m / p;
    let rest: u128 = m % p;
    assert(q <= m) by (nonlinear_arith)
        requires
            q == m / p,
            p > 0,
    ;
    if 2 * rest < p || (2 * rest == p && q % 2 == 0) {
        q
    } else {
        q + 1
    }
}

/// The magnitude nearest to `m` times two to the power `e` units.
pub fn round_scaled(m: u128, e: i32) -> (r: u64)
    requires
        0 < m < EXACT_LIMIT,
        -5000 <= e <= 5000,
    ensures
        r == nearest(numerator(m as nat, e as int), denominator(e as int)),
        r <= INFINITE_MAGNITUDE,
{
    let length: i32 = bit_length(m) as i32;
    let k: i32 = if length + e > 53 {
        length + e - 53
    } else {
        0
    };
    proof {
        lemma_scale_of_length(m as nat, e as int, length as nat);
        lemma_shifted(m as nat, e as int, k as nat);
    }
    let rounded: u128 = if k >= e {
        shift_half_even(m, (k - e) as u32)
    } else {
        let s: u32 = (e - k) as u32;
        let p: u128 = power_of_two(s);
        proof {
            lemma_pow2_adds(length as nat, s as nat);
            lemma_pow2_monotone(length as nat + s as nat, 53);
            lemma2_to64_rest();
            assert(m * p < pow2(length as nat) * p) by (nonlinear_arith)
                requires
                    m < pow2(length as nat),
                    p > 0,
            ;
        }
        m * p
    };
    let base: u128 = (k as u128) * (FRACTION_SPAN as u128);
    let limit: u128 = INFINITE_MAGNITUDE as u128;
    if rounded >= limit || base + rounded >= limit {
        INFINITE_MAGNITUDE
    } else {
        (base + rounded) as u64
    }
}

} // verus!
