//! Binary64 arithmetic in integers: every operation gives the correctly rounded
//! result, ties to even, with the signs of zeros and the infinities of IEEE-754.
use vstd::arithmetic::div_mod::{lemma_fundamental_div_mod, lemma_fundamental_div_mod_converse};
use vstd::arithmetic::mul::lemma_mul_is_associative;
use vstd::arithmetic::power2::{
    lemma2_to64, lemma2_to64_rest, lemma_pow2_adds, lemma_pow2_pos, lemma_pow2_unfold, pow2,
};
use vstd::prelude::*;

use crate::binary64::{
    signed, Binary64, FRACTION_SPAN, INFINITE_MAGNITUDE, NOT_A_NUMBER, SIGN_BIT,
};
use crate::rounding::{
    bit_length, denominator, exponent, half_even, lemma_half_even_cancels, lemma_half_even_whole,
    lemma_nearest_cancels, lemma_pow2_monotone, lemma_scale_is, nearest, numerator, power_of_two, round_scaled, scale,
    shift_half_even, significand, units, EXACT_LIMIT, SIGNIFICAND_LIMIT,
};

verus! {

/// The number of binary places of the smallest positive number.
pub const PLACES: u32 = 1074;

/// The number of nanoseconds in a second.
pub const BILLION: u128 = 1_000_000_000;

/// The nanoseconds of the longest span: the largest count of whole seconds that
/// fits 64 bits, and the nanoseconds short of one more.
pub const LONGEST: u128 = 18_446_744_073_709_551_615_999_999_999;

/// The number of units that a finite number stands for, with its sign.
pub open spec fn signed_units(x: Binary64) -> int {
    if x.is_negative() {
        -(units(x.magnitude()) as int)
    } else {
        units(x.magnitude()) as int
    }
}

/// The number nearest to a whole number of units; an exact zero is negative only
/// where `negative_zero` says so.
pub open spec fn from_units(total: int, negative_zero: bool) -> Binary64 {
    if total == 0 {
        signed(negative_zero, 0)
    } else if total < 0 {
        signed(true, nearest((-total) as nat, 1) as int)
    } else {
        signed(false, nearest(total as nat, 1) as int)
    }
}

/// The significand and the exponent of a finite magnitude.
fn parts(magnitude: u64) -> (r: (u64, i32))
    requires
        magnitude < INFINITE_MAGNITUDE,
    ensures
        r.0 == significand(magnitude),
        r.1 == exponent(magnitude),
        r.0 < SIGNIFICAND_LIMIT,
        0 <= r.1 <= 2045,
        r.1 > 0 ==> r.0 >= FRACTION_SPAN,
        magnitude == r.1 * FRACTION_SPAN + r.0,
        magnitude > 0 <==> r.0 > 0,
{
    if magnitude < FRACTION_SPAN {
        (magnitude, 0)
    } else {
        let high: u64 = magnitude / FRACTION_SPAN;
        assert(1 <= high <= 2046);
        (FRACTION_SPAN + magnitude % FRACTION_SPAN, high as i32 - 1)
    }
}

/// The number with the given sign and magnitude.
fn with_sign(negative: bool, magnitude: u64) -> (r: Binary64)
    requires
        magnitude <= INFINITE_MAGNITUDE,
    ensures
        r == signed(negative, magnitude as int),
{
    if negative {
        Binary64 { bits: SIGN_BIT + magnitude }
    } else {
        Binary64 { bits: magnitude }
    }
}

/// A sum is the larger term where the other is too small to move it.
proof fn lemma_absorbs(m: nat, e: nat, t: int)
    requires
        FRACTION_SPAN <= m < SIGNIFICAND_LIMIT,
        12 < e <= 2045,
        -pow2((e - 11) as nat) < t < pow2((e - 11) as nat),
        e * FRACTION_SPAN + m < INFINITE_MAGNITUDE,
    ensures
        m * pow2(e) + t > 0,
        nearest((m * pow2(e) + t) as nat, 1) == e * FRACTION_SPAN + m,
{
    let p = pow2(e) as int;
    let h = pow2((e - 1) as nat) as int;
    let n = m * p + t;
    lemma_pow2_pos(e);
    lemma_pow2_pos((e - 11) as nat);
    lemma_pow2_unfold(e);
    lemma_pow2_adds((e - 11) as nat, 10);
    lemma2_to64();
    assert(h == pow2((e - 11) as nat) * 1024);
    assert(2 * t < h && -2 * t < h);
    assert(m * p + p <= SIGNIFICAND_LIMIT * p) by (nonlinear_arith)
        requires
            m + 1 <= SIGNIFICAND_LIMIT,
            p > 0,
    ;
    assert(m * p >= FRACTION_SPAN * p) by (nonlinear_arith)
        requires
            m >= FRACTION_SPAN,
            p > 0,
    ;
    assert(1 * pow2(e) == p);
    if t >= 0 {
        lemma_scale_is(n as nat, 1, e);
        lemma_fundamental_div_mod_converse(n, p, m as int, t);
    } else if m > FRACTION_SPAN {
        assert(m * p >= FRACTION_SPAN * p + p) by (nonlinear_arith)
            requires
                m >= FRACTION_SPAN + 1,
                p > 0,
        ;
        lemma_scale_is(n as nat, 1, e);
        assert(n == (m - 1) * p + (p + t)) by (nonlinear_arith)
            requires
                n == m * p + t,
        ;
        lemma_fundamental_div_mod_converse(n, p, m - 1, p + t);
    } else {
        assert(1 * pow2((e - 1) as nat) == h);
        lemma_scale_is(n as nat, 1, (e - 1) as nat);
        assert(n == (SIGNIFICAND_LIMIT - 1) * h + (h + t)) by (nonlinear_arith)
            requires
                n == m * p + t,
                m == FRACTION_SPAN,
                p == 2 * h,
        ;
        lemma_fundamental_div_mod_converse(n, h, SIGNIFICAND_LIMIT - 1, h + t);
    }
}

/// The sum of two finite numbers, the first with the larger exponent.
fn ordered_sum(high: Binary64, low: Binary64) -> (r: Binary64)
    requires
        high.is_finite(),
        low.is_finite(),
        exponent(high.magnitude()) >= exponent(low.magnitude()),
    ensures
        r == from_units(
            signed_units(high) + signed_units(low),
            high.is_negative() && low.is_negative(),
        ),
{
    let (mh, eh): (u64, i32) = parts(high.magnitude());
    let (ml, el): (u64, i32) = parts(low.magnitude());
    let shift: i32 = eh - el;
    let ghost p = pow2(el as nat);
    proof {
        lemma2_to64();
        lemma2_to64_rest();
        lemma_pow2_pos(el as nat);
        lemma_pow2_pos(eh as nat);
        lemma_pow2_adds(shift as nat, el as nat);
    }
    if shift > 64 {
        proof {
            lemma_pow2_adds(53, el as nat);
            lemma_pow2_monotone(53 + el as nat, (eh - 11) as nat);
            assert(ml * p < SIGNIFICAND_LIMIT * p) by (nonlinear_arith)
                requires
                    ml < SIGNIFICAND_LIMIT,
                    p > 0,
            ;
            let t = if high.is_negative() == low.is_negative() {
                units(low.magnitude()) as int
            } else {
                -(units(low.magnitude()) as int)
            };
            lemma_absorbs(mh as nat, eh as nat, t);
        }
        return high;
    }
    let factor: u128 = power_of_two(shift as u32);
    assert((mh as int) * factor < 0x20_0000_0000_0000_0000_0000_0000_0000int) by {
        lemma_pow2_monotone(shift as nat, 64);
        assert((mh as int) * factor <= 0x20_0000_0000_0000int * 0x1_0000_0000_0000_0000int)
            by (nonlinear_arith)
            requires
                mh < 0x20_0000_0000_0000,
                0 < factor <= 0x1_0000_0000_0000_0000,
        ;
        assert((mh as int) * factor < 0x20_0000_0000_0000int * 0x1_0000_0000_0000_0000int)
            by (nonlinear_arith)
            requires
                mh < 0x20_0000_0000_0000,
                0 < factor <= 0x1_0000_0000_0000_0000,
        ;
    }
    assert(0 <= (mh as int) * factor) by (nonlinear_arith);
    let aligned: i128 = ((mh as u128) * factor) as i128;
    let x: i128 = if high.is_negative() {
        -aligned
    } else {
        aligned
    };
    let y: i128 = if low.is_negative() {
        -(ml as i128)
    } else {
        ml as i128
    };
    let total: i128 = x + y;
    proof {
        assert(aligned * p == units(high.magnitude())) by {
            lemma_mul_is_associative(mh as int, factor as int, p as int);
        }
        assert(signed_units(high) == x * p) by (nonlinear_arith)
            requires
                aligned * p == units(high.magnitude()),
                x == (if high.is_negative() { -aligned } else { aligned as int }),
                signed_units(high) == (if high.is_negative() {
                    -(units(high.magnitude()) as int)
                } else {
                    units(high.magnitude()) as int
                }),
        ;
        assert(signed_units(low) == y * p) by (nonlinear_arith)
            requires
                ml * p == units(low.magnitude()),
                y == (if low.is_negative() { -(ml as int) } else { ml as int }),
                signed_units(low) == (if low.is_negative() {
                    -(units(low.magnitude()) as int)
                } else {
                    units(low.magnitude()) as int
                }),
        ;
        assert(signed_units(high) + signed_units(low) == total * p) by (nonlinear_arith)
            requires
                signed_units(high) == x * p,
                signed_units(low) == y * p,
                total == x + y,
        ;
        assert(total > 0 ==> total * p > 0) by (nonlinear_arith)
            requires
                p > 0,
        ;
        assert(total < 0 ==> total * p < 0 && (-total) * p == -(total * p)) by (nonlinear_arith)
            requires
                p > 0,
        ;
    }
    if total == 0 {
        assert(0 * p == 0);
        if high.is_negative() && low.is_negative() {
            Binary64 { bits: SIGN_BIT }
        } else {
            Binary64 { bits: 0 }
        }
    } else if total < 0 {
        let size: u64 = round_scaled((-total) as u128, el);
        Binary64 { bits: SIGN_BIT + size }
    } else {
        let size: u64 = round_scaled(total as u128, el);
        Binary64 { bits: size }
    }
}

/// A zero quotient is nearest to zero.
pub proof fn lemma_nearest_zero(d: nat)
    requires
        d > 0,
    ensures
        nearest(0, d) == 0,
{
    lemma2_to64();
    assert(scale(0, d) == 0);
    assert(d * pow2(0) == d);
    lemma_fundamental_div_mod_converse(0, d as int, 0, 0);
}

/// A finite magnitude is nearest to the units that it stands for.
pub proof fn lemma_nearest_exact(magnitude: u64)
    requires
        magnitude < INFINITE_MAGNITUDE,
    ensures
        nearest(units(magnitude), 1) == magnitude,
{
    let m = significand(magnitude);
    let e = exponent(magnitude);
    lemma2_to64();
    lemma_pow2_pos(e);
    assert(1 * pow2(e) == pow2(e));
    assert(m * pow2(e) < SIGNIFICAND_LIMIT * pow2(e)) by (nonlinear_arith)
        requires
            m < SIGNIFICAND_LIMIT,
            pow2(e) > 0,
    ;
    assert(e > 0 ==> m * pow2(e) >= FRACTION_SPAN * pow2(e)) by (nonlinear_arith)
        requires
            e > 0 ==> m >= FRACTION_SPAN,
            pow2(e) > 0,
    ;
    lemma_scale_is(units(magnitude), 1, e);
    lemma_half_even_cancels(m, 1, pow2(e));
}

/// The magnitude of the product of two finite magnitudes.
fn product_magnitude(a: u64, b: u64) -> (r: u64)
    requires
        a < INFINITE_MAGNITUDE,
        b < INFINITE_MAGNITUDE,
    ensures
        r == nearest(units(a) * units(b), pow2(PLACES as nat)),
        r <= INFINITE_MAGNITUDE,
{
    let (ma, ea): (u64, i32) = parts(a);
    let (mb, eb): (u64, i32) = parts(b);
    assert((ma as int) * mb <= 0x20_0000_0000_0000int * 0x20_0000_0000_0000int)
        by (nonlinear_arith)
        requires
            ma < 0x20_0000_0000_0000,
            mb < 0x20_0000_0000_0000,
    ;
    let m: u128 = (ma as u128) * (mb as u128);
    let ghost both = (ea + eb) as nat;
    proof {
        lemma_pow2_pos(PLACES as nat);
        lemma_pow2_pos(both);
        lemma_pow2_adds(ea as nat, eb as nat);
        let pa = pow2(ea as nat);
        let pb = pow2(eb as nat);
        assert((ma * pa) * (mb * pb) == (ma * mb) * (pa * pb)) by (nonlinear_arith);
    }
    assert(units(a) * units(b) == m * pow2(both));
    if m == 0 {
        proof {
            assert(0 * pow2(both) == 0);
            lemma_nearest_zero(pow2(PLACES as nat));
        }
        return 0;
    }
    let e: i32 = ea + eb - 1074;
    proof {
        if e >= 0 {
            lemma_pow2_adds(e as nat, PLACES as nat);
            lemma_mul_is_associative(m as int, pow2(e as nat) as int, pow2(PLACES as nat) as int);
            lemma_nearest_cancels(numerator(m as nat, e as int), 1, pow2(PLACES as nat));
        } else {
            lemma_pow2_pos((-e) as nat);
            lemma_pow2_adds((-e) as nat, both);
            assert((-e) as nat + both == PLACES as nat);
            lemma_nearest_cancels(m as nat, pow2((-e) as nat), pow2(both));
        }
    }
    round_scaled(m, e)
}

/// A quotient that is no integer rounds like the odd integer next to it.
proof fn lemma_sticky(x: nat, d: nat, q: nat, odd: nat, s: nat)
    requires
        d > 0,
        s >= 2,
        q * d < x < (q + 1) * d,
        odd == (if q % 2 == 1 { q } else { q + 1 }),
    ensures
        d * pow2(s) > 0,
        half_even(x, d * pow2(s)) == half_even(odd, pow2(s)),
{
    let t = pow2(s) as int;
    let h = pow2((s - 1) as nat) as int;
    lemma_pow2_pos(s);
    lemma_pow2_unfold(s);
    lemma_pow2_unfold((s - 1) as nat);
    lemma_pow2_pos((s - 2) as nat);
    lemma_fundamental_div_mod(odd as int, t);
    let big = odd as int / t;
    let rest = odd as int % t;
    let quarter = pow2((s - 2) as nat) as int;
    assert(t * big == 4 * (quarter * big)) by (nonlinear_arith)
        requires
            t == 4 * quarter,
    ;
    assert(rest % 2 == 1);
    assert(rest != h);
    assert(d * t > 0) by (nonlinear_arith)
        requires
            d > 0,
            t > 0,
    ;
    let over = x - big * (d * t);
    assert(big * (d * t) == d * (t * big)) by (nonlinear_arith);
    assert(d * (t * big) <= q * d) by (nonlinear_arith)
        requires
            t * big <= q,
            d > 0,
    ;
    assert((q + 1) * d <= d * (t * big) + d * t) by (nonlinear_arith)
        requires
            q + 1 <= t * big + t,
            d > 0,
    ;
    lemma_fundamental_div_mod_converse(x as int, d * t, big, over);
    if rest < h {
        assert((q + 1) * d <= d * (t * big) + d * h) by (nonlinear_arith)
            requires
                q + 1 <= t * big + h,
                d > 0,
        ;
        assert(d * t == 2 * (d * h)) by (nonlinear_arith)
            requires
                t == 2 * h,
        ;
    } else {
        assert(q * d >= d * (t * big) + d * h) by (nonlinear_arith)
            requires
                q >= t * big + h,
                d > 0,
        ;
        assert(d * t == 2 * (d * h)) by (nonlinear_arith)
            requires
                t == 2 * h,
        ;
    }
}

/// The nearest magnitude to a quotient that is no integer, times a power of two,
/// is that of the odd integer next to it.
proof fn lemma_sticky_nearest(x: nat, d: nat, q: nat, odd: nat, e: int, length: nat)
    requires
        d > 0,
        length >= 55,
        q * d < x < (q + 1) * d,
        odd == (if q % 2 == 1 { q } else { q + 1 }),
        pow2((length - 1) as nat) <= odd < pow2(length),
    ensures
        nearest(numerator(x, e), d * denominator(e)) == nearest(
            numerator(odd, e),
            denominator(e),
        ),
{
    let k: nat = if length + e > 53 {
        (length + e - 53) as nat
    } else {
        0
    };
    let s = (k - e) as nat;
    let p = numerator(1, e);
    let w = denominator(e);
    lemma_pow2_pos(k);
    lemma_pow2_pos(s);
    if e >= 0 {
        lemma_pow2_pos(e as nat);
        lemma_pow2_adds(s, e as nat);
        assert(x * p == x * pow2(e as nat));
    } else {
        lemma_pow2_pos((-e) as nat);
        lemma_pow2_adds((-e) as nat, k);
        assert((-e) as nat + k == s);
    }
    assert(p > 0 && w > 0);
    assert(w * pow2(k) == pow2(s) * p);
    assert(numerator(x, e) == x * p);
    assert(numerator(odd, e) == odd * p);
    // The scale of both is k.
    lemma2_to64_rest();
    lemma_pow2_adds(s, 53);
    lemma_pow2_monotone(length, s + 53);
    lemma_pow2_unfold(s + 53);
    assert(q + 1 <= pow2(s + 53)) by {
        assert(odd + 1 <= pow2(s + 53));
    }
    let t = pow2(s);
    assert(x < d * t * SIGNIFICAND_LIMIT) by (nonlinear_arith)
        requires
            x < (q + 1) * d,
            q + 1 <= t * SIGNIFICAND_LIMIT,
            d > 0,
    ;
    assert(x * p < (d * w) * pow2(k) * SIGNIFICAND_LIMIT) by (nonlinear_arith)
        requires
            x < d * t * SIGNIFICAND_LIMIT,
            w * pow2(k) == t * p,
            p > 0,
    ;
    assert(odd * p < w * pow2(k) * SIGNIFICAND_LIMIT) by (nonlinear_arith)
        requires
            odd < t * SIGNIFICAND_LIMIT,
            w * pow2(k) == t * p,
            p > 0,
    ;
    if k > 0 {
        lemma_pow2_adds(s, 52);
        assert(s + 52 == (length - 1) as nat);
        lemma_pow2_unfold(s + 52);
        assert(q >= pow2(s + 52));
        assert(x >= d * t * FRACTION_SPAN) by (nonlinear_arith)
            requires
                x > q * d,
                q >= t * FRACTION_SPAN,
                d > 0,
        ;
        assert(x * p >= (d * w) * pow2(k) * FRACTION_SPAN) by (nonlinear_arith)
            requires
                x >= d * t * FRACTION_SPAN,
                w * pow2(k) == t * p,
                p > 0,
        ;
        assert(odd * p >= w * pow2(k) * FRACTION_SPAN) by (nonlinear_arith)
            requires
                odd >= t * FRACTION_SPAN,
                w * pow2(k) == t * p,
                p > 0,
        ;
    }
    assert(d * w > 0) by (nonlinear_arith)
        requires
            d > 0,
            w > 0,
    ;
    lemma_scale_is(x * p, d * w, k);
    lemma_scale_is(odd * p, w, k);
    // Both round alike at that scale.
    lemma_sticky(x, d, q, odd, s);
    lemma_half_even_cancels(x, d * t, p);
    lemma_half_even_cancels(odd, t, p);
    assert((d * w) * pow2(k) == (d * t) * p) by (nonlinear_arith)
        requires
            w * pow2(k) == t * p,
    ;
}

/// The magnitude of the quotient of a finite and a finite positive magnitude.
fn quotient_magnitude(a: u64, b: u64) -> (r: u64)
    requires
        a < INFINITE_MAGNITUDE,
        0 < b < INFINITE_MAGNITUDE,
    ensures
        r == nearest(units(a) * pow2(PLACES as nat), units(b)),
        r <= INFINITE_MAGNITUDE,
{
    let (ma, ea): (u64, i32) = parts(a);
    let (mb, eb): (u64, i32) = parts(b);
    let ghost n = units(a) * pow2(PLACES as nat);
    let ghost d = units(b);
    proof {
        lemma_pow2_pos(ea as nat);
        lemma_pow2_pos(eb as nat);
        lemma2_to64();
        lemma2_to64_rest();
        assert(d > 0) by (nonlinear_arith)
            requires
                d == mb * pow2(eb as nat),
                mb > 0,
                pow2(eb as nat) > 0,
        ;
    }
    if ma == 0 {
        proof {
            assert(n == 0) by (nonlinear_arith)
                requires
                    n == (0 * pow2(ea as nat)) * pow2(PLACES as nat),
            ;
            lemma_nearest_zero(d);
        }
        return 0;
    }
    let places: i32 = bit_length(ma as u128) as i32;
    proof {
        if places > 53 {
            lemma_pow2_monotone(53, (places - 1) as nat);
        }
    }
    let lift: i32 = 53 - places + 74;
    let factor: u128 = power_of_two(lift as u32);
    proof {
        lemma_pow2_adds(places as nat, lift as nat);
        lemma_pow2_adds((places - 1) as nat, lift as nat);
        lemma_pow2_adds(63, 64);
        lemma_pow2_adds(62, 64);
        assert(ma * factor < pow2(places as nat) * factor) by (nonlinear_arith)
            requires
                ma < pow2(places as nat),
                factor > 0,
        ;
        assert(ma * factor >= pow2((places - 1) as nat) * factor) by (nonlinear_arith)
            requires
                ma >= pow2((places - 1) as nat),
                factor > 0,
        ;
        assert(pow2(127) == EXACT_LIMIT);
        assert(pow2(126) == 0x4000_0000_0000_0000_0000_0000_0000_0000);
    }
    let x: u128 = (ma as u128) * factor;
    let q: u128 = x / (mb as u128);
    let rest: u128 = x % (mb as u128);
    let e: i32 = ea - eb + 1074 - lift;
    proof {
        lemma_fundamental_div_mod(x as int, mb as int);
        assert(q < EXACT_LIMIT && q >= 0x100_0000_0000_0000) by (nonlinear_arith)
            requires
                x == mb * q + rest,
                0 <= rest < mb,
                mb < 0x20_0000_0000_0000,
                mb > 0,
                0x4000_0000_0000_0000_0000_0000_0000_0000 <= x < EXACT_LIMIT,
        ;
        lemma_quotient_units(ma as nat, ea as nat, mb as nat, eb as nat, lift as nat, e as int);
    }
    if rest == 0 {
        proof {
            assert(numerator(x as nat, e as int) == numerator(q as nat, e as int) * mb)
                by (nonlinear_arith)
                requires
                    x == mb * q,
                    e >= 0 ==> numerator(x as nat, e as int) == x * pow2(e as nat)
                        && numerator(q as nat, e as int) == q * pow2(e as nat),
                    e < 0 ==> numerator(x as nat, e as int) == x && numerator(
                        q as nat,
                        e as int,
                    ) == q,
            ;
            assert(mb * denominator(e as int) == denominator(e as int) * mb) by (nonlinear_arith);
            lemma_pow2_pos((if e < 0 { -e } else { 0 }) as nat);
            lemma_nearest_cancels(
                numerator(q as nat, e as int),
                denominator(e as int),
                mb as nat,
            );
        }
        return round_scaled(q, e);
    }
    let odd: u128 = if q % 2 == 1 {
        q
    } else {
        q + 1
    };
    proof {
        assert(q * mb < x < (q + 1) * mb) by (nonlinear_arith)
            requires
                x == mb * q + rest,
                0 < rest < mb,
        ;
    }
    let size: u32 = bit_length(odd);
    proof {
        if size < 55 {
            lemma_pow2_monotone(size as nat, 54);
        }
        lemma_sticky_nearest(x as nat, mb as nat, q as nat, odd as nat, e as int, size as nat);
    }
    round_scaled(odd, e)
}

/// A quotient of units is the quotient of the lifted significands times a power
/// of two.
proof fn lemma_quotient_units(ma: nat, ea: nat, mb: nat, eb: nat, lift: nat, e: int)
    requires
        mb > 0,
        e == ea - eb + PLACES - lift,
    ensures
        nearest((ma * pow2(ea)) * pow2(PLACES as nat), mb * pow2(eb)) == nearest(
            numerator(ma * pow2(lift), e),
            mb * denominator(e),
        ),
{
    let top = ea + PLACES as nat;
    let n = (ma * pow2(ea)) * pow2(PLACES as nat);
    let d = mb * pow2(eb);
    lemma_pow2_adds(ea, PLACES as nat);
    lemma_mul_is_associative(ma as int, pow2(ea) as int, pow2(PLACES as nat) as int);
    assert(n == ma * pow2(top));
    lemma_pow2_pos(eb);
    lemma_pow2_pos(lift);
    lemma_pow2_pos(top);
    assert(d > 0) by (nonlinear_arith)
        requires
            d == mb * pow2(eb),
            mb > 0,
            pow2(eb) > 0,
    ;
    let x = ma * pow2(lift);
    if e >= 0 {
        lemma_pow2_adds(lift, e as nat);
        lemma_pow2_adds(lift + e as nat, eb);
        assert(lift + e as nat + eb == top);
        lemma_mul_is_associative(ma as int, pow2(lift) as int, pow2(e as nat) as int);
        lemma_mul_is_associative(
            ma as int,
            pow2(lift + e as nat) as int,
            pow2(eb) as int,
        );
        lemma_nearest_cancels(x * pow2(e as nat), mb, pow2(eb));
        assert(mb * 1 == mb);
    } else {
        let f = (-e) as nat;
        lemma_pow2_pos(f);
        assert(n * pow2(lift) == x * pow2(top)) by (nonlinear_arith)
            requires
                n == ma * pow2(top),
                x == ma * pow2(lift),
        ;
        lemma_pow2_adds(eb, lift);
        lemma_pow2_adds(f, top);
        assert(eb + lift == f + top);
        assert(d * pow2(lift) == (mb * pow2(f)) * pow2(top)) by {
            lemma_mul_is_associative(mb as int, pow2(eb) as int, pow2(lift) as int);
            lemma_mul_is_associative(mb as int, pow2(f) as int, pow2(top) as int);
        }
        assert(mb * pow2(f) > 0) by (nonlinear_arith)
            requires
                mb > 0,
                pow2(f) > 0,
        ;
        lemma_nearest_cancels(n, d, pow2(lift));
        lemma_nearest_cancels(x, mb * pow2(f), pow2(top));
    }
}

/// The magnitude of the remainder of a finite by a finite positive magnitude.
fn remainder_magnitude(a: u64, b: u64) -> (r: u64)
    requires
        a < INFINITE_MAGNITUDE,
        0 < b < INFINITE_MAGNITUDE,
    ensures
        r == nearest(units(a) % units(b), 1),
        r <= INFINITE_MAGNITUDE,
{
    let (ma, ea): (u64, i32) = parts(a);
    let (mb, eb): (u64, i32) = parts(b);
    let ghost pa = pow2(ea as nat) as int;
    let ghost pb = pow2(eb as nat) as int;
    proof {
        lemma_pow2_pos(ea as nat);
        lemma_pow2_pos(eb as nat);
        lemma2_to64();
        lemma2_to64_rest();
    }
    let mut rest: u64 = 0;
    let mut places: i32 = ea;
    if ea >= eb {
        rest = ma % mb;
        let mut i: i32 = 0;
        let turns: i32 = ea - eb;
        proof {
            assert(ma * pow2(0) == ma);
        }
        while i < turns
            invariant
                0 <= i <= turns <= 2045,
                0 < mb < SIGNIFICAND_LIMIT,
                rest == (ma * pow2(i as nat)) % (mb as int),
                rest < mb,
            decreases turns - i,
        {
            proof {
                let x = ma * pow2(i as nat);
                lemma_pow2_unfold((i + 1) as nat);
                vstd::arithmetic::div_mod::lemma_mul_mod_noop_right(2, x, mb as int);
                assert(ma * pow2((i + 1) as nat) == 2 * x) by (nonlinear_arith)
                    requires
                        pow2((i + 1) as nat) == 2 * pow2(i as nat),
                        x == ma * pow2(i as nat),
                ;
            }
            rest = (2 * rest) % mb;
            i = i + 1;
        }
        places = eb;
        proof {
            let x = ma * pow2(turns as nat);
            lemma_pow2_adds(turns as nat, eb as nat);
            lemma_mul_is_associative(ma as int, pow2(turns as nat) as int, pb);
            assert(x * pb == ma * pa);
            lemma_remainder_scales(x as nat, mb as nat, pb as nat);
        }
    } else {
        let shift: i32 = eb - ea;
        proof {
            lemma_pow2_adds(shift as nat, ea as nat);
            lemma_mul_is_associative(mb as int, pow2(shift as nat) as int, pa);
            lemma_pow2_pos(shift as nat);
        }
        let ghost whole = mb * pow2(shift as nat);
        assert(mb * pb == whole * pa);
        if shift > 64 {
            proof {
                lemma_pow2_monotone(64, shift as nat);
                assert(whole > ma) by (nonlinear_arith)
                    requires
                        whole == mb * pow2(shift as nat),
                        mb >= 1,
                        pow2(shift as nat) >= 0x1_0000_0000_0000_0000,
                ;
                lemma_remainder_scales(ma as nat, whole as nat, pa as nat);
                vstd::arithmetic::div_mod::lemma_small_mod(ma as nat, whole as nat);
                lemma_nearest_exact(a);
            }
            return a;
        }
        let factor: u128 = power_of_two(shift as u32);
        proof {
            lemma_pow2_monotone(shift as nat, 64);
            assert(mb * factor < EXACT_LIMIT) by (nonlinear_arith)
                requires
                    mb < 0x20_0000_0000_0000,
                    0 < factor <= 0x1_0000_0000_0000_0000,
            ;
            assert(mb * factor > 0) by (nonlinear_arith)
                requires
                    mb > 0,
                    factor > 0,
            ;
            lemma_remainder_scales(ma as nat, whole as nat, pa as nat);
        }
        let whole_divisor: u128 = (mb as u128) * factor;
        proof {
            vstd::arithmetic::div_mod::lemma_mod_decreases(ma as nat, whole_divisor as nat);
        }
        rest = ((ma as u128) % whole_divisor) as u64;
    }
    assert(units(a) % units(b) == rest * pow2(places as nat));
    if rest == 0 {
        proof {
            assert(0 * pow2(places as nat) == 0);
            lemma_nearest_zero(1);
        }
        return 0;
    }
    round_scaled(rest as u128, places)
}

/// A common factor of dividend and divisor multiplies the remainder.
proof fn lemma_remainder_scales(n: nat, d: nat, c: nat)
    requires
        d > 0,
        c > 0,
    ensures
        (n * c) % (d * c) == (n % d) * c,
{
    let q = n as int / d as int;
    let r = n as int % d as int;
    lemma_fundamental_div_mod(n as int, d as int);
    assert(n * c == q * (d * c) + r * c) by (nonlinear_arith)
        requires
            n == d * q + r,
    ;
    assert(0 <= r * c < d * c) by (nonlinear_arith)
        requires
            0 <= r < d,
            c > 0,
    ;
    lemma_fundamental_div_mod_converse((n * c) as int, (d * c) as int, q, r * c);
}

/// The number of whole units in a positive number, in halves rounded up: the
/// nearest natural number, halves away from zero.
pub open spec fn nearest_whole(magnitude: u64) -> nat {
    (2 * units(magnitude) + pow2(PLACES as nat)) / (2 * pow2(PLACES as nat))
}

/// The natural number nearest to a finite magnitude, held at the largest machine
/// integer.
fn whole_magnitude(magnitude: u64) -> (r: u64)
    requires
        magnitude < INFINITE_MAGNITUDE,
    ensures
        r == (if nearest_whole(magnitude) <= u64::MAX {
            nearest_whole(magnitude)
        } else {
            u64::MAX as nat
        }),
{
    let (m, e): (u64, i32) = parts(magnitude);
    let ghost one = pow2(PLACES as nat) as int;
    let ghost n = (2 * units(magnitude) + one) as int;
    proof {
        lemma_pow2_pos(PLACES as nat);
        lemma_pow2_pos(e as nat);
        lemma2_to64();
        lemma2_to64_rest();
    }
    if e >= 1074 {
        let shift: i32 = e - 1074;
        proof {
            lemma_pow2_adds(shift as nat, PLACES as nat);
            lemma_mul_is_associative(m as int, pow2(shift as nat) as int, one);
            let w = m * pow2(shift as nat);
            lemma_pow2_pos(shift as nat);
            assert(w >= 0) by (nonlinear_arith)
                requires
                    w == m * pow2(shift as nat),
            ;
            assert(n == w * (2 * one) + one) by (nonlinear_arith)
                requires
                    n == 2 * (w * one) + one,
            ;
            lemma_fundamental_div_mod_converse(n, 2 * one, w, one);
        }
        if shift > 11 {
            proof {
                lemma_pow2_monotone(12, shift as nat);
                assert(m * pow2(shift as nat) >= 0x1_0000_0000_0000_0000) by (nonlinear_arith)
                    requires
                        m >= 0x10_0000_0000_0000,
                        pow2(shift as nat) >= 4096,
                ;
            }
            return u64::MAX;
        }
        let factor: u128 = power_of_two(shift as u32);
        proof {
            lemma_pow2_monotone(shift as nat, 11);
            assert(m * factor < EXACT_LIMIT) by (nonlinear_arith)
                requires
                    m < 0x20_0000_0000_0000,
                    0 < factor <= 2048,
            ;
        }
        let w: u128 = (m as u128) * factor;
        if w > u64::MAX as u128 {
            u64::MAX
        } else {
            w as u64
        }
    } else {
        let t: i32 = 1074 - e;
        let ghost top = 2 * m + pow2(t as nat);
        let ghost bottom = 2 * pow2(t as nat);
        let ghost p = pow2(e as nat) as int;
        proof {
            lemma_pow2_adds(t as nat, e as nat);
            lemma_pow2_pos(t as nat);
            assert(n == top * p && 2 * one == bottom * p) by (nonlinear_arith)
                requires
                    n == 2 * (m * p) + one,
                    one == pow2(t as nat) * p,
                    top == 2 * m + pow2(t as nat),
                    bottom == 2 * pow2(t as nat),
            ;
            vstd::arithmetic::div_mod::lemma_truncate_middle(top, p, bottom as int);
            vstd::arithmetic::div_mod::lemma_div_denominator(n, p, bottom as int);
            vstd::arithmetic::div_mod::lemma_div_multiples_vanish(top, p);
            vstd::arithmetic::mul::lemma_mul_is_commutative(top, p);
            vstd::arithmetic::mul::lemma_mul_is_commutative(bottom as int, p);
            assert(n / (2 * one) == top / bottom as int);
        }
        if t > 60 {
            proof {
                lemma_pow2_monotone(61, t as nat);
                vstd::arithmetic::div_mod::lemma_basic_div(top, bottom as int);
            }
            return 0;
        }
        let half: u128 = power_of_two(t as u32);
        proof {
            lemma_pow2_monotone(t as nat, 60);
        }
        let up: u128 = 2 * (m as u128) + half;
        let w: u128 = up / (2 * half);
        proof {
            vstd::arithmetic::div_mod::lemma_div_nonincreasing(up as int, 2 * half);
        }
        w as u64
    }
}

/// The number of thousand-millionths in a number, rounded half to even.
pub open spec fn nearest_billionths(magnitude: u64) -> nat {
    half_even(units(magnitude) * BILLION as nat, pow2(PLACES as nat))
}

/// The number of thousand-millionths in a finite magnitude, held at `limit`.
fn billionths_magnitude(magnitude: u64, limit: u128) -> (r: u128)
    requires
        magnitude < INFINITE_MAGNITUDE,
        limit <= LONGEST,
    ensures
        r == (if nearest_billionths(magnitude) <= limit {
            nearest_billionths(magnitude)
        } else {
            limit as nat
        }),
{
    let (m, e): (u64, i32) = parts(magnitude);
    let ghost one = pow2(PLACES as nat);
    assert((m as int) * BILLION < 0x80_0000_0000_0000_0000_0000int) by (nonlinear_arith)
        requires
            m < 0x20_0000_0000_0000,
            BILLION == 1_000_000_000,
    ;
    let scaled: u128 = (m as u128) * BILLION;
    proof {
        lemma_pow2_pos(PLACES as nat);
        lemma_pow2_pos(e as nat);
        lemma2_to64();
        lemma2_to64_rest();
        let p = pow2(e as nat);
        assert(units(magnitude) * BILLION as nat == scaled * p) by (nonlinear_arith)
            requires
                units(magnitude) == m * p,
                scaled == m * BILLION,
        ;
    }
    if e >= 1074 {
        let shift: i32 = e - 1074;
        let ghost q = pow2(shift as nat);
        proof {
            lemma_pow2_adds(shift as nat, PLACES as nat);
            lemma_mul_is_associative(scaled as int, q as int, one as int);
            lemma_half_even_cancels((scaled * q) as nat, 1, one);
            lemma_half_even_whole((scaled * q) as nat);
            lemma_pow2_pos(shift as nat);
        }
        assert(nearest_billionths(magnitude) == scaled * q);
        if shift > 11 {
            proof {
                lemma_pow2_monotone(12, shift as nat);
                assert(scaled >= 0x10_0000_0000_0000int * 1_000_000_000int) by (nonlinear_arith)
                    requires
                        scaled == m * BILLION,
                        m >= 0x10_0000_0000_0000,
                        BILLION == 1_000_000_000,
                ;
                assert(scaled * q > LONGEST) by (nonlinear_arith)
                    requires
                        scaled >= 0x10_0000_0000_0000int * 1_000_000_000int,
                        q >= 4096,
                        LONGEST == 18_446_744_073_709_551_615_999_999_999u128,
                ;
            }
            return limit;
        }
        let factor: u128 = power_of_two(shift as u32);
        proof {
            lemma_pow2_monotone(shift as nat, 11);
            assert(scaled * factor < EXACT_LIMIT) by (nonlinear_arith)
                requires
                    scaled < 0x80_0000_0000_0000_0000_0000int,
                    0 < factor <= 2048,
            ;
        }
        let total: u128 = scaled * factor;
        if total > limit {
            limit
        } else {
            total
        }
    } else {
        let t: i32 = 1074 - e;
        proof {
            lemma_pow2_adds(t as nat, e as nat);
            lemma_pow2_pos(t as nat);
            lemma_half_even_cancels(scaled as nat, pow2(t as nat), pow2(e as nat));
        }
        let total: u128 = shift_half_even(scaled, t as u32);
        if total > limit {
            limit
        } else {
            total
        }
    }
}

impl Binary64 {
    /// The sum of two numbers.
    #[verifier::opaque]
    pub open spec fn spec_plus(self, other: Binary64) -> Binary64 {
        if self.is_nan() || other.is_nan() {
            Binary64 { bits: NOT_A_NUMBER }
        } else if self.is_infinite() {
            if other.is_infinite() && self.is_negative() != other.is_negative() {
                Binary64 { bits: NOT_A_NUMBER }
            } else {
                self
            }
        } else if other.is_infinite() {
            other
        } else {
            from_units(
                signed_units(self) + signed_units(other),
                self.is_negative() && other.is_negative(),
            )
        }
    }

    /// The difference of two numbers.
    pub open spec fn spec_minus(self, other: Binary64) -> Binary64 {
        self.spec_plus(other.spec_negated())
    }

    /// The product of two numbers.
    #[verifier::opaque]
    pub open spec fn spec_times(self, other: Binary64) -> Binary64 {
        let negative = self.is_negative() != other.is_negative();
        if self.is_nan() || other.is_nan() {
            Binary64 { bits: NOT_A_NUMBER }
        } else if self.is_infinite() || other.is_infinite() {
            if self.is_zero() || other.is_zero() {
                Binary64 { bits: NOT_A_NUMBER }
            } else {
                signed(negative, INFINITE_MAGNITUDE as int)
            }
        } else {
            signed(
                negative,
                nearest(
                    units(self.magnitude()) * units(other.magnitude()),
                    pow2(PLACES as nat),
                ) as int,
            )
        }
    }

    /// The quotient of two numbers.
    #[verifier::opaque]
    pub open spec fn spec_over(self, other: Binary64) -> Binary64 {
        let negative = self.is_negative() != other.is_negative();
        if self.is_nan() || other.is_nan() {
            Binary64 { bits: NOT_A_NUMBER }
        } else if self.is_infinite() {
            if other.is_infinite() {
                Binary64 { bits: NOT_A_NUMBER }
            } else {
                signed(negative, INFINITE_MAGNITUDE as int)
            }
        } else if other.is_infinite() {
            signed(negative, 0)
        } else if other.is_zero() {
            if self.is_zero() {
                Binary64 { bits: NOT_A_NUMBER }
            } else {
                signed(negative, INFINITE_MAGNITUDE as int)
            }
        } else {
            signed(
                negative,
                nearest(
                    units(self.magnitude()) * pow2(PLACES as nat),
                    units(other.magnitude()),
                ) as int,
            )
        }
    }

    /// The remainder of the division that truncates, with the dividend's sign.
    #[verifier::opaque]
    pub open spec fn spec_remainder(self, other: Binary64) -> Binary64 {
        if self.is_nan() || other.is_nan() || self.is_infinite() || other.is_zero() {
            Binary64 { bits: NOT_A_NUMBER }
        } else if other.is_infinite() {
            self
        } else {
            signed(
                self.is_negative(),
                nearest(units(self.magnitude()) % units(other.magnitude()), 1) as int,
            )
        }
    }

    /// The remainder made non-negative by adding the divisor's size.
    pub open spec fn spec_rem_euclid(self, other: Binary64) -> Binary64 {
        let rest = self.spec_remainder(other);
        if rest.spec_less(Binary64 { bits: 0 }) {
            rest.spec_plus(other.spec_absolute())
        } else {
            rest
        }
    }

    /// The sum of two numbers.
    #[verifier::when_used_as_spec(spec_plus)]
    pub fn plus(self, other: Binary64) -> (r: Binary64)
        ensures
            r == self.spec_plus(other),
    {
        proof {
            reveal(Binary64::spec_plus);
        }
        if self.is_nan() || other.is_nan() {
            Binary64 { bits: NOT_A_NUMBER }
        } else if self.is_infinite() {
            if other.is_infinite() && self.is_negative() != other.is_negative() {
                Binary64 { bits: NOT_A_NUMBER }
            } else {
                self
            }
        } else if other.is_infinite() {
            other
        } else {
            let (_, mine): (u64, i32) = parts(self.magnitude());
            let (_, theirs): (u64, i32) = parts(other.magnitude());
            if mine >= theirs {
                ordered_sum(self, other)
            } else {
                ordered_sum(other, self)
            }
        }
    }

    /// The difference of two numbers.
    #[verifier::when_used_as_spec(spec_minus)]
    pub fn minus(self, other: Binary64) -> (r: Binary64)
        ensures
            r == self.spec_minus(other),
    {
        self.plus(other.negated())
    }

    /// The product of two numbers.
    #[verifier::when_used_as_spec(spec_times)]
    pub fn times(self, other: Binary64) -> (r: Binary64)
        ensures
            r == self.spec_times(other),
    {
        proof {
            reveal(Binary64::spec_times);
        }
        let negative: bool = self.is_negative() != other.is_negative();
        if self.is_nan() || other.is_nan() {
            return Binary64 { bits: NOT_A_NUMBER };
        }
        if self.is_infinite() || other.is_infinite() {
            if self.is_zero() || other.is_zero() {
                return Binary64 { bits: NOT_A_NUMBER };
            }
            return with_sign(negative, INFINITE_MAGNITUDE);
        }
        with_sign(negative, product_magnitude(self.magnitude(), other.magnitude()))
    }

    /// The quotient of two numbers.
    #[verifier::when_used_as_spec(spec_over)]
    pub fn over(self, other: Binary64) -> (r: Binary64)
        ensures
            r == self.spec_over(other),
    {
        proof {
            reveal(Binary64::spec_over);
        }
        let negative: bool = self.is_negative() != other.is_negative();
        if self.is_nan() || other.is_nan() {
            return Binary64 { bits: NOT_A_NUMBER };
        }
        if self.is_infinite() {
            if other.is_infinite() {
                return Binary64 { bits: NOT_A_NUMBER };
            }
            return with_sign(negative, INFINITE_MAGNITUDE);
        }
        if other.is_infinite() {
            return with_sign(negative, 0);
        }
        if other.is_zero() {
            if self.is_zero() {
                return Binary64 { bits: NOT_A_NUMBER };
            }
            return with_sign(negative, INFINITE_MAGNITUDE);
        }
        with_sign(negative, quotient_magnitude(self.magnitude(), other.magnitude()))
    }

    /// The remainder of the division that truncates, with the dividend's sign.
    #[verifier::when_used_as_spec(spec_remainder)]
    pub fn remainder(self, other: Binary64) -> (r: Binary64)
        ensures
            r == self.spec_remainder(other),
    {
        proof {
            reveal(Binary64::spec_remainder);
        }
        if self.is_nan() || other.is_nan() || self.is_infinite() || other.is_zero() {
            return Binary64 { bits: NOT_A_NUMBER };
        }
        if other.is_infinite() {
            return self;
        }
        with_sign(self.is_negative(), remainder_magnitude(self.magnitude(), other.magnitude()))
    }

    /// The remainder made non-negative by adding the divisor's size.
    #[verifier::when_used_as_spec(spec_rem_euclid)]
    pub fn rem_euclid(self, other: Binary64) -> (r: Binary64)
        ensures
            r == self.spec_rem_euclid(other),
    {
        let rest: Binary64 = self.remainder(other);
        if rest.less(Binary64 { bits: 0 }) {
            rest.plus(other.absolute())
        } else {
            rest
        }
    }

    /// The number nearest to a natural number.
    #[verifier::opaque]
    pub open spec fn spec_from_integer(n: u128) -> Binary64 {
        signed(false, nearest(n as nat * pow2(PLACES as nat), 1) as int)
    }

    /// The number nearest to a natural number.
    #[verifier::when_used_as_spec(spec_from_integer)]
    pub fn from_integer(n: u128) -> (r: Binary64)
        requires
            n < EXACT_LIMIT,
        ensures
            r == Binary64::spec_from_integer(n),
    {
        proof {
            reveal(Binary64::spec_from_integer);
        }
        if n == 0 {
            proof {
                assert(0nat * pow2(PLACES as nat) == 0);
                lemma_nearest_zero(1);
            }
            return Binary64 { bits: 0 };
        }
        Binary64 { bits: round_scaled(n, 1074) }
    }

    /// The natural number nearest to a number, halves away from zero: zero for a
    /// negative number or for none, and at most the largest machine integer.
    #[verifier::opaque]
    pub open spec fn spec_to_integer(self) -> u64 {
        if self.is_nan() || self.is_negative() {
            0
        } else if self.is_infinite() || nearest_whole(self.magnitude()) > u64::MAX {
            u64::MAX
        } else {
            nearest_whole(self.magnitude()) as u64
        }
    }

    /// The natural number nearest to a number, halves away from zero: zero for a
    /// negative number or for none, and at most the largest machine integer.
    #[verifier::when_used_as_spec(spec_to_integer)]
    pub fn to_integer(self) -> (r: u64)
        ensures
            r == self.spec_to_integer(),
    {
        proof {
            reveal(Binary64::spec_to_integer);
        }
        if self.is_nan() || self.is_negative() {
            0
        } else if self.is_infinite() {
            u64::MAX
        } else {
            whole_magnitude(self.magnitude())
        }
    }

    /// The number of thousand-millionths in a number, rounded half to even: zero
    /// for a negative number or for none, and at most `limit`.
    #[verifier::opaque]
    pub open spec fn spec_to_billionths(self, limit: u128) -> u128 {
        if self.is_nan() || self.is_negative() {
            0
        } else if self.is_infinite() || nearest_billionths(self.magnitude()) > limit {
            limit
        } else {
            nearest_billionths(self.magnitude()) as u128
        }
    }

    /// The number of thousand-millionths in a number, rounded half to even: zero
    /// for a negative number or for none, and at most `limit`.
    #[verifier::when_used_as_spec(spec_to_billionths)]
    pub fn to_billionths(self, limit: u128) -> (r: u128)
        requires
            limit <= LONGEST,
        ensures
            r == self.spec_to_billionths(limit),
    {
        proof {
            reveal(Binary64::spec_to_billionths);
        }
        if self.is_nan() || self.is_negative() {
            0
        } else if self.is_infinite() {
            limit
        } else {
            billionths_magnitude(self.magnitude(), limit)
        }
    }
}

/// Larger magnitudes stand for more units.
pub proof fn lemma_units_grow(a: u64, b: u64)
    requires
        a < b < INFINITE_MAGNITUDE,
    ensures
        units(a) < units(b),
{
    let ea = exponent(a);
    let eb = exponent(b);
    let ma = significand(a);
    let mb = significand(b);
    lemma_pow2_pos(ea);
    lemma_pow2_pos(eb);
    assert(ea <= eb);
    if ea == eb {
        assert(ma < mb);
        assert(ma * pow2(ea) < mb * pow2(ea)) by (nonlinear_arith)
            requires
                ma < mb,
                pow2(ea) > 0,
        ;
    } else {
        lemma_pow2_unfold(ea + 1);
        lemma_pow2_monotone(ea + 1, eb);
        assert(ma * pow2(ea) < SIGNIFICAND_LIMIT * pow2(ea)) by (nonlinear_arith)
            requires
                ma < SIGNIFICAND_LIMIT,
                pow2(ea) > 0,
        ;
        assert(mb * pow2(eb) >= FRACTION_SPAN * pow2(ea + 1)) by (nonlinear_arith)
            requires
                mb >= FRACTION_SPAN,
                pow2(eb) >= pow2(ea + 1),
        ;
    }
}

/// Units grow with numbers.
pub proof fn lemma_signed_units_grow(a: Binary64, b: Binary64)
    requires
        a.is_finite(),
        b.is_finite(),
    ensures
        a.less(b) <==> signed_units(a) < signed_units(b),
        a.equals(b) <==> signed_units(a) == signed_units(b),
{
    let x = a.magnitude();
    let y = b.magnitude();
    assert(units(0) == 0) by {
        assert(0 * pow2(exponent(0)) == 0);
    }
    if x < y {
        lemma_units_grow(x, y);
    } else if y < x {
        lemma_units_grow(y, x);
    }
    if x > 0 {
        lemma_units_grow(0, x);
    }
    if y > 0 {
        lemma_units_grow(0, y);
    }
}

/// A finite number minus itself is zero.
pub proof fn law_difference_with_itself(x: Binary64)
    requires
        x.is_finite(),
    ensures
        x.minus(x) == (Binary64 { bits: 0 }),
{
    reveal(Binary64::spec_plus);
}

/// The difference of two finite numbers never contradicts their order: it is not
/// positive where the first is at most the second, and not negative where it is at
/// least the second.
pub proof fn law_difference_has_the_sign_of_the_order(a: Binary64, b: Binary64)
    requires
        a.is_finite(),
        b.is_finite(),
    ensures
        a.at_most(b) ==> a.minus(b).at_most(Binary64 { bits: 0 }),
        b.at_most(a) ==> (Binary64 { bits: 0 }).at_most(a.minus(b)),
{
    reveal(Binary64::spec_plus);
    lemma_signed_units_grow(a, b);
    lemma_signed_units_grow(b, a);
    let total = signed_units(a) - signed_units(b);
    if total != 0 {
        let n = (if total < 0 { -total } else { total }) as nat;
        assert(nearest(n, 1) <= INFINITE_MAGNITUDE);
    }
}

/// Rounding keeps what is already a finite number.
pub proof fn law_rounding_is_exact_on_numbers(x: Binary64)
    requires
        x.is_finite(),
    ensures
        from_units(signed_units(x), x.is_negative()) == x,
{
    lemma_nearest_exact(x.magnitude());
    if x.magnitude() > 0 {
        lemma_units_grow(0, x.magnitude());
    }
}

/// Sums and products do not depend on the order of their terms.
pub proof fn law_sum_and_product_commute(a: Binary64, b: Binary64)
    ensures
        a.plus(b) == b.plus(a),
        a.times(b) == b.times(a),
{
    reveal(Binary64::spec_plus);
    reveal(Binary64::spec_times);
    vstd::arithmetic::mul::lemma_mul_is_commutative(
        units(a.magnitude()) as int,
        units(b.magnitude()) as int,
    );
}

} // verus!
