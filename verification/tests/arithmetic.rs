use uznav::arithmetic::LONGEST;
use uznav::binary64::{number, Binary64};
use uznav::time::{Span, Timestamp};

fn b(x: f64) -> Binary64 {
    number(x.to_bits())
}

/// Whether a result is the expected one; every undefined value is as good as another.
fn same(got: Binary64, expected: f64) -> bool {
    if expected.is_nan() {
        got.is_nan()
    } else {
        got.bits == expected.to_bits()
    }
}

fn corner_values() -> Vec<f64> {
    let mut values = vec![
        0.0,
        -0.0,
        1.0,
        -1.0,
        0.1,
        -0.3,
        1.5,
        2.5,
        3.5,
        1e-300,
        -1e300,
        1e300,
        f64::MAX,
        f64::MIN,
        f64::MIN_POSITIVE,
        f64::MIN_POSITIVE / 2.0,
        f64::from_bits(1),
        f64::from_bits(3),
        -f64::from_bits(1),
        f64::EPSILON,
        1.0 + f64::EPSILON,
        1.0 - f64::EPSILON / 2.0,
        f64::INFINITY,
        f64::NEG_INFINITY,
        f64::NAN,
        4503599627370496.0,
        9007199254740991.0,
        9007199254740992.0,
        9007199254740993.0,
        360.0,
        -180.0,
        110000.0,
    ];
    let mut state: u64 = 0x9e37_79b9_7f4a_7c15;
    for _ in 0..60 {
        state ^= state << 13;
        state ^= state >> 7;
        state ^= state << 17;
        values.push(f64::from_bits(state));
        values.push((state % 1_000_000) as f64 / 1000.0 - 500.0);
    }
    values
}

#[test]
fn sums_are_those_of_the_machine() {
    for x in corner_values() {
        for y in corner_values() {
            assert!(same(b(x).plus(b(y)), x + y), "{x:?} + {y:?}");
            assert!(same(b(x).minus(b(y)), x - y), "{x:?} - {y:?}");
        }
    }
}

#[test]
fn products_and_quotients_are_those_of_the_machine() {
    for x in corner_values() {
        for y in corner_values() {
            assert!(same(b(x).times(b(y)), x * y), "{x:?} * {y:?}");
            assert!(same(b(x).over(b(y)), x / y), "{x:?} / {y:?}");
        }
    }
}

#[test]
fn remainders_are_those_of_the_machine() {
    for x in corner_values() {
        for y in [360.0, 0.1, -7.5, 1e-300, f64::INFINITY, 0.0, f64::NAN, 3.0] {
            assert!(same(b(x).remainder(b(y)), x % y), "{x:?} % {y:?}");
            assert!(same(b(x).rem_euclid(b(y)), x.rem_euclid(y)), "{x:?} rem {y:?}");
        }
    }
}

#[test]
fn comparisons_are_those_of_the_machine() {
    for x in corner_values() {
        for y in corner_values() {
            assert_eq!(b(x).less(b(y)), x < y, "{x:?} < {y:?}");
            assert_eq!(b(x).at_most(b(y)), x <= y, "{x:?} <= {y:?}");
            assert_eq!(b(x).equals(b(y)), x == y, "{x:?} == {y:?}");
            assert_eq!(
                b(x).totally_before(b(y)),
                x.total_cmp(&y) == std::cmp::Ordering::Less,
                "{x:?} before {y:?}"
            );
            if !x.is_nan() && !y.is_nan() && x != y {
                assert!(same(b(x).min(b(y)), x.min(y)), "min {x:?} {y:?}");
                assert!(same(b(x).max(b(y)), x.max(y)), "max {x:?} {y:?}");
            }
        }
        assert_eq!(b(x).is_finite(), x.is_finite());
        assert_eq!(b(x).is_infinite(), x.is_infinite());
        assert_eq!(b(x).is_nan(), x.is_nan());
        assert!(same(b(x).absolute(), x.abs()));
        assert!(same(b(x).negated(), -x));
    }
}

#[test]
fn what_is_no_number_gives_way() {
    assert!(same(b(f64::NAN).min(b(2.0)), 2.0));
    assert!(same(b(2.0).min(b(f64::NAN)), 2.0));
    assert!(same(b(f64::NAN).max(b(2.0)), 2.0));
    assert!(same(b(2.0).max(b(f64::NAN)), 2.0));
}

#[test]
fn clamping_moves_to_the_nearer_bound() {
    assert!(same(b(-1.0).clamp(b(0.0), b(1.0)), 0.0));
    assert!(same(b(0.5).clamp(b(0.0), b(1.0)), 0.5));
    assert!(same(b(7.0).clamp(b(0.0), b(1.0)), 1.0));
}

#[test]
fn integers_convert_both_ways() {
    for n in [0u64, 1, 2, 49, 1000, 65535, 1 << 53, (1 << 53) + 1, u64::MAX] {
        assert!(same(Binary64::from_integer(n as u128), n as f64), "{n}");
    }
    for x in [0.0, 0.4, 0.5, 1.5, 2.5, 1e6 + 0.49, 1e18, 1e30, -3.0, f64::NAN, f64::INFINITY] {
        assert_eq!(b(x).to_integer(), x.round() as u64, "{x}");
    }
}

#[test]
fn seconds_convert_as_durations_do() {
    for x in [0.0, 1e-9, 0.1, 0.333_333_333_3, 1.0, 2.5, 1e6, 123_456.789, 0.999_999_999_9] {
        let expected = std::time::Duration::from_secs_f64(x).as_nanos();
        assert_eq!(b(x).to_billionths(LONGEST), expected, "{x}");
    }
    assert_eq!(b(-1.0).to_billionths(LONGEST), 0);
    assert_eq!(b(f64::NAN).to_billionths(LONGEST), 0);
    assert_eq!(b(f64::INFINITY).to_billionths(LONGEST), LONGEST);
    for nanos in [0u128, 1, 999_999_999, 1_000_000_000, 2_500_000_000, 86_400_000_000_001] {
        let duration =
            std::time::Duration::new((nanos / 1_000_000_000) as u64, (nanos % 1_000_000_000) as u32);
        assert!(same(Span { nanos }.as_seconds(), duration.as_secs_f64()), "{nanos}");
    }
}

#[test]
fn instants_are_ordered_and_move() {
    let start = Timestamp { seconds: 10, nanos: 900_000_000 };
    let later = start.later_by(Span::from_millis(200));
    assert_eq!(later, Timestamp { seconds: 11, nanos: 100_000_000 });
    assert!(start.before(later));
    assert!(!later.before(start));
    assert_eq!(later.since(start), Some(Span { nanos: 200_000_000 }));
    assert_eq!(start.since(later), None);
    let end = Timestamp { seconds: i64::MAX, nanos: 999_999_999 };
    assert_eq!(end.checked_add(Span { nanos: 1 }), None);
    assert_eq!(end.later_by(Span { nanos: 1 }), end);
    assert_eq!(end.checked_add(Span { nanos: 0 }), Some(end));
}

#[test]
fn arithmetic_keeps_its_laws() {
    for x in corner_values() {
        if x.is_finite() {
            assert!(same(b(x).times(b(1.0)), x));
            assert!(b(x).times(b(0.0)).is_zero());
            assert!(b(x).plus(b(0.0)).equals(b(x)));
            assert!(same(b(x).minus(b(x)), 0.0));
            if x != 0.0 {
                assert!(same(b(x).over(b(x)), 1.0));
            }
        }
    }
}
