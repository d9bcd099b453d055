use uznav::binary64::{number, Binary64};
use uznav::time::{Span, Timestamp};
use uznav::uzmatch::speed_filter::{
    append_speed, filtered_speed, is_interval_suitable, low_pass_filter_weights, SpeedSample,
    MAX_SAVED_SPEEDS,
};

fn b(x: f64) -> Binary64 {
    number(x.to_bits())
}

fn f(x: Binary64) -> f64 {
    f64::from_bits(x.bits)
}

fn at(secs: i64) -> Timestamp {
    Timestamp { seconds: secs, nanos: 0 }
}

#[test]
fn requires_at_least_two_samples() {
    let mut history: Vec<SpeedSample> = Vec::new();
    append_speed(&mut history, b(10.0), at(0));
    assert_eq!(filtered_speed(&mut history, at(0)), None);
    append_speed(&mut history, b(12.0), at(1));
    assert_eq!(filtered_speed(&mut history, at(1)), Some(b(11.0)));
}

#[test]
fn vendor_weights_three_samples() {
    let mut history: Vec<SpeedSample> = Vec::new();
    append_speed(&mut history, b(10.0), at(0));
    append_speed(&mut history, b(20.0), at(1));
    append_speed(&mut history, b(30.0), at(2));
    let speed = f(filtered_speed(&mut history, at(2)).unwrap());
    let expected = 0.225388 * 10.0 + 0.549223 * 20.0 + 0.225388 * 30.0;
    assert!((speed - expected).abs() < 1e-9);
}

#[test]
fn evicts_samples_older_than_window() {
    let mut history: Vec<SpeedSample> = Vec::new();
    append_speed(&mut history, b(50.0), at(0));
    append_speed(&mut history, b(10.0), at(10));
    append_speed(&mut history, b(10.0), at(11));
    assert_eq!(filtered_speed(&mut history, at(11)), Some(b(10.0)));
}

#[test]
fn caps_history_at_max_saved_speeds() {
    let mut history: Vec<SpeedSample> = Vec::new();
    for i in 0..8 {
        append_speed(&mut history, b(i as f64), at(i));
    }
    assert!(history.len() <= MAX_SAVED_SPEEDS);
}

#[test]
fn out_of_order_timestamp_clears_history() {
    let mut history: Vec<SpeedSample> = Vec::new();
    append_speed(&mut history, b(10.0), at(10));
    append_speed(&mut history, b(12.0), at(11));
    append_speed(&mut history, b(8.0), at(5));
    assert_eq!(history.len(), 1);
    assert_eq!(filtered_speed(&mut history, at(5)), None);
}

#[test]
fn fills_multi_second_gaps_with_lerped_samples() {
    let mut history: Vec<SpeedSample> = Vec::new();
    append_speed(&mut history, b(10.0), at(0));
    append_speed(&mut history, b(13.0), at(3));
    assert_eq!(history.len(), 4);
    assert!((f(history[1].speed_mps) - 11.0).abs() < 1e-9);
    assert!((f(history[2].speed_mps) - 12.0).abs() < 1e-9);
    assert_eq!(history[1].timestamp, at(1));
    assert_eq!(history[2].timestamp, at(2));
}

#[test]
fn interval_suitability_matches_vendor_bounds() {
    assert!(!is_interval_suitable(Span::from_millis(99)));
    assert!(is_interval_suitable(Span::from_millis(100)));
    assert!(is_interval_suitable(Span::from_millis(4500)));
    assert!(!is_interval_suitable(Span::from_millis(4501)));
}

#[test]
fn weights_for_every_window() {
    let expected: [(usize, Vec<f64>); 4] = [
        (2, vec![0.5, 0.5]),
        (3, vec![0.225388, 0.549223, 0.225388]),
        (4, vec![0.146436, 0.353564, 0.353564, 0.146436]),
        (5, vec![0.10292, 0.242081, 0.309998, 0.242081, 0.10292]),
    ];
    for (size, weights) in expected {
        let got: Vec<f64> =
            low_pass_filter_weights(size).unwrap().into_iter().map(f).collect();
        assert_eq!(got, weights);
    }
    assert_eq!(low_pass_filter_weights(0), None);
    assert_eq!(low_pass_filter_weights(1), None);
    assert_eq!(low_pass_filter_weights(6), None);
}

#[test]
fn a_full_window_is_weighted_in_the_middle() {
    let mut history: Vec<SpeedSample> = Vec::new();
    for (second, speed) in [0.0, 0.0, 10.0, 0.0, 0.0].into_iter().enumerate() {
        append_speed(&mut history, b(speed), at(second as i64));
    }
    assert_eq!(history.len(), 5);
    assert_eq!(filtered_speed(&mut history, at(4)), Some(b(0.309998 * 10.0)));
}

#[test]
fn the_oldest_of_six_close_samples_is_dropped() {
    let mut history: Vec<SpeedSample> = Vec::new();
    for i in 0..6u64 {
        append_speed(&mut history, b(i as f64), at(0).later_by(Span::from_millis(500 * i)));
        assert!(history.len() <= MAX_SAVED_SPEEDS);
    }
    let kept: Vec<f64> = history.iter().map(|sample| f(sample.speed_mps)).collect();
    assert_eq!(kept, [1.0, 2.0, 3.0, 4.0, 5.0]);
    assert_eq!(history[4].timestamp, Timestamp { seconds: 2, nanos: 500_000_000 });
}

#[test]
fn samples_that_fill_a_gap_push_out_the_oldest() {
    let mut history: Vec<SpeedSample> = Vec::new();
    for i in 0..3u64 {
        append_speed(&mut history, b(i as f64), at(0).later_by(Span::from_millis(400 * i)));
    }
    append_speed(&mut history, b(5.0), Timestamp { seconds: 3, nanos: 800_000_000 });
    let kept: Vec<f64> = history.iter().map(|sample| f(sample.speed_mps)).collect();
    assert_eq!(kept, [1.0, 2.0, 3.0, 4.0, 5.0]);
}
