use uznav::binary64::{number, Binary64};
use uznav::time::{Span, Timestamp};
use uznav::uzmatch::standing::StandingState;

fn b(x: f64) -> Binary64 {
    number(x.to_bits())
}

fn at(secs: i64) -> Timestamp {
    Timestamp { seconds: secs, nanos: 0 }
}

const THRESHOLD: f64 = 0.5;

fn signal(state: &mut StandingState, speed: Option<f64>, secs: i64) {
    state.on_accurate_signal(speed.map(b), at(secs), b(THRESHOLD), Span::from_millis(7_000));
}

#[test]
fn standing_after_seven_seconds_below_threshold() {
    let mut state = StandingState::default();
    for t in 0..7 {
        signal(&mut state, Some(0.0), t);
        assert!(!state.is_standing, "must not be standing at t={t}");
    }
    signal(&mut state, Some(0.3), 7);
    assert!(state.is_standing);
}

#[test]
fn moving_signal_resets_history() {
    let mut state = StandingState::default();
    signal(&mut state, Some(0.0), 0);
    signal(&mut state, Some(0.0), 6);
    signal(&mut state, Some(2.0), 7);
    assert!(!state.is_standing);
    assert_eq!(state.oldest_signal, None);
    signal(&mut state, Some(0.0), 8);
    signal(&mut state, Some(0.0), 14);
    assert!(!state.is_standing);
    signal(&mut state, Some(0.0), 15);
    assert!(state.is_standing);
}

#[test]
fn stale_signal_expires() {
    let mut state = StandingState::default();
    signal(&mut state, Some(0.0), 0);
    signal(&mut state, Some(0.0), 7);
    assert!(state.is_standing);
    state.expire_if_stale(at(13), Span::from_millis(5_000));
    assert!(!state.is_standing);
    assert_eq!(state.latest_signal, None);
}

#[test]
fn missing_speed_counts_as_standing_signal() {
    let mut state = StandingState::default();
    signal(&mut state, None, 0);
    signal(&mut state, None, 7);
    assert!(state.is_standing);
}

#[test]
fn a_fresh_signal_does_not_expire() {
    let mut state = StandingState::default();
    signal(&mut state, Some(0.0), 0);
    signal(&mut state, Some(0.0), 7);
    state.expire_if_stale(at(12), Span::from_millis(5_000));
    assert!(state.is_standing);
    state.expire_if_stale(at(3), Span::from_millis(5_000));
    assert!(state.is_standing);
}

#[test]
fn the_threshold_itself_counts_as_standing() {
    let mut state = StandingState::default();
    signal(&mut state, Some(0.5), 0);
    signal(&mut state, Some(0.5), 7);
    assert!(state.is_standing);
    signal(&mut state, Some(0.500_000_1), 8);
    assert!(!state.is_standing);
}

#[test]
fn resetting_forgets_the_run() {
    let mut state = StandingState::default();
    signal(&mut state, Some(0.0), 0);
    signal(&mut state, Some(0.0), 7);
    state.reset();
    assert_eq!(state, StandingState::default());
}
