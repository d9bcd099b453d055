use uznav::time::Timestamp;
use uznav::uzmatch::location_class::{LocationClassState, UzLocationClass};

fn at(secs: i64) -> Timestamp {
    Timestamp { seconds: secs, nanos: 0 }
}

#[test]
fn initial_state_is_outdated() {
    let mut sm = LocationClassState::default();
    assert_eq!(sm.state_at(at(0)), UzLocationClass::Outdated);
}

#[test]
fn fine_degrades_through_vendor_timeouts() {
    let mut sm = LocationClassState::default();
    sm.on_fine_location(at(100));
    assert_eq!(sm.state_at(at(100)), UzLocationClass::Fine);
    assert_eq!(sm.state_at(at(102)), UzLocationClass::Fine);
    assert_eq!(sm.state_at(at(103)), UzLocationClass::Extrapolated);
    assert_eq!(sm.state_at(at(132)), UzLocationClass::Extrapolated);
    assert_eq!(sm.state_at(at(133)), UzLocationClass::Coarse);
    assert_eq!(sm.state_at(at(312)), UzLocationClass::Coarse);
    assert_eq!(sm.state_at(at(313)), UzLocationClass::Outdated);
}

#[test]
fn coarse_signal_does_not_downgrade_fine() {
    let mut sm = LocationClassState::default();
    sm.on_fine_location(at(100));
    sm.on_coarse_location(at(101));
    assert_eq!(sm.state_at(at(101)), UzLocationClass::Fine);
}

#[test]
fn coarse_bound_location_yields_extrapolated() {
    let mut sm = LocationClassState::default();
    sm.on_fine_location(at(0));
    sm.state_at(at(10));
    sm.on_coarse_bound_location(at(10));
    assert_eq!(sm.state_at(at(10)), UzLocationClass::Extrapolated);
    let mut sm2 = LocationClassState::default();
    sm2.on_fine_location(at(0));
    sm2.on_coarse_bound_location(at(1));
    assert_eq!(sm2.state_at(at(1)), UzLocationClass::Fine);
}

#[test]
fn out_of_order_events_are_ignored() {
    let mut sm = LocationClassState::default();
    sm.on_fine_location(at(100));
    sm.on_fine_location(at(50));
    assert_eq!(sm.since, Some(at(100)));
}

#[test]
fn classes_are_accurate_or_not() {
    assert!(UzLocationClass::Fine.is_accurate());
    assert!(UzLocationClass::Extrapolated.is_accurate());
    assert!(!UzLocationClass::Coarse.is_accurate());
    assert!(!UzLocationClass::Outdated.is_accurate());
}

#[test]
fn a_long_silence_decays_at_once() {
    let mut sm = LocationClassState::default();
    sm.on_fine_location(at(100));
    assert_eq!(sm.state_at(at(100_000)), UzLocationClass::Outdated);
    assert_eq!(sm.state_at(at(200_000)), UzLocationClass::Outdated);
}

#[test]
fn a_coarse_fix_makes_an_outdated_class_coarse() {
    let mut sm = LocationClassState::default();
    sm.on_coarse_location(at(10));
    assert_eq!(sm.state_at(at(10)), UzLocationClass::Coarse);
    assert_eq!(sm.since, Some(at(10)));
}

#[test]
fn asking_about_the_past_changes_nothing() {
    let mut sm = LocationClassState::default();
    sm.on_fine_location(at(100));
    assert_eq!(sm.state_at(at(10)), UzLocationClass::Fine);
    assert_eq!(sm.since, Some(at(100)));
}
