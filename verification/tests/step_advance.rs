use std::sync::Arc;

use geo::{Bearing, Closest, ClosestPoint, Distance, Haversine, HaversineMeasure, LineString, Point};
use uznav::binary64::{number, Binary64};
use uznav::models::{
    GeographicCoordinate, ManeuverModifier, RouteStep, UserLocation, VisualInstruction,
};
use uznav::step_advance::conditions::{
    angular_distance, first_valid_segment, is_uturn, is_valid_coordinate, last_valid_segment,
    normalized_bearing, AndAdvanceConditions, DeviationCalculationPolicy,
    DistanceEntryAndExitCondition, DistanceEntryAndExitWithUTurnConfirmationCondition,
    DistanceEntryAndSnappedExitCondition, DistanceFromStepCondition, DistanceToEndOfStepCondition,
    Evidence, Inquiry, Leg, ManualStepCondition, Movement, OrAdvanceConditions, StepAdvanceResult,
    StepCondition,
};
use uznav::step_advance::serialization::SerializableStepAdvanceCondition;
use uznav::time::{Span, Timestamp};
use uznav::trip::{
    DeviationKind, Navigation, RouteDeviation, TripProgress, TripState, TripSummary,
};

const KAN_69_T0_SECONDS: i64 = 1_785_319_200;

fn b(x: f64) -> Binary64 {
    number(x.to_bits())
}

fn f(x: Binary64) -> f64 {
    f64::from_bits(x.bits)
}

fn coordinate(lat: f64, lng: f64) -> GeographicCoordinate {
    GeographicCoordinate { lat: b(lat), lng: b(lng) }
}

fn point(c: GeographicCoordinate) -> Point {
    Point::new(f(c.lng), f(c.lat))
}

fn line(step: &RouteStep) -> LineString {
    LineString::from(
        step.geometry.iter().map(|c| (f(c.lng), f(c.lat))).collect::<Vec<(f64, f64)>>(),
    )
}

fn line_of(coords: &[GeographicCoordinate]) -> LineString {
    LineString::from(coords.iter().map(|c| (f(c.lng), f(c.lat))).collect::<Vec<(f64, f64)>>())
}

fn nearest_on(line: &LineString, to: Point) -> Option<Point> {
    match line.closest_point(&to) {
        Closest::Intersection(point) | Closest::SinglePoint(point) => Some(point),
        Closest::Indeterminate => line.points().next(),
    }
}

fn deviation_from(line: &LineString, from: Point) -> Option<f64> {
    nearest_on(line, from).map(|closest| Haversine.distance(closest, from))
}

fn canonical_distance_metres(a: GeographicCoordinate, b: GeographicCoordinate) -> f64 {
    let d_lat = (f(b.lat) - f(a.lat)).to_radians();
    let d_lng = (f(b.lng) - f(a.lng)).to_radians();
    let half_lat_sine = (d_lat / 2.0).sin();
    let half_lng_sine = (d_lng / 2.0).sin();
    let value = half_lat_sine * half_lat_sine
        + f(a.lat).to_radians().cos()
            * f(b.lat).to_radians().cos()
            * half_lng_sine
            * half_lng_sine;
    6_371_000.0 * 2.0 * value.sqrt().atan2((1.0 - value).sqrt())
}

fn raw_bearing(a: GeographicCoordinate, b: GeographicCoordinate) -> f64 {
    let start_lat = f(a.lat).to_radians();
    let end_lat = f(b.lat).to_radians();
    let delta_lng = (f(b.lng) - f(a.lng)).to_radians();
    let y = delta_lng.sin() * end_lat.cos();
    let x = start_lat.cos() * end_lat.sin() - start_lat.sin() * end_lat.cos() * delta_lng.cos();
    y.atan2(x).to_degrees()
}

fn leg(a: GeographicCoordinate, to: GeographicCoordinate) -> Leg {
    Leg {
        distance_metres: b(canonical_distance_metres(a, to)),
        bearing_degrees: b(raw_bearing(a, to)),
    }
}

fn legs(step: Option<Arc<RouteStep>>) -> Vec<Leg> {
    step.map_or(Vec::new(), |step| {
        step.geometry.windows(2).map(|pair| leg(pair[0], pair[1])).collect()
    })
}

fn answer(inquiry: &Inquiry, state: &TripState) -> Evidence {
    let step_line = || line(&state.current_step().unwrap());
    match inquiry {
        Inquiry::Nothing => Evidence::Nothing,
        Inquiry::WithinEndOfStep { position, threshold } => {
            Evidence::Within(step_line().points().last().is_some_and(|end| {
                Haversine.distance(end, point(*position)) < f64::from(*threshold)
            }))
        }
        Inquiry::DeviationFromStep { position } => {
            Evidence::Deviation(deviation_from(&step_line(), point(*position)).map(b))
        }
        Inquiry::SnappedDeviation { position, line: combined } => {
            let snapped =
                nearest_on(&line_of(combined), point(*position)).unwrap_or(point(*position));
            Evidence::Deviation(deviation_from(&step_line(), snapped).map(b))
        }
        Inquiry::Movement { from, to } => Evidence::Movement(Movement {
            movement: leg(from.coordinates, to.coordinates),
            current_step: legs(state.current_step()),
            next_step: legs(state.next_step()),
        }),
        Inquiry::Several(parts) => {
            Evidence::Several(parts.iter().map(|part| answer(part, state)).collect())
        }
    }
}

/// A step along positions given by longitude and latitude.
fn step(coords: &[(f64, f64)]) -> Arc<RouteStep> {
    step_along(coords.iter().map(|(lng, lat)| coordinate(*lat, *lng)).collect())
}

fn step_along(geometry: Vec<GeographicCoordinate>) -> Arc<RouteStep> {
    let distance: f64 = geometry
        .windows(2)
        .map(|pair| Haversine.distance(point(pair[0]), point(pair[1])))
        .sum();
    Arc::new(RouteStep { geometry, distance: b(distance), duration: b(0.0), key: 0 })
}

/// A fix at a longitude and a latitude.
fn fix(lng: f64, lat: f64, accuracy: f64) -> UserLocation {
    UserLocation {
        coordinates: coordinate(lat, lng),
        horizontal_accuracy: b(accuracy),
        course_over_ground: None,
        timestamp: Timestamp { seconds: 1_700_000_000, nanos: 0 },
        speed: None,
    }
}

fn navigating(
    user_location: UserLocation,
    remaining_steps: Vec<Arc<RouteStep>>,
    deviation: RouteDeviation,
    maneuver_modifier: Option<ManeuverModifier>,
) -> TripState {
    TripState::Navigating(Navigation {
        current_step_geometry_index: None,
        user_location,
        snapped_user_location: user_location,
        remaining_steps,
        remaining_waypoints: vec![],
        progress: TripProgress {
            distance_to_next_maneuver: b(0.0),
            distance_remaining: b(0.0),
            duration_remaining: b(0.0),
        },
        summary: TripSummary {
            distance_traveled: b(0.0),
            snapped_distance_traveled: b(0.0),
            started_at: Timestamp { seconds: 0, nanos: 0 },
            ended_at: None,
        },
        deviation,
        visual_instruction: maneuver_modifier
            .map(|modifier| VisualInstruction { content: 1, maneuver_modifier: Some(modifier) }),
        spoken_instruction: None,
        annotation: None,
        uzmatch: None,
    })
}

fn on_route(user_location: UserLocation, steps: Vec<Arc<RouteStep>>) -> TripState {
    navigating(user_location, steps, RouteDeviation::NoDeviation, None)
}

fn off_route(meters: f64) -> RouteDeviation {
    RouteDeviation::Deviation {
        kind: DeviationKind::CompletelyOffRoute { deviation_from_route_line: b(meters) },
    }
}

fn off_step(meters: f64) -> RouteDeviation {
    RouteDeviation::Deviation {
        kind: DeviationKind::OffStepOnRoute { deviation_from_step_line: b(meters) },
    }
}

fn decide(condition: &StepCondition, state: &TripState) -> StepAdvanceResult {
    condition.should_advance_step(state, &answer(&condition.inquiry(state), state))
}

fn straight_line_step() -> Arc<RouteStep> {
    step(&[(0.0, 0.0), (0.001, 0.0)])
}

fn near_start() -> UserLocation {
    fix(0.0001, 0.0, 5.0)
}

fn near_end() -> UserLocation {
    fix(0.00099, 0.0, 5.0)
}

fn far_from_route() -> UserLocation {
    fix(0.001, 0.0005, 5.0)
}

fn to_end(distance: u16) -> StepCondition {
    StepCondition::DistanceToEndOfStep(DistanceToEndOfStepCondition {
        distance,
        minimum_horizontal_accuracy: 10,
    })
}

fn from_step(calculation_policy: DeviationCalculationPolicy) -> StepCondition {
    StepCondition::DistanceFromStep(DistanceFromStepCondition {
        distance: 100,
        minimum_horizontal_accuracy: 10,
        calculation_policy,
    })
}

fn manual() -> StepCondition {
    StepCondition::Manual(ManualStepCondition)
}

fn either(conditions: Vec<StepCondition>) -> StepCondition {
    StepCondition::Or(OrAdvanceConditions {
        conditions: conditions.into_iter().map(Arc::new).collect(),
    })
}

fn all_of(conditions: Vec<StepCondition>) -> StepCondition {
    StepCondition::And(AndAdvanceConditions {
        conditions: conditions.into_iter().map(Arc::new).collect(),
    })
}

fn entry_exit(to_end: u16, after_end: u16, accuracy: u16) -> StepCondition {
    StepCondition::EntryAndExit(DistanceEntryAndExitCondition {
        distance_to_end_of_step: to_end,
        distance_after_end_of_step: after_end,
        minimum_horizontal_accuracy: accuracy,
        has_reached_end_of_current_step: false,
    })
}

fn snapped_entry_exit(to_end: u16, after_end: u16, accuracy: u16) -> StepCondition {
    StepCondition::EntryAndSnappedExit(DistanceEntryAndSnappedExitCondition {
        distance_to_end_of_step: to_end,
        distance_after_end_of_step: after_end,
        minimum_horizontal_accuracy: accuracy,
        has_reached_end_of_current_step: false,
    })
}

fn kan_69_current_step() -> Arc<RouteStep> {
    step(&[(69.00000, 41.00000), (69.00000, 41.00100)])
}

fn kan_69_next_step() -> Arc<RouteStep> {
    step(&[(69.00000, 41.00100), (69.000155, 41.00094), (69.000155, 41.00000)])
}

fn at_offset(second_offset: i64) -> Timestamp {
    Timestamp { seconds: KAN_69_T0_SECONDS + second_offset, nanos: 0 }
}

fn kan_69_location(lat: f64, lng: f64, second_offset: i64, accuracy: f64) -> UserLocation {
    UserLocation { timestamp: at_offset(second_offset), ..fix(lng, lat, accuracy) }
}

fn kan_69_state(location: UserLocation, modifier: Option<ManeuverModifier>) -> TripState {
    navigating(
        location,
        vec![kan_69_current_step(), kan_69_next_step(), kan_69_next_step()],
        RouteDeviation::NoDeviation,
        modifier,
    )
}

fn equatorial_current() -> Vec<GeographicCoordinate> {
    vec![coordinate(-0.001, 0.0), coordinate(0.0, 0.0)]
}

fn equatorial_next() -> Vec<GeographicCoordinate> {
    vec![coordinate(0.0, 0.0), coordinate(-0.001, 0.0)]
}

fn kan_69_state_with_geometry(
    location: UserLocation,
    current: Vec<GeographicCoordinate>,
    next: Vec<GeographicCoordinate>,
) -> TripState {
    on_route(
        location,
        vec![step_along(current), step_along(next.clone()), step_along(next)],
    )
}

fn confirming(required_confirmations: u8, enabled: bool) -> StepCondition {
    StepCondition::UTurnConfirmation(DistanceEntryAndExitWithUTurnConfirmationCondition::new(
        30,
        5,
        32,
        5,
        70,
        10,
        required_confirmations,
        enabled,
    ))
}

fn active_condition_with_watermark(
    required_confirmations: u8,
    confirmation_count: u8,
    movement_anchor: Option<UserLocation>,
    last_evaluated_timestamp: Option<Timestamp>,
) -> StepCondition {
    StepCondition::UTurnConfirmation(DistanceEntryAndExitWithUTurnConfirmationCondition {
        distance_to_end_of_step: 30,
        distance_after_end_of_step: 5,
        minimum_horizontal_accuracy: 32,
        minimum_significant_movement: 5,
        maximum_plausible_speed: 70,
        plausibility_distance_allowance: 10,
        required_confirmations,
        uturn_confirmation_enabled: true,
        candidate_is_uturn: Some(true),
        candidate_successor: Some(Arc::new(snapped_entry_exit(30, 5, 32))),
        confirmation_active: true,
        movement_anchor,
        confirmation_count,
        last_evaluated_timestamp,
    })
}

fn active_condition(
    required_confirmations: u8,
    confirmation_count: u8,
    movement_anchor: Option<UserLocation>,
) -> StepCondition {
    active_condition_with_watermark(
        required_confirmations,
        confirmation_count,
        movement_anchor,
        movement_anchor.map(|fix| fix.timestamp),
    )
}

fn ordinary_successor(reached: bool) -> SerializableStepAdvanceCondition {
    SerializableStepAdvanceCondition::DistanceEntryExit {
        distance_to_end_of_step: 30,
        distance_after_end_step: 5,
        minimum_horizontal_accuracy: 32,
        has_reached_end_of_current_step: reached,
    }
}

fn snapped_successor(reached: bool) -> SerializableStepAdvanceCondition {
    SerializableStepAdvanceCondition::DistanceEntryAndSnappedExit {
        distance_to_end_of_step: 30,
        distance_after_end_step: 5,
        minimum_horizontal_accuracy: 32,
        has_reached_end_of_current_step: reached,
    }
}

#[allow(clippy::too_many_arguments)]
fn wrapper_with_mode(
    uturn_confirmation_enabled: bool,
    required_confirmations: u8,
    candidate_is_uturn: Option<bool>,
    candidate_successor: Vec<SerializableStepAdvanceCondition>,
    confirmation_active: bool,
    movement_anchor: Option<UserLocation>,
    confirmation_count: u8,
    last_evaluated_timestamp: Option<Timestamp>,
) -> SerializableStepAdvanceCondition {
    SerializableStepAdvanceCondition::DistanceEntryAndExitWithUTurnConfirmation {
        distance_to_end_of_step: 30,
        distance_after_end_step: 5,
        minimum_horizontal_accuracy: 32,
        minimum_significant_movement: 5,
        maximum_plausible_speed: 70,
        plausibility_distance_allowance: 10,
        required_confirmations,
        uturn_confirmation_enabled,
        candidate_is_uturn,
        candidate_successor,
        confirmation_active,
        movement_anchor,
        confirmation_count,
        last_evaluated_timestamp,
    }
}

fn wrapper(
    required_confirmations: u8,
    candidate_is_uturn: Option<bool>,
    candidate_successor: Vec<SerializableStepAdvanceCondition>,
    confirmation_active: bool,
    movement_anchor: Option<UserLocation>,
    confirmation_count: u8,
    last_evaluated_timestamp: Option<Timestamp>,
) -> SerializableStepAdvanceCondition {
    wrapper_with_mode(
        true,
        required_confirmations,
        candidate_is_uturn,
        candidate_successor,
        confirmation_active,
        movement_anchor,
        confirmation_count,
        last_evaluated_timestamp,
    )
}

fn expected_active(
    required_confirmations: u8,
    movement_anchor: Option<UserLocation>,
    confirmation_count: u8,
    last_evaluated_timestamp: Option<Timestamp>,
) -> SerializableStepAdvanceCondition {
    wrapper(
        required_confirmations,
        Some(true),
        vec![snapped_successor(false)],
        true,
        movement_anchor,
        confirmation_count,
        last_evaluated_timestamp,
    )
}

fn expected_reset(
    required_confirmations: u8,
    last_evaluated_timestamp: Option<Timestamp>,
) -> SerializableStepAdvanceCondition {
    wrapper(required_confirmations, None, vec![], false, None, 0, last_evaluated_timestamp)
}

fn assert_result(
    result: StepAdvanceResult,
    should_advance: bool,
    expected: SerializableStepAdvanceCondition,
) -> StepAdvanceResult {
    assert_eq!(result.should_advance(), should_advance);
    assert_eq!(result.next_iteration.to_js(), expected);
    result
}

fn evaluate_active(
    location: UserLocation,
    current: Vec<GeographicCoordinate>,
    next: Vec<GeographicCoordinate>,
    required_confirmations: u8,
    confirmation_count: u8,
    anchor: UserLocation,
) -> StepAdvanceResult {
    decide(
        &active_condition(required_confirmations, confirmation_count, Some(anchor)),
        &kan_69_state_with_geometry(location, current, next),
    )
}

fn canonical_bearing_degrees(a: GeographicCoordinate, b: GeographicCoordinate) -> f64 {
    (raw_bearing(a, b) + 360.0) % 360.0
}

fn alternative_bearing_degrees(a: GeographicCoordinate, b: GeographicCoordinate) -> f64 {
    let start_lat = f(a.lat) * std::f64::consts::PI / 180.0;
    let end_lat = f(b.lat) * std::f64::consts::PI / 180.0;
    let delta_lng = (f(b.lng) - f(a.lng)) * std::f64::consts::PI / 180.0;
    let y = delta_lng.sin() * end_lat.cos();
    let x = start_lat.cos() * end_lat.sin() - start_lat.sin() * end_lat.cos() * delta_lng.cos();
    (y.atan2(x) * 180.0 / std::f64::consts::PI + 360.0) % 360.0
}

fn canonical_angular_distance(a: f64, b: f64) -> f64 {
    (((a - b + 540.0) % 360.0) - 180.0).abs()
}

#[test]
fn kan_69_baseline_snapped_candidate_advances_before_motion_confirmation() {
    let condition = snapped_entry_exit(30, 5, 32);
    let armed_fix = kan_69_location(41.00100, 69.00000, 0, 5.0);
    let armed = decide(&condition, &kan_69_state(armed_fix, Some(ManeuverModifier::UTurn)));
    assert!(!armed.should_advance());
    let premature = decide(
        &armed.next_iteration,
        &kan_69_state(
            kan_69_location(41.00094, 69.000155, 1, 5.0),
            Some(ManeuverModifier::UTurn),
        ),
    );
    assert!(premature.should_advance());
}

#[test]
fn kan_69_uturn_requires_two_raw_movement_confirmations() {
    let condition = confirming(2, true);
    let entry_fix = kan_69_location(41.00100, 69.00000, 0, 5.0);
    let entry = decide(&condition, &kan_69_state(entry_fix, Some(ManeuverModifier::UTurn)));
    let entry = assert_result(
        entry,
        false,
        wrapper(
            2,
            Some(true),
            vec![snapped_successor(true)],
            false,
            None,
            0,
            Some(entry_fix.timestamp),
        ),
    );

    let candidate_fix = kan_69_location(41.00094, 69.000155, 1, 5.0);
    let candidate = decide(
        &entry.next_iteration,
        &kan_69_state(candidate_fix, Some(ManeuverModifier::UTurn)),
    );
    let candidate = assert_result(
        candidate,
        false,
        wrapper(
            2,
            Some(true),
            vec![snapped_successor(false)],
            true,
            Some(candidate_fix),
            0,
            Some(candidate_fix.timestamp),
        ),
    );

    let first_fix = kan_69_location(41.00088, 69.000155, 2, 5.0);
    let first = decide(&candidate.next_iteration, &kan_69_state(first_fix, None));
    let first = assert_result(
        first,
        false,
        wrapper(
            2,
            Some(true),
            vec![snapped_successor(false)],
            true,
            Some(first_fix),
            1,
            Some(first_fix.timestamp),
        ),
    );

    let second_fix = kan_69_location(41.00082, 69.000155, 3, 5.0);
    let second = decide(&first.next_iteration, &kan_69_state(second_fix, None));
    assert_result(
        second,
        true,
        wrapper(2, None, vec![], false, None, 0, Some(second_fix.timestamp)),
    );
}

#[test]
fn kan_69_modifier_switch_before_latch_reselects_candidate() {
    let condition = confirming(2, true);
    let uturn_fix = kan_69_location(41.001, 69.0, 0, 5.0);
    let uturn = decide(&condition, &kan_69_state(uturn_fix, Some(ManeuverModifier::UTurn)));
    let uturn = assert_result(
        uturn,
        false,
        wrapper(
            2,
            Some(true),
            vec![snapped_successor(true)],
            false,
            None,
            0,
            Some(uturn_fix.timestamp),
        ),
    );

    let ordinary_fix = kan_69_location(41.001, 69.0, 1, 5.0);
    let ordinary = decide(&uturn.next_iteration, &kan_69_state(ordinary_fix, None));
    assert_result(
        ordinary,
        false,
        wrapper(
            2,
            Some(false),
            vec![ordinary_successor(true)],
            false,
            None,
            0,
            Some(ordinary_fix.timestamp),
        ),
    );
}

#[test]
fn kan_69_outbound_interval_resets_confirmation() {
    let candidate_fix = kan_69_location(41.00094, 69.000155, 1, 5.0);
    let return_fix = kan_69_location(41.00088, 69.000155, 2, 5.0);
    let returned =
        decide(&active_condition(2, 0, Some(candidate_fix)), &kan_69_state(return_fix, None));
    let returned = assert_result(
        returned,
        false,
        expected_active(2, Some(return_fix), 1, Some(return_fix.timestamp)),
    );

    let outbound_fix = kan_69_location(41.00094, 69.000155, 3, 5.0);
    let outbound = decide(&returned.next_iteration, &kan_69_state(outbound_fix, None));
    assert_result(
        outbound,
        false,
        expected_active(2, Some(outbound_fix), 0, Some(outbound_fix.timestamp)),
    );
}

#[test]
fn kan_69_duplicate_timestamp_is_noop_and_distinct_fix_progresses() {
    let candidate_fix = kan_69_location(41.00094, 69.000155, 1, 5.0);
    let repeated_timestamp_fix = kan_69_location(41.00088, 69.000155, 1, 5.0);
    let repeated = decide(
        &active_condition(2, 1, Some(candidate_fix)),
        &kan_69_state(repeated_timestamp_fix, None),
    );
    let repeated = assert_result(
        repeated,
        false,
        expected_active(2, Some(candidate_fix), 1, Some(candidate_fix.timestamp)),
    );

    let later_fix = kan_69_location(41.00082, 69.000155, 2, 5.0);
    let advanced = decide(&repeated.next_iteration, &kan_69_state(later_fix, None));
    let advanced =
        assert_result(advanced, true, expected_reset(2, Some(later_fix.timestamp)));

    let duplicate_after_advance = kan_69_location(41.00076, 69.000155, 2, 5.0);
    let still_reset =
        decide(&advanced.next_iteration, &kan_69_state(duplicate_after_advance, None));
    let still_reset =
        assert_result(still_reset, false, expected_reset(2, Some(later_fix.timestamp)));

    let post_reset_fix = kan_69_location(41.00082, 69.000155, 3, 5.0);
    let post_reset = decide(&still_reset.next_iteration, &kan_69_state(post_reset_fix, None));
    assert_result(
        post_reset,
        false,
        wrapper(
            2,
            Some(false),
            vec![ordinary_successor(true)],
            false,
            None,
            0,
            Some(post_reset_fix.timestamp),
        ),
    );
}

#[test]
fn kan_69_new_instance_resets_complete_transient_state() {
    let active_fix = kan_69_location(41.00088, 69.000155, 2, 5.0);
    assert_eq!(
        active_condition(2, 1, Some(active_fix)).new_instance().to_js(),
        expected_reset(2, Some(active_fix.timestamp)),
    );
}

#[test]
fn kan_69_numeric_value_domain_cases() {
    let anchor = kan_69_location(0.0, 0.0, 0, 5.0);
    let current = equatorial_current();
    let next = equatorial_next();
    let cleared = || expected_active(2, None, 0, Some(at_offset(1)));

    for lat in [f64::NAN, f64::NEG_INFINITY, f64::INFINITY, -90.0000001, 90.0000001] {
        let result = evaluate_active(
            kan_69_location(lat, 0.0, 1, 5.0),
            current.clone(),
            next.clone(),
            2,
            1,
            anchor,
        );
        assert_result(result, false, cleared());
    }

    for lat in [-90.0, 90.0] {
        assert!(is_valid_coordinate(coordinate(lat, 0.0)));
        let result = evaluate_active(
            kan_69_location(lat, 0.0, 1, 5.0),
            current.clone(),
            next.clone(),
            2,
            1,
            anchor,
        );
        assert_result(result, false, cleared());
    }

    for lng in [f64::NAN, f64::NEG_INFINITY, f64::INFINITY, -180.0000001, 180.0000001] {
        let result = evaluate_active(
            kan_69_location(0.0, lng, 1, 5.0),
            current.clone(),
            next.clone(),
            2,
            1,
            anchor,
        );
        assert_result(result, false, cleared());
    }

    for lng in [-180.0, 180.0] {
        assert!(is_valid_coordinate(coordinate(0.0, lng)));
        let result = evaluate_active(
            kan_69_location(0.0, lng, 1, 5.0),
            current.clone(),
            next.clone(),
            2,
            1,
            anchor,
        );
        assert_result(result, false, cleared());
    }

    for accuracy in [-1.0, 33.0, f64::NAN, f64::NEG_INFINITY, f64::INFINITY] {
        let result = evaluate_active(
            kan_69_location(0.0, 0.0, 1, accuracy),
            current.clone(),
            next.clone(),
            2,
            1,
            anchor,
        );
        assert_result(result, false, cleared());
    }

    for accuracy in [-0.0, 0.0, 32.0] {
        let location = kan_69_location(0.0, 0.0, 1, accuracy);
        assert!(DistanceEntryAndExitWithUTurnConfirmationCondition::new(
            30, 5, 32, 5, 70, 10, 2, true
        )
        .is_valid_fix(&location));
        let result = evaluate_active(location, current.clone(), next.clone(), 2, 1, anchor);
        assert_result(
            result,
            false,
            expected_active(2, Some(anchor), 1, Some(location.timestamp)),
        );
    }

    let equal_time = kan_69_location(0.0, 0.0, 0, 5.0);
    let backward_time = UserLocation {
        timestamp: Timestamp { seconds: KAN_69_T0_SECONDS - 1, nanos: 999_000_000 },
        ..equal_time
    };
    let equal_result = evaluate_active(equal_time, current.clone(), next.clone(), 2, 1, anchor);
    assert_result(
        equal_result,
        false,
        expected_active(2, Some(anchor), 1, Some(anchor.timestamp)),
    );

    let distinct_prior_watermark = anchor.timestamp.later_by(Span::from_millis(1_000));
    let zero_duration_result = decide(
        &active_condition_with_watermark(2, 1, Some(anchor), Some(distinct_prior_watermark)),
        &kan_69_state_with_geometry(equal_time, current.clone(), next.clone()),
    );
    assert_result(
        zero_duration_result,
        false,
        expected_active(2, None, 0, Some(equal_time.timestamp)),
    );

    let backward_result =
        evaluate_active(backward_time, current.clone(), next.clone(), 2, 1, anchor);
    assert_result(
        backward_result,
        false,
        expected_active(2, None, 0, Some(backward_time.timestamp)),
    );

    let plausible = kan_69_location(0.00071945728473498446, 0.0, 1, 5.0);
    let plausible_result =
        evaluate_active(plausible, current.clone(), next.clone(), 2, 1, anchor);
    assert_result(
        plausible_result,
        false,
        expected_active(2, Some(plausible), 0, Some(plausible.timestamp)),
    );

    let implausible = kan_69_location(0.00071946627795104368, 0.0, 1, 5.0);
    let implausible_result =
        evaluate_active(implausible, current.clone(), next.clone(), 2, 1, anchor);
    assert_result(
        implausible_result,
        false,
        expected_active(2, None, 0, Some(implausible.timestamp)),
    );

    let threshold_fix = kan_69_location(0.000044966080295936529, 0.0, 1, 5.0);
    for (bad_current, bad_next) in [
        (vec![], vec![]),
        (
            vec![coordinate(0.0, 0.0), coordinate(0.0, 0.0)],
            vec![coordinate(0.0, 0.0), coordinate(0.0, 0.0)],
        ),
    ] {
        let result = evaluate_active(threshold_fix, bad_current, bad_next, 2, 1, anchor);
        assert_result(
            result,
            false,
            expected_active(2, None, 0, Some(threshold_fix.timestamp)),
        );
    }

    let return_fix = kan_69_location(-0.000044966080295936529, 0.0, 1, 5.0);
    let prefix = evaluate_active(
        return_fix,
        vec![coordinate(f64::NAN, 0.0), coordinate(-0.001, 0.0), coordinate(0.0, 0.0)],
        next.clone(),
        2,
        1,
        anchor,
    );
    assert_result(prefix, true, expected_reset(2, Some(return_fix.timestamp)));

    let suffix = evaluate_active(
        return_fix,
        vec![coordinate(-0.001, 0.0), coordinate(0.0, 0.0), coordinate(f64::NAN, 0.0)],
        vec![coordinate(0.0, 0.0), coordinate(-0.001, 0.0), coordinate(f64::NAN, 0.0)],
        2,
        1,
        anchor,
    );
    assert_result(suffix, true, expected_reset(2, Some(return_fix.timestamp)));

    let zero_fix = kan_69_location(0.0, 0.0, 1, 5.0);
    let zero = decide(
        &confirming(0, true),
        &kan_69_state_with_geometry(zero_fix, current.clone(), next.clone()),
    );
    assert_result(zero, false, expected_reset(0, Some(zero_fix.timestamp)));

    let saturated = evaluate_active(return_fix, current, next, u8::MAX, u8::MAX, anchor);
    assert_result(saturated, true, expected_reset(u8::MAX, Some(return_fix.timestamp)));
}

#[test]
fn kan_69_distance_uses_canonical_radius() {
    let anchor = kan_69_location(0.0, 0.0, 0, 5.0);
    let boundary = kan_69_location(0.000044966053316288351, 0.0, 1, 5.0);
    let canonical_distance = canonical_distance_metres(anchor.coordinates, boundary.coordinates);
    let default_radius_distance = canonical_distance * 6_371_008.8 / 6_371_000.0;
    assert!((canonical_distance - 4.999997).abs() < 1e-12);
    assert!((default_radius_distance - 5.000003906290001).abs() < 1e-12);
    assert!(canonical_distance < 5.0);
    assert!(default_radius_distance > 5.0);

    let result =
        evaluate_active(boundary, equatorial_current(), equatorial_next(), 2, 1, anchor);
    assert_result(
        result,
        false,
        expected_active(2, Some(anchor), 1, Some(boundary.timestamp)),
    );
}

#[test]
fn kan_69_distance_uses_canonical_atan2_at_plausibility_boundary() {
    let anchor = kan_69_location(0.0, 0.0, 0, 5.0);
    let elapsed = Span { nanos: 1_123_456_789 };
    let boundary = UserLocation {
        timestamp: anchor.timestamp.checked_add(elapsed).unwrap(),
        ..kan_69_location(f64::from_bits(4_560_491_878_112_033_671), 0.0, 0, 5.0)
    };

    let canonical_distance = canonical_distance_metres(anchor.coordinates, boundary.coordinates);
    let geo_distance = HaversineMeasure::new(6_371_000.0)
        .distance(point(anchor.coordinates), point(boundary.coordinates));
    let plausible_distance =
        70.0 * std::time::Duration::new(1, 123_456_789).as_secs_f64() + 10.0;

    assert_eq!(canonical_distance.to_bits(), 4_635_938_041_415_232_588);
    assert_eq!(geo_distance.to_bits(), 4_635_938_041_415_232_587);
    assert_eq!(plausible_distance.to_bits(), 4_635_938_041_415_232_587);
    assert!(canonical_distance > plausible_distance);
    assert_eq!(geo_distance, plausible_distance);

    let result =
        evaluate_active(boundary, equatorial_current(), equatorial_next(), 2, 1, anchor);
    assert_result(result, false, expected_active(2, None, 0, Some(boundary.timestamp)));
}

#[test]
fn kan_69_bearing_uses_canonical_subtraction_order_at_decision_boundary() {
    let anchor = kan_69_location(41.0, 170.0, 0, 5.0);
    let current_fix = kan_69_location(41.001, 170.001, 2, 5.0);
    let current_end = coordinate(41.002, 170.0002);
    let next_end = coordinate(41.004, 170.00739120406232);
    let current_geometry = vec![anchor.coordinates, current_end];
    let next_geometry = vec![current_end, next_end];

    let canonical_movement =
        canonical_bearing_degrees(anchor.coordinates, current_fix.coordinates);
    let canonical_current = canonical_bearing_degrees(anchor.coordinates, current_end);
    let canonical_next = canonical_bearing_degrees(current_end, next_end);
    let canonical_current_distance =
        canonical_angular_distance(canonical_movement, canonical_current);
    let canonical_next_distance = canonical_angular_distance(canonical_movement, canonical_next);

    let geo_bearing = |origin: GeographicCoordinate, destination: GeographicCoordinate| {
        HaversineMeasure::new(6_371_000.0)
            .bearing(point(origin), point(destination))
            .rem_euclid(360.0)
    };
    let geo_movement = geo_bearing(anchor.coordinates, current_fix.coordinates);
    let geo_current = geo_bearing(anchor.coordinates, current_end);
    let geo_next = geo_bearing(current_end, next_end);
    let geo_current_distance = canonical_angular_distance(geo_movement, geo_current);
    let geo_next_distance = canonical_angular_distance(geo_movement, geo_next);
    let alternative_movement =
        alternative_bearing_degrees(anchor.coordinates, current_fix.coordinates);
    let alternative_current = alternative_bearing_degrees(anchor.coordinates, current_end);
    let alternative_next = alternative_bearing_degrees(current_end, next_end);
    let alternative_current_distance =
        canonical_angular_distance(alternative_movement, alternative_current);
    let alternative_next_distance =
        canonical_angular_distance(alternative_movement, alternative_next);

    assert!(canonical_distance_metres(anchor.coordinates, current_fix.coordinates) <= 150.0);
    assert!(canonical_next_distance < canonical_current_distance);
    assert!(geo_next_distance > geo_current_distance);
    assert!(alternative_next_distance > alternative_current_distance);

    let result = evaluate_active(current_fix, current_geometry, next_geometry, 2, 1, anchor);
    assert_result(result, true, expected_reset(2, Some(current_fix.timestamp)));
}

#[test]
fn kan_69_sub_5_movement_preserves_anchor() {
    let anchor = kan_69_location(0.0, 0.0, 0, 5.0);
    let below = kan_69_location(0.000044957087079877343, 0.0, 1, 5.0);
    let threshold = kan_69_location(0.000044966080295936529, 0.0, 1, 5.0);
    assert!(
        (canonical_distance_metres(anchor.coordinates, below.coordinates) - 4.999).abs() < 1e-12
    );
    assert!(
        (canonical_distance_metres(anchor.coordinates, threshold.coordinates) - 5.0).abs()
            < 1e-12
    );

    let below_result =
        evaluate_active(below, equatorial_current(), equatorial_next(), 2, 1, anchor);
    assert_result(
        below_result,
        false,
        expected_active(2, Some(anchor), 1, Some(below.timestamp)),
    );

    let threshold_result =
        evaluate_active(threshold, equatorial_current(), equatorial_next(), 2, 1, anchor);
    assert_result(
        threshold_result,
        false,
        expected_active(2, Some(threshold), 0, Some(threshold.timestamp)),
    );
}

#[test]
fn kan_69_bearing_strict_and_equal_branches() {
    let candidate_fix = kan_69_location(41.00094, 69.000155, 1, 5.0);
    let return_fix = kan_69_location(41.00088, 69.000155, 2, 5.0);
    let next_result =
        decide(&active_condition(2, 1, Some(candidate_fix)), &kan_69_state(return_fix, None));
    assert_result(next_result, true, expected_reset(2, Some(return_fix.timestamp)));

    let outbound_fix = kan_69_location(41.00094, 69.000155, 3, 5.0);
    let current_result =
        decide(&active_condition(2, 1, Some(return_fix)), &kan_69_state(outbound_fix, None));
    assert_result(
        current_result,
        false,
        expected_active(2, Some(outbound_fix), 0, Some(outbound_fix.timestamp)),
    );

    let equal_anchor = kan_69_location(0.0, 0.0, 0, 5.0);
    let equal_fix = kan_69_location(0.0, 0.000071945728473498446, 1, 5.0);
    let current_bearing =
        canonical_bearing_degrees(coordinate(-0.001, 0.0), coordinate(0.0, 0.0));
    let next_bearing = canonical_bearing_degrees(coordinate(0.0, 0.0), coordinate(-0.001, 0.0));
    let movement_bearing =
        canonical_bearing_degrees(equal_anchor.coordinates, equal_fix.coordinates);
    assert!((current_bearing - 0.0).abs() < 1e-12);
    assert!((next_bearing - 180.0).abs() < 1e-12);
    assert!((movement_bearing - 90.0).abs() < 1e-12);
    assert!(
        (canonical_angular_distance(movement_bearing, current_bearing)
            - canonical_angular_distance(movement_bearing, next_bearing))
        .abs()
            < 1e-12
    );

    let equal_result = evaluate_active(
        equal_fix,
        equatorial_current(),
        equatorial_next(),
        2,
        1,
        equal_anchor,
    );
    assert_result(
        equal_result,
        false,
        expected_active(2, Some(equal_fix), 1, Some(equal_fix.timestamp)),
    );
}

#[test]
fn kan_69_reuses_returned_candidate_successor_between_ticks() {
    let condition = confirming(2, true);
    let armed_fix = kan_69_location(41.00100, 69.00000, 0, 5.0);
    let armed = decide(&condition, &kan_69_state(armed_fix, None));
    let armed = assert_result(
        armed,
        false,
        wrapper(
            2,
            Some(false),
            vec![ordinary_successor(true)],
            false,
            None,
            0,
            Some(armed_fix.timestamp),
        ),
    );

    let advanced_fix = kan_69_location(41.00094, 69.000155, 1, 5.0);
    let advanced = decide(&armed.next_iteration, &kan_69_state(advanced_fix, None));
    assert_result(
        advanced,
        true,
        wrapper(2, None, vec![], false, None, 0, Some(advanced_fix.timestamp)),
    );
}

#[test]
fn kan_69_disabled_confirmation_uses_ordinary_candidate_for_uturn() {
    let condition = confirming(2, false);
    let armed_fix = kan_69_location(41.00100, 69.00000, 0, 5.0);
    let armed = decide(&condition, &kan_69_state(armed_fix, Some(ManeuverModifier::UTurn)));
    let armed = assert_result(
        armed,
        false,
        wrapper_with_mode(
            false,
            2,
            Some(false),
            vec![ordinary_successor(true)],
            false,
            None,
            0,
            Some(armed_fix.timestamp),
        ),
    );

    let advanced_fix = kan_69_location(41.00094, 69.000155, 1, 5.0);
    assert_result(
        decide(
            &armed.next_iteration,
            &kan_69_state(advanced_fix, Some(ManeuverModifier::UTurn)),
        ),
        true,
        wrapper_with_mode(
            false,
            2,
            None,
            vec![],
            false,
            None,
            0,
            Some(advanced_fix.timestamp),
        ),
    );
}

fn assert_round_trip(condition: &StepCondition) {
    let serialized = condition.to_js();
    let restored = serialized.restore();
    assert_eq!(restored.to_js(), serialized);
}

#[test]
fn kan_69_serializes_complete_ordinary_candidate_successor() {
    let condition = confirming(2, true);
    let armed_fix = kan_69_location(41.00100, 69.00000, 0, 5.0);
    let armed = decide(&condition, &kan_69_state(armed_fix, None));
    let armed = assert_result(
        armed,
        false,
        wrapper(
            2,
            Some(false),
            vec![ordinary_successor(true)],
            false,
            None,
            0,
            Some(armed_fix.timestamp),
        ),
    );
    assert_round_trip(&armed.next_iteration);
}

#[test]
fn kan_69_serializes_complete_active_confirmation_successor() {
    let condition = confirming(2, true);
    let uturn = Some(ManeuverModifier::UTurn);
    let entry = decide(
        &condition,
        &kan_69_state(kan_69_location(41.00100, 69.00000, 0, 5.0), uturn),
    );
    let candidate = decide(
        &entry.next_iteration,
        &kan_69_state(kan_69_location(41.00094, 69.000155, 1, 5.0), uturn),
    );
    let confirmed_once = decide(
        &candidate.next_iteration,
        &kan_69_state(kan_69_location(41.00088, 69.000155, 2, 5.0), uturn),
    );
    let expected_anchor = kan_69_location(41.00088, 69.000155, 2, 5.0);
    assert_eq!(
        confirmed_once.next_iteration.to_js(),
        wrapper(
            2,
            Some(true),
            vec![snapped_successor(false)],
            true,
            Some(expected_anchor),
            1,
            Some(expected_anchor.timestamp),
        ),
    );
    assert_round_trip(&confirmed_once.next_iteration);
}

#[test]
fn kan_69_malformed_serialized_successors_fail_closed() {
    let anchor = Some(kan_69_location(41.00094, 69.000155, 1, 5.0));
    let seen = anchor.map(|fix| fix.timestamp);
    let malformed = [
        (
            wrapper(
                2,
                Some(true),
                vec![snapped_successor(true), snapped_successor(false)],
                true,
                anchor,
                1,
                seen,
            ),
            true,
        ),
        (
            wrapper(2, Some(true), vec![ordinary_successor(true)], true, anchor, 1, seen),
            true,
        ),
        (wrapper(2, Some(true), vec![], true, anchor, 1, seen), true),
        (
            wrapper(2, Some(false), vec![snapped_successor(false)], false, None, 0, seen),
            true,
        ),
        (
            wrapper(2, Some(false), vec![ordinary_successor(true)], true, anchor, 1, seen),
            true,
        ),
        (
            wrapper(2, None, vec![ordinary_successor(false)], false, None, 0, seen),
            true,
        ),
        (
            wrapper(
                2,
                Some(true),
                vec![SerializableStepAdvanceCondition::DistanceEntryAndSnappedExit {
                    distance_to_end_of_step: 31,
                    distance_after_end_step: 5,
                    minimum_horizontal_accuracy: 32,
                    has_reached_end_of_current_step: false,
                }],
                false,
                None,
                0,
                seen,
            ),
            true,
        ),
        (
            wrapper_with_mode(
                false,
                2,
                Some(true),
                vec![snapped_successor(false)],
                true,
                anchor,
                1,
                seen,
            ),
            false,
        ),
    ];

    for (value, expected_enabled) in malformed {
        assert_eq!(
            value.restore().to_js(),
            wrapper_with_mode(expected_enabled, 2, None, vec![], false, None, 0, seen)
        );
    }
}

#[test]
fn test_manual_step_advance() {
    let state = on_route(near_start(), vec![straight_line_step()]);
    let result = decide(&manual(), &state);
    assert!(!result.should_advance, "Should not advance with the manual condition");
}

#[test]
fn test_distance_to_end_of_step_doesnt_advance() {
    let result = decide(&to_end(20), &on_route(near_start(), vec![straight_line_step()]));
    assert!(
        !result.should_advance,
        "Should not advance when far from the end of the step"
    );
}

#[test]
fn test_distance_to_end_of_step_advance() {
    let result = decide(&to_end(20), &on_route(near_end(), vec![straight_line_step()]));
    assert!(result.should_advance, "Should advance when close to the end of the step");
}

fn location_far_from_step() -> UserLocation {
    fix(0.005, 0.0005, 5.0)
}

fn far_from_step(policy: DeviationCalculationPolicy, deviation: RouteDeviation) -> bool {
    decide(
        &from_step(policy),
        &navigating(location_far_from_step(), vec![straight_line_step()], deviation, None),
    )
    .should_advance
}

#[test]
fn test_distance_from_step_advance_with_deviation() {
    assert!(
        far_from_step(DeviationCalculationPolicy::Always, off_route(10.0)),
        "Should advance when far from the route"
    );
}

#[test]
fn test_distance_from_step_no_advance_when_completely_off_route() {
    assert!(
        !far_from_step(DeviationCalculationPolicy::WhileOnRoute, off_route(10.0)),
        "WhileOnRoute should not advance when the user is completely off the route"
    );
}

#[test]
fn test_distance_from_step_advance() {
    assert!(
        far_from_step(
            DeviationCalculationPolicy::WhileOnRoute,
            RouteDeviation::NoDeviation
        ),
        "Should advance when far from the route"
    );
}

#[test]
fn test_or_condition_doesnt_advance() {
    let result = decide(
        &either(vec![manual(), manual()]),
        &on_route(near_start(), vec![straight_line_step()]),
    );
    assert!(
        !result.should_advance,
        "Should not advance when all OR conditions are false"
    );
}

#[test]
fn test_or_condition_advance() {
    let result = decide(
        &either(vec![manual(), to_end(20)]),
        &on_route(near_end(), vec![straight_line_step()]),
    );
    assert!(
        result.should_advance,
        "Should advance when at least one OR condition is true"
    );
}

#[test]
fn test_and_condition_doesnt_advance() {
    let result = decide(
        &all_of(vec![manual(), to_end(20)]),
        &on_route(near_end(), vec![straight_line_step()]),
    );
    assert!(
        !result.should_advance,
        "Should not advance when at least one AND condition is false"
    );
}

#[test]
fn test_and_condition_advance() {
    let result = decide(
        &all_of(vec![to_end(30), to_end(20)]),
        &on_route(near_end(), vec![straight_line_step()]),
    );
    assert!(result.should_advance, "Should advance when all AND conditions are true");
}

#[test]
fn test_entry_and_exit_condition_doesnt_advance() {
    let condition = entry_exit(10, 20, 5);
    let result1 = decide(&condition, &on_route(near_end(), vec![straight_line_step()]));
    assert!(
        !result1.should_advance,
        "Should not advance on first update even when near end of step"
    );

    let still_close = fix(0.001, 0.00002, 5.0);
    let result2 = decide(
        &result1.next_iteration,
        &on_route(still_close, vec![straight_line_step()]),
    );
    assert!(
        !result2.should_advance,
        "Should not advance when user hasn't moved far enough from the route"
    );
}

/// Reaches the end of the step, then leaves it: only the second fix advances.
fn reach_and_leave(condition: &StepCondition) -> StepAdvanceResult {
    let result1 = decide(condition, &on_route(near_end(), vec![straight_line_step()]));
    assert!(
        !result1.should_advance,
        "Should not advance on first update even when near end of step"
    );
    let result2 = decide(
        &result1.next_iteration,
        &on_route(far_from_route(), vec![straight_line_step()]),
    );
    assert!(
        result2.should_advance,
        "Should advance when user has first reached end of step and then moved away"
    );
    result2
}

#[test]
fn test_entry_and_exit_condition_advance() {
    reach_and_leave(&entry_exit(10, 20, 5));
}

#[test]
fn test_and_condition_preserves_state() {
    reach_and_leave(&all_of(vec![entry_exit(10, 5, 5)]));
}

#[test]
fn test_entry_and_exit_condition_in_and_composite_advance() {
    reach_and_leave(&all_of(vec![entry_exit(10, 5, 5), to_end(100)]));
}

#[test]
fn test_entry_and_exit_condition_in_or_composite_advance() {
    reach_and_leave(&either(vec![entry_exit(10, 5, 5), manual()]));
}

#[test]
fn test_entry_and_exit_condition_resets_in_and_composite_when_advancing() {
    let advanced = reach_and_leave(&all_of(vec![entry_exit(10, 5, 5), to_end(100)]));
    let result3 = decide(
        &advanced.next_iteration,
        &on_route(near_end(), vec![straight_line_step()]),
    );
    assert!(
        !result3.should_advance,
        "Should not advance immediately after reset - entry/exit condition should restart its two-phase process"
    );
}

#[test]
fn test_entry_and_exit_condition_resets_in_or_composite_when_advancing() {
    let advanced = reach_and_leave(&either(vec![entry_exit(10, 5, 5), manual()]));
    let result3 = decide(
        &advanced.next_iteration,
        &on_route(near_end(), vec![straight_line_step()]),
    );
    assert!(
        !result3.should_advance,
        "Should not advance immediately after reset - entry/exit condition should restart its two-phase process"
    );
}

#[test]
fn test_route_snapped_entry_and_exit_condition_advance() {
    let step1 = step(&[(0.0, 0.0), (0.001, 0.0)]);
    let step2 = step(&[(0.001, 0.0), (0.001, 0.001)]);
    let result1 =
        decide(&snapped_entry_exit(10, 5, 10), &on_route(fix(0.00099, 0.0, 5.0), vec![step1]));
    assert!(
        !result1.should_advance,
        "Should not advance on first update when entering end zone"
    );
    let result2 = decide(
        &result1.next_iteration,
        &on_route(fix(0.001, 0.0001, 5.0), vec![step2]),
    );
    assert!(
        result2.should_advance,
        "Should advance when route-snapped position has moved onto next step"
    );
}

#[test]
fn test_route_snapped_entry_and_exit_with_short_next_step() {
    let step1 = step(&[(0.0, 0.0), (0.001, 0.0)]);
    let step2 = step(&[(0.001, 0.0), (0.001, 0.000027)]);
    let step3 = step(&[(0.001, 0.000027), (0.001, 0.000054)]);
    let result1 = decide(
        &snapped_entry_exit(10, 10, 10),
        &on_route(
            fix(0.00099, 0.0, 5.0),
            vec![step1, step2.clone(), step3.clone()],
        ),
    );
    assert!(
        !result1.should_advance,
        "Should not advance on first update when entering end zone"
    );
    let result2 = decide(
        &result1.next_iteration,
        &on_route(fix(0.001, 0.000072, 5.0), vec![step2, step3]),
    );
    assert!(
        result2.should_advance,
        "Should advance with short next steps using min(configured, accumulated) distance"
    );
}

#[test]
fn test_route_snapped_entry_and_exit_with_zero_length_via_waypoint() {
    let step1 = step(&[(0.0, 0.0), (0.001, 0.0)]);
    let step2 = Arc::new(RouteStep {
        geometry: vec![coordinate(0.0, 0.001), coordinate(0.0, 0.001)],
        distance: b(0.0),
        duration: b(0.0),
        key: 0,
    });
    let step3 = step(&[(0.001, 0.0), (0.001, 0.001)]);
    let result1 = decide(
        &snapped_entry_exit(10, 5, 10),
        &on_route(
            fix(0.00099, 0.0, 5.0),
            vec![step1, step2.clone(), step3.clone()],
        ),
    );
    assert!(
        !result1.should_advance,
        "Should not advance on first update when entering end zone"
    );
    let result2 = decide(
        &result1.next_iteration,
        &on_route(fix(0.001, 0.0001, 5.0), vec![step2, step3]),
    );
    assert!(
        result2.should_advance,
        "Should advance when route-snapped position has moved onto step after 0-length via waypoint"
    );
}

#[test]
fn test_always_policy_advances_when_off_step_on_route() {
    assert!(
        far_from_step(DeviationCalculationPolicy::Always, off_step(50.0)),
        "Always should advance regardless of deviation status"
    );
}

#[test]
fn test_while_on_current_step_policy_blocks_advance_when_off_step_on_route() {
    assert!(
        !far_from_step(DeviationCalculationPolicy::WhileOnCurrentStep, off_step(50.0)),
        "WhileOnCurrentStep should block advance once the user is off the current step"
    );
}

#[test]
fn test_while_on_route_policy_advances_when_off_step_on_route() {
    assert!(
        far_from_step(DeviationCalculationPolicy::WhileOnRoute, off_step(50.0)),
        "WhileOnRoute should not block advancement when only off the current step"
    );
}

#[test]
fn test_while_on_current_step_policy_blocks_advance_when_completely_off_route() {
    assert!(
        !far_from_step(DeviationCalculationPolicy::WhileOnCurrentStep, off_route(200.0)),
        "being off the route is itself being off the current step"
    );
}

#[test]
fn test_while_on_route_policy_blocks_advance_when_completely_off_route() {
    assert!(
        !far_from_step(DeviationCalculationPolicy::WhileOnRoute, off_route(200.0)),
        "WhileOnRoute should block advancement when the user is completely off the route"
    );
}

#[test]
fn test_while_on_current_step_policy_handles_all_deviation_states() {
    let policy = DeviationCalculationPolicy::WhileOnCurrentStep;
    assert!(
        !far_from_step(policy, off_step(50.0)),
        "WhileOnCurrentStep should block on OffStepOnRoute"
    );
    assert!(
        !far_from_step(policy, off_route(200.0)),
        "WhileOnCurrentStep should block on CompletelyOffRoute"
    );
    assert!(
        far_from_step(policy, RouteDeviation::NoDeviation),
        "WhileOnCurrentStep should still allow advance when NoDeviation"
    );
}

fn spread_coordinates() -> Vec<(f64, f64)> {
    vec![
        (0.0, 0.0),
        (10.5, -45.25),
        (-179.0, 89.0),
        (179.999, -89.5),
        (69.24, 41.3),
        (-0.000_01, 0.000_01),
    ]
}

#[test]
fn manual_step_never_advances() {
    for c1 in spread_coordinates() {
        for c2 in spread_coordinates() {
            for accuracy in [0.0, 5.0, -1.0, f64::NAN, f64::INFINITY] {
                let state = on_route(fix(c2.0, c2.1, accuracy), vec![step(&[c1, c2])]);
                assert!(!decide(&manual(), &state).should_advance);
            }
        }
    }
}

#[test]
fn entry_and_exit_never_advances_on_zero_movement() {
    for c1 in spread_coordinates() {
        for c2 in spread_coordinates() {
            let state = on_route(fix(c2.0, c2.1, 5.0), vec![step(&[c1, c2])]);
            let result1 = decide(&entry_exit(10, 20, 5), &state);
            assert!(
                !result1.should_advance,
                "Should not advance on first update even when at the end of the step"
            );
            let result2 = decide(&result1.next_iteration, &state);
            assert!(
                !result2.should_advance,
                "Should not advance when user hasn't moved far enough from the route"
            );
        }
    }
}

#[test]
fn the_least_distance_itself_advances() {
    let condition = StepCondition::DistanceFromStep(DistanceFromStepCondition {
        distance: 100,
        minimum_horizontal_accuracy: 10,
        calculation_policy: DeviationCalculationPolicy::Always,
    });
    let state = on_route(near_start(), vec![straight_line_step()]);
    let at = |meters: f64| {
        condition
            .should_advance_step(&state, &Evidence::Deviation(Some(b(meters))))
            .should_advance
    };
    assert!(at(100.0));
    assert!(at(100.1));
    assert!(!at(99.999));
    assert!(!condition.should_advance_step(&state, &Evidence::Deviation(None)).should_advance);
}

#[test]
fn inaccurate_fixes_never_advance() {
    let inaccurate = fix(0.00099, 0.0, 10.5);
    let state = on_route(inaccurate, vec![straight_line_step()]);
    for condition in [
        to_end(2_000),
        from_step(DeviationCalculationPolicy::Always),
        either(vec![to_end(2_000), from_step(DeviationCalculationPolicy::Always)]),
    ] {
        assert!(!decide(&condition, &state).should_advance);
    }
    let exact = on_route(fix(0.00099, 0.0, 10.0), vec![straight_line_step()]);
    assert!(decide(&to_end(20), &exact).should_advance);
}

#[test]
fn conditions_need_a_trip_under_way() {
    let idle = TripState::Idle { user_location: Some(near_end()) };
    for condition in [
        manual(),
        to_end(2_000),
        from_step(DeviationCalculationPolicy::Always),
        entry_exit(10, 5, 5),
        snapped_entry_exit(10, 5, 5),
        confirming(2, true),
    ] {
        assert!(!decide(&condition, &idle).should_advance);
    }
}

#[test]
fn a_snapped_exit_that_fails_must_be_reached_again() {
    let next = step(&[(0.001, 0.0), (0.001, 0.001)]);
    let reached = decide(
        &snapped_entry_exit(10, 5, 10),
        &on_route(near_end(), vec![straight_line_step(), next.clone()]),
    );
    assert_eq!(
        reached.next_iteration.to_js(),
        SerializableStepAdvanceCondition::DistanceEntryAndSnappedExit {
            distance_to_end_of_step: 10,
            distance_after_end_step: 5,
            minimum_horizontal_accuracy: 10,
            has_reached_end_of_current_step: true,
        }
    );
    let not_left = decide(
        &reached.next_iteration,
        &on_route(near_end(), vec![straight_line_step(), next]),
    );
    assert!(!not_left.should_advance);
    assert_eq!(
        not_left.next_iteration.to_js(),
        SerializableStepAdvanceCondition::DistanceEntryAndSnappedExit {
            distance_to_end_of_step: 10,
            distance_after_end_step: 5,
            minimum_horizontal_accuracy: 10,
            has_reached_end_of_current_step: false,
        }
    );
}

#[test]
fn default_and_exact_thresholds() {
    assert_eq!(
        DistanceEntryAndExitCondition::default(),
        DistanceEntryAndExitCondition {
            distance_to_end_of_step: 20,
            distance_after_end_of_step: 5,
            minimum_horizontal_accuracy: 25,
            has_reached_end_of_current_step: false,
        }
    );
    assert_eq!(
        DistanceEntryAndSnappedExitCondition::default(),
        DistanceEntryAndSnappedExitCondition {
            distance_to_end_of_step: 20,
            distance_after_end_of_step: 2,
            minimum_horizontal_accuracy: 25,
            has_reached_end_of_current_step: false,
        }
    );
    assert_eq!(DistanceEntryAndExitCondition::exact().distance_to_end_of_step, 0);
    assert_eq!(DistanceEntryAndExitCondition::exact().distance_after_end_of_step, 0);
    assert_eq!(DistanceEntryAndSnappedExitCondition::exact().minimum_horizontal_accuracy, 0);
}

#[test]
fn every_condition_comes_back_from_its_data() {
    let conditions = vec![
        manual(),
        to_end(20),
        from_step(DeviationCalculationPolicy::WhileOnCurrentStep),
        entry_exit(10, 5, 5),
        snapped_entry_exit(10, 5, 5),
        confirming(2, true),
        either(vec![manual(), all_of(vec![to_end(30), entry_exit(1, 2, 3)])]),
    ];
    for condition in &conditions {
        assert_round_trip(condition);
    }
}

#[test]
fn segments_without_a_direction_are_passed_over() {
    let geometry = vec![
        coordinate(0.0, 0.0),
        coordinate(0.0, 0.0),
        coordinate(0.0, 0.001),
        coordinate(0.001, 0.001),
        coordinate(f64::NAN, 0.001),
    ];
    let step = step_along(geometry);
    let measured = legs(Some(step.clone()));
    assert_eq!(first_valid_segment(&step, &measured), Some(measured[1]));
    assert_eq!(last_valid_segment(&step, &measured), Some(measured[2]));
    assert_eq!(normalized_bearing(measured[1]), Some(b(90.0)));
    let west = leg(coordinate(0.0, 0.001), coordinate(0.0, 0.0));
    assert_eq!(f(west.bearing_degrees), -90.0);
    assert_eq!(normalized_bearing(west), Some(b(270.0)));
    let nowhere = Leg { distance_metres: b(1.0), bearing_degrees: b(f64::NAN) };
    assert_eq!(normalized_bearing(nowhere), None);
    assert_eq!(angular_distance(b(350.0), b(10.0)), b(20.0));
    assert_eq!(angular_distance(b(10.0), b(350.0)), b(20.0));
    assert_eq!(angular_distance(b(90.0), b(270.0)), b(180.0));
}

#[test]
fn a_uturn_is_announced_by_the_shown_instruction() {
    let fix = near_end();
    let steps = || vec![straight_line_step()];
    let on = RouteDeviation::NoDeviation;
    assert!(is_uturn(&navigating(fix, steps(), on, Some(ManeuverModifier::UTurn))));
    assert!(!is_uturn(&navigating(fix, steps(), on, Some(ManeuverModifier::Left))));
    assert!(!is_uturn(&navigating(fix, steps(), on, None)));
    assert!(!is_uturn(&TripState::Idle { user_location: None }));
}
