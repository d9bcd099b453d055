use geo::{Bearing, Distance, Geodesic, Haversine, Point};
use uznav::binary64::{number, Binary64};
use uznav::models::{
    BoundingBox, CourseOverGround, GeographicCoordinate, Route, Speed, UserLocation,
};
use uznav::time::Timestamp;
use uznav::uzmatch::location_class::UzLocationClass;
use uznav::uzmatch::snap::{
    RoutePosition, RouteSnapIndex, SegmentMeasure, SnapCandidate, MAX_SNAP_CANDIDATES,
};
use uznav::uzmatch::temporal::{
    jump_likelihood, jump_terms, TemporalCandidate, TemporalMatchState, TransitionMeasures,
};
use uznav::uzmatch::{ClingState, MatchMeasurements, UzmatchConfig, UzmatchState};

fn b(x: f64) -> Binary64 {
    number(x.to_bits())
}

fn f(x: Binary64) -> f64 {
    f64::from_bits(x.bits)
}

fn coordinate(lat: f64, lng: f64) -> GeographicCoordinate {
    GeographicCoordinate { lat: b(lat), lng: b(lng) }
}

fn point(c: GeographicCoordinate) -> Point {
    Point::new(f(c.lng), f(c.lat))
}

fn haversine(from: GeographicCoordinate, to: GeographicCoordinate) -> f64 {
    Haversine.distance(point(from), point(to))
}

fn course(degrees: f64) -> CourseOverGround {
    CourseOverGround { degrees: degrees.round() as u16, accuracy: None }
}

fn measures(coords: &[GeographicCoordinate]) -> Vec<SegmentMeasure> {
    coords
        .windows(2)
        .map(|pair| {
            let bearing = Geodesic.bearing(point(pair[0]), point(pair[1]));
            SegmentMeasure {
                length_meters: b(haversine(pair[0], pair[1])),
                bearing_degrees: b(bearing),
                course: course(bearing.rem_euclid(360.0)),
            }
        })
        .collect()
}

fn longitude_scale(location: &UserLocation) -> Binary64 {
    b(f(location.coordinates.lat).to_radians().cos().abs())
}

fn distances(index: &RouteSnapIndex, location: &UserLocation) -> Vec<Binary64> {
    index
        .segments_to_measure(location, longitude_scale(location))
        .into_iter()
        .map(|i| {
            b(haversine(location.coordinates, index.projection(i, location.coordinates)))
        })
        .collect()
}

fn fix(lat: f64, lng: f64) -> UserLocation {
    UserLocation {
        coordinates: coordinate(lat, lng),
        horizontal_accuracy: b(5.0),
        course_over_ground: None,
        timestamp: Timestamp { seconds: 1_700_000_000, nanos: 0 },
        speed: None,
    }
}

fn log_likelihood(change: f64, before: &UserLocation, location: &UserLocation) -> Option<Binary64> {
    let terms = jump_terms(b(change), before, location)?;
    let base = f(terms.exponent).exp();
    let corrected = match terms.power {
        Some(power) => base.powf(f(power)),
        None => base,
    };
    jump_likelihood(b(corrected)).map(|likelihood| b(f(likelihood).ln()))
}

fn measurements(
    state: &UzmatchState,
    location: &UserLocation,
    index: &RouteSnapIndex,
    config: &UzmatchConfig,
) -> MatchMeasurements {
    let scale = longitude_scale(location);
    let measured = distances(index, location);
    let endpoints = state.transitions_to_measure(location, index, config, scale, &measured);
    let transitions = match state.temporal_match.previous_location {
        Some(before) => TransitionMeasures::new(
            b(haversine(before.coordinates, location.coordinates)),
            endpoints
                .into_iter()
                .map(|row| {
                    row.into_iter()
                        .map(|endpoint| {
                            let change = haversine(before.coordinates, endpoint);
                            log_likelihood(change, &before, location)
                        })
                        .collect()
                })
                .collect(),
        ),
        None => TransitionMeasures::new(b(0.0), Vec::new()),
    };
    MatchMeasurements { longitude_scale: scale, distances: measured, transitions }
}

fn at(seconds: i64) -> Timestamp {
    Timestamp { seconds, nanos: 0 }
}

fn route_along(geometry: Vec<GeographicCoordinate>) -> Route {
    Route {
        bbox: BoundingBox { sw: geometry[0], ne: geometry[geometry.len() - 1] },
        geometry,
        distance: b(0.0),
        waypoints: vec![],
        steps: vec![],
    }
}

fn test_route() -> Route {
    route_along(vec![coordinate(0.0, 0.0), coordinate(0.0, 0.001)])
}

fn config() -> UzmatchConfig {
    UzmatchConfig { enabled: true, ..UzmatchConfig::default() }
}

fn index(route: &Route) -> RouteSnapIndex {
    RouteSnapIndex::new(&route.geometry, &measures(&route.geometry))
}

fn update(state: &UzmatchState, location: &UserLocation, route: &Route) -> UzmatchState {
    let config = config();
    let measured = measurements(state, location, &index(route), &config);
    state.update(location, route, &config, &measures(&route.geometry), &measured)
}

fn update_with_index(
    state: &UzmatchState,
    location: &UserLocation,
    route_index: &RouteSnapIndex,
) -> UzmatchState {
    let config = config();
    let measured = measurements(state, location, route_index, &config);
    state.update_with_index(location, route_index, &config, &measured)
}

fn candidates(
    route_index: &RouteSnapIndex,
    location: &UserLocation,
    anchor: Option<RoutePosition>,
) -> Vec<SnapCandidate> {
    route_index.candidates_with_anchor(
        location,
        &config(),
        anchor,
        longitude_scale(location),
        &distances(route_index, location),
    )
}

fn moving(value: f64) -> Option<Speed> {
    Some(Speed { value: b(value), accuracy: None })
}

fn segment(state: &UzmatchState) -> Option<u64> {
    state.route_position.map(|position| position.segment_index)
}

#[test]
fn disabled_by_default() {
    assert!(!UzmatchConfig::default().enabled);
}

#[test]
fn update_produces_route_position_for_fine_location() {
    let route = test_route();
    let loc = UserLocation { timestamp: at(0), speed: moving(10.0), ..fix(0.0001, 0.0005) };
    let mut next = update(&UzmatchState::default(), &loc, &route);
    let snapshot = next.snapshot(at(0));
    assert_eq!(snapshot.location_class, UzLocationClass::Fine);
    let position = snapshot.route_position.expect("fine location must snap");
    assert_eq!(position.segment_index, 0);
    assert!(!snapshot.is_standing);
}

#[test]
fn temporal_match_stays_on_the_entered_branch_at_a_self_crossing() {
    let route = route_along(vec![
        coordinate(0.0, -0.001),
        coordinate(0.0, 0.001),
        coordinate(0.001, 0.001),
        coordinate(-0.001, -0.001),
    ]);
    let route_index = index(&route);
    let moving_slowly = |seconds: i64, lng: f64, lat: f64| UserLocation {
        timestamp: at(seconds),
        speed: moving(2.0),
        ..fix(lat, lng)
    };

    let before_crossing = moving_slowly(0, 0.0002, 0.0002);
    let at_crossing = moving_slowly(1, 0.0, 0.0);
    let frame_local = route_index
        .snap_to_route(
            &at_crossing,
            &config(),
            longitude_scale(&at_crossing),
            &distances(&route_index, &at_crossing),
        )
        .expect("crossing must produce a frame-local candidate");
    assert_eq!(
        frame_local.segment_index, 0,
        "route-order tie break demonstrates the frame-local ambiguity"
    );

    let state = update_with_index(&UzmatchState::default(), &before_crossing, &route_index);
    assert_eq!(segment(&state), Some(2));

    let state = update_with_index(&state, &at_crossing, &route_index);
    assert_eq!(
        segment(&state),
        Some(2),
        "temporal continuity must keep the branch already being travelled"
    );
}

#[test]
fn temporal_match_preserves_previous_branch_when_more_than_ten_segments_overlap() {
    let start = coordinate(0.0, -0.001);
    let end = coordinate(0.0, 0.001);
    let route =
        route_along((0..=20).map(|i| if i % 2 == 0 { start } else { end }).collect());
    let previous_location =
        UserLocation { timestamp: at(0), speed: moving(10.0), ..fix(0.0, 0.0) };
    let previous_route_position = RoutePosition {
        segment_index: 15,
        segment_offset_meters: b(111.0),
        distance_along_route_meters: b(3_447.0),
        coordinates: coordinate(0.0, 0.0),
        course_over_ground: None,
    };
    let state = UzmatchState {
        route_position: Some(previous_route_position),
        temporal_match: TemporalMatchState {
            candidates: vec![TemporalCandidate {
                route_position: previous_route_position,
                accumulated_log_likelihood: b(0.0),
            }],
            previous_location: Some(previous_location),
        },
        ..UzmatchState::default()
    };
    let current_location = UserLocation { timestamp: at(1), ..previous_location };

    let route_index = index(&route);
    let frame_local = candidates(&route_index, &current_location, None);
    assert_eq!(
        frame_local.first().map(|candidate| candidate.route_position.segment_index),
        Some(0)
    );
    assert!(
        frame_local
            .iter()
            .all(|candidate| candidate.route_position.segment_index != 15),
        "the regression must demonstrate that frame-local top-K drops the established branch"
    );
    let anchored = candidates(&route_index, &current_location, Some(previous_route_position));
    assert!(anchored.len() <= MAX_SNAP_CANDIDATES * 2);
    assert!(anchored
        .iter()
        .any(|candidate| candidate.route_position.segment_index == 15));

    let state = update(&state, &current_location, &route);

    assert_eq!(
        segment(&state),
        Some(15),
        "the current projection of the previously selected branch must survive candidate truncation"
    );
}

#[test]
fn unreachable_anchored_candidates_reset_to_frame_local_emissions() {
    let start = coordinate(0.0, -0.001);
    let end = coordinate(0.0, 0.001);
    let previous_coordinates = coordinate(0.0, 0.1);
    let mut geometry =
        (0..=30).map(|i| if i % 2 == 0 { start } else { end }).collect::<Vec<_>>();
    geometry.push(previous_coordinates);
    let route = route_along(geometry);
    let previous_location = UserLocation {
        timestamp: at(0),
        coordinates: previous_coordinates,
        speed: moving(10.0),
        ..fix(0.0, 0.0)
    };
    let previous_route_position = RoutePosition {
        segment_index: 30,
        segment_offset_meters: b(11_000.0),
        distance_along_route_meters: b(100_000.0),
        coordinates: previous_coordinates,
        course_over_ground: None,
    };
    let state = UzmatchState {
        route_position: Some(previous_route_position),
        temporal_match: TemporalMatchState {
            candidates: vec![TemporalCandidate {
                route_position: previous_route_position,
                accumulated_log_likelihood: b(0.0),
            }],
            previous_location: Some(previous_location),
        },
        ..UzmatchState::default()
    };
    let current_location = UserLocation {
        timestamp: at(1),
        coordinates: coordinate(0.0, 0.0),
        ..previous_location
    };

    let state = update(&state, &current_location, &route);

    assert_eq!(
        segment(&state),
        Some(0),
        "an unreachable anchored layer must restart from the strongest frame-local emissions"
    );
}

#[test]
fn update_copy_rejects_oversized_temporal_frontier_before_clone() {
    let mut state = UzmatchState::default();
    state.temporal_match.candidates = (0..=MAX_SNAP_CANDIDATES)
        .map(|segment_index| TemporalCandidate {
            route_position: RoutePosition {
                segment_index: segment_index as u64,
                segment_offset_meters: b(0.0),
                distance_along_route_meters: b(segment_index as f64),
                coordinates: coordinate(0.0, 0.0),
                course_over_ground: None,
            },
            accumulated_log_likelihood: b(0.0),
        })
        .collect();

    let copied = state.copy_for_update();

    assert!(copied.temporal_match.candidates.is_empty());
    assert_eq!(copied.temporal_match.previous_location, None);
}

#[test]
fn coarse_location_is_not_bound_to_route() {
    let route = test_route();
    let loc = UserLocation {
        timestamp: at(0),
        horizontal_accuracy: b(100.0),
        ..fix(0.0001, 0.0005)
    };
    let mut next = update(&UzmatchState::default(), &loc, &route);
    let snapshot = next.snapshot(at(0));
    assert_eq!(snapshot.location_class, UzLocationClass::Coarse);
    assert_eq!(snapshot.route_position, None);
    assert!(next.temporal_match.candidates.is_empty());
}

fn standing_state(route: &Route) -> UzmatchState {
    let mut state = UzmatchState::default();
    for timestamp in 0..=7 {
        let fine =
            UserLocation { timestamp: at(timestamp), speed: moving(0.0), ..fix(0.0001, 0.0005) };
        state = update(&state, &fine, route);
    }
    state
}

#[test]
fn coarse_fix_after_fine_is_not_published_as_a_route_match() {
    let route = test_route();
    let state = standing_state(&route);
    assert!(state.route_position.is_some());
    assert!(state.standing.is_standing);

    let coarse = UserLocation {
        timestamp: at(8),
        horizontal_accuracy: b(100.0),
        ..fix(0.0001, 0.0005)
    };

    let mut state = update(&state, &coarse, &route);
    let snapshot = state.snapshot(at(8));

    assert_eq!(
        snapshot.location_class,
        UzLocationClass::Fine,
        "the last fine class is kept until its timeout"
    );
    assert_eq!(
        snapshot.route_position, None,
        "raw coarse fixes must not become downstream snapped positions"
    );
    assert!(state.temporal_match.candidates.is_empty());
    assert!(!snapshot.is_standing);
}

#[test]
fn invalid_accuracy_fixes_are_not_published_as_route_matches() {
    let route = test_route();
    for horizontal_accuracy in [f64::NAN, f64::INFINITY, f64::NEG_INFINITY, -1.0] {
        let location = UserLocation {
            timestamp: at(0),
            horizontal_accuracy: b(horizontal_accuracy),
            ..fix(0.0001, 0.0005)
        };

        let state = update(&UzmatchState::default(), &location, &route);

        assert_eq!(
            state.route_position, None,
            "invalid horizontal accuracy {horizontal_accuracy} must fail closed"
        );
        assert!(state.temporal_match.candidates.is_empty());
    }
}

#[test]
fn standing_detected_and_gates_nothing_by_itself() {
    let route = test_route();
    let mut state = standing_state(&route);
    let snapshot = state.snapshot(at(7));
    assert!(snapshot.is_standing);
    assert_eq!(snapshot.location_class, UzLocationClass::Fine);
}

#[test]
fn fine_off_route_fix_resets_previously_detected_standing() {
    let route = test_route();
    let state = standing_state(&route);
    assert!(state.standing.is_standing);

    let off_route =
        UserLocation { timestamp: at(8), speed: moving(0.0), ..fix(0.01, 0.0005) };
    let mut state = update(&state, &off_route, &route);
    let snapshot = state.snapshot(at(8));

    assert_eq!(snapshot.route_position, None);
    assert!(!snapshot.is_standing);
    assert_eq!(state.standing.oldest_signal, None);
    assert_eq!(state.standing.latest_signal, None);
}

#[test]
fn filtered_speed_requires_two_samples() {
    let route = test_route();
    let loc = UserLocation { timestamp: at(0), speed: moving(9.0), ..fix(0.0, 0.0005) };
    let mut state = update(&UzmatchState::default(), &loc, &route);
    assert_eq!(state.snapshot(at(0)).filtered_speed_mps, None);
    let loc2 = UserLocation { timestamp: at(1), ..loc };
    let mut state = update(&state, &loc2, &route);
    let speed = f(state.snapshot(at(1)).filtered_speed_mps.unwrap());
    assert!((speed - 9.0).abs() < 1e-9);
}

#[test]
fn a_loss_is_held_until_it_is_late_and_far() {
    let config = config();
    let loss = |seconds: i64| UserLocation { timestamp: at(seconds), ..fix(0.0, 0.0) };
    let mut cling = ClingState::default();
    assert!(!cling.holds(&loss(0), &config, b(0.0)));
    cling.anchor_on_route(coordinate(0.0, 0.0), at(10));
    assert!(cling.holds(&loss(11), &config, b(1000.0)));
    assert!(cling.holds(&loss(12), &config, b(33.0)));
    assert!(!cling.holds(&loss(12), &config, b(33.25)));
    assert_eq!(cling, ClingState::default());
    cling.anchor_on_route(coordinate(0.0, 0.0), at(10));
    assert!(!cling.holds(&loss(5), &config, b(100.0)));
}

#[test]
fn duplicates_hold_the_same() {
    let route = test_route();
    let state = standing_state(&route);
    let copy = state.duplicate();
    assert_eq!(format!("{state:?}"), format!("{copy:?}"));
}
