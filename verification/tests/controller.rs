use std::sync::Arc;

use geo::{
    Bearing, Closest, ClosestPoint, Distance, Geodesic, Haversine, LineString, Point,
};
use uznav::binary64::{number, Binary64};
use uznav::controller::state::{
    AdvanceFacts, CourseFiltering, InitialFacts, NavState, NavigationControllerConfig, StepFacts,
    StepMeasures, UpdateFacts, WaypointAdvanceResult,
};
use uznav::controller::NavigationController;
use uznav::models::{
    BoundingBox, CourseOverGround, GeographicCoordinate, ManeuverModifier, Route, RouteStep, Speed,
    SpokenInstruction, UserLocation, VisualInstruction, Waypoint,
};
use uznav::session::{create_navigator, NavigationObserver, Navigator};
use uznav::step_advance::conditions::{
    AndAdvanceConditions, DistanceEntryAndExitCondition,
    DistanceEntryAndExitWithUTurnConfirmationCondition, DistanceToEndOfStepCondition, Evidence,
    Inquiry, Leg, ManualStepCondition, Movement, StepCondition,
};
use uznav::step_advance::serialization::SerializableStepAdvanceCondition;
use uznav::time::{Span, Timestamp};
use uznav::trip::{
    DeviationKind, Navigation, RouteDeviation, TripProgress, TripState, TripSummary,
};
use uznav::uzmatch::location_class::UzLocationClass;
use uznav::uzmatch::snap::{RoutePosition, RouteSnapIndex, SegmentMeasure};
use uznav::uzmatch::temporal::{jump_likelihood, jump_terms, TransitionMeasures};
use uznav::uzmatch::{MatchMeasurements, UzmatchConfig, UzmatchSnapshot, UzmatchState};

fn b(x: f64) -> Binary64 {
    number(x.to_bits())
}

fn f(x: Binary64) -> f64 {
    f64::from_bits(x.bits)
}

fn coordinate(lat: f64, lng: f64) -> GeographicCoordinate {
    GeographicCoordinate { lat: b(lat), lng: b(lng) }
}

fn point(c: GeographicCoordinate) -> Point {
    Point::new(f(c.lng), f(c.lat))
}

fn haversine(from: GeographicCoordinate, to: GeographicCoordinate) -> f64 {
    Haversine.distance(point(from), point(to))
}

fn course(degrees: f64) -> CourseOverGround {
    CourseOverGround { degrees: degrees.round() as u16, accuracy: None }
}

fn measures(coords: &[GeographicCoordinate]) -> Vec<SegmentMeasure> {
    coords
        .windows(2)
        .map(|pair| {
            let bearing = Geodesic.bearing(point(pair[0]), point(pair[1]));
            SegmentMeasure {
                length_meters: b(haversine(pair[0], pair[1])),
                bearing_degrees: b(bearing),
                course: course(bearing.rem_euclid(360.0)),
            }
        })
        .collect()
}

fn longitude_scale(location: &UserLocation) -> Binary64 {
    b(f(location.coordinates.lat).to_radians().cos().abs())
}

fn distances(index: &RouteSnapIndex, location: &UserLocation) -> Vec<Binary64> {
    index
        .segments_to_measure(location, longitude_scale(location))
        .into_iter()
        .map(|i| {
            b(haversine(location.coordinates, index.projection(i, location.coordinates)))
        })
        .collect()
}

fn fix(lat: f64, lng: f64) -> UserLocation {
    UserLocation {
        coordinates: coordinate(lat, lng),
        horizontal_accuracy: b(5.0),
        course_over_ground: None,
        timestamp: Timestamp { seconds: 1_700_000_000, nanos: 0 },
        speed: None,
    }
}

fn log_likelihood(change: f64, before: &UserLocation, location: &UserLocation) -> Option<Binary64> {
    let terms = jump_terms(b(change), before, location)?;
    let base = f(terms.exponent).exp();
    let corrected = match terms.power {
        Some(power) => base.powf(f(power)),
        None => base,
    };
    jump_likelihood(b(corrected)).map(|likelihood| b(f(likelihood).ln()))
}

fn measurements(
    state: &UzmatchState,
    location: &UserLocation,
    index: &RouteSnapIndex,
    config: &UzmatchConfig,
) -> MatchMeasurements {
    let scale = longitude_scale(location);
    let measured = distances(index, location);
    let endpoints = state.transitions_to_measure(location, index, config, scale, &measured);
    let transitions = match state.temporal_match.previous_location {
        Some(before) => TransitionMeasures::new(
            b(haversine(before.coordinates, location.coordinates)),
            endpoints
                .into_iter()
                .map(|row| {
                    row.into_iter()
                        .map(|endpoint| {
                            let change = haversine(before.coordinates, endpoint);
                            log_likelihood(change, &before, location)
                        })
                        .collect()
                })
                .collect(),
        ),
        None => TransitionMeasures::new(b(0.0), Vec::new()),
    };
    MatchMeasurements { longitude_scale: scale, distances: measured, transitions }
}

fn line(step: &RouteStep) -> LineString {
    LineString::from(
        step.geometry.iter().map(|c| (f(c.lng), f(c.lat))).collect::<Vec<(f64, f64)>>(),
    )
}

fn line_of(coords: &[GeographicCoordinate]) -> LineString {
    LineString::from(coords.iter().map(|c| (f(c.lng), f(c.lat))).collect::<Vec<(f64, f64)>>())
}

fn nearest_on(line: &LineString, to: Point) -> Option<Point> {
    match line.closest_point(&to) {
        Closest::Intersection(point) | Closest::SinglePoint(point) => Some(point),
        Closest::Indeterminate => line.points().next(),
    }
}

fn deviation_from(line: &LineString, from: Point) -> Option<f64> {
    nearest_on(line, from).map(|closest| Haversine.distance(closest, from))
}

fn canonical_distance_metres(a: GeographicCoordinate, b: GeographicCoordinate) -> f64 {
    let d_lat = (f(b.lat) - f(a.lat)).to_radians();
    let d_lng = (f(b.lng) - f(a.lng)).to_radians();
    let half_lat_sine = (d_lat / 2.0).sin();
    let half_lng_sine = (d_lng / 2.0).sin();
    let value = half_lat_sine * half_lat_sine
        + f(a.lat).to_radians().cos()
            * f(b.lat).to_radians().cos()
            * half_lng_sine
            * half_lng_sine;
    6_371_000.0 * 2.0 * value.sqrt().atan2((1.0 - value).sqrt())
}

fn raw_bearing(a: GeographicCoordinate, b: GeographicCoordinate) -> f64 {
    let start_lat = f(a.lat).to_radians();
    let end_lat = f(b.lat).to_radians();
    let delta_lng = (f(b.lng) - f(a.lng)).to_radians();
    let y = delta_lng.sin() * end_lat.cos();
    let x = start_lat.cos() * end_lat.sin() - start_lat.sin() * end_lat.cos() * delta_lng.cos();
    y.atan2(x).to_degrees()
}

fn leg(a: GeographicCoordinate, to: GeographicCoordinate) -> Leg {
    Leg {
        distance_metres: b(canonical_distance_metres(a, to)),
        bearing_degrees: b(raw_bearing(a, to)),
    }
}

fn legs(step: Option<Arc<RouteStep>>) -> Vec<Leg> {
    step.map_or(Vec::new(), |step| {
        step.geometry.windows(2).map(|pair| leg(pair[0], pair[1])).collect()
    })
}

fn answer(inquiry: &Inquiry, state: &TripState) -> Evidence {
    let step_line = || line(&state.current_step().unwrap());
    match inquiry {
        Inquiry::Nothing => Evidence::Nothing,
        Inquiry::WithinEndOfStep { position, threshold } => {
            Evidence::Within(step_line().points().last().is_some_and(|end| {
                Haversine.distance(end, point(*position)) < f64::from(*threshold)
            }))
        }
        Inquiry::DeviationFromStep { position } => {
            Evidence::Deviation(deviation_from(&step_line(), point(*position)).map(b))
        }
        Inquiry::SnappedDeviation { position, line: combined } => {
            let snapped =
                nearest_on(&line_of(combined), point(*position)).unwrap_or(point(*position));
            Evidence::Deviation(deviation_from(&step_line(), snapped).map(b))
        }
        Inquiry::Movement { from, to } => Evidence::Movement(Movement {
            movement: leg(from.coordinates, to.coordinates),
            current_step: legs(state.current_step()),
            next_step: legs(state.next_step()),
        }),
        Inquiry::Several(parts) => {
            Evidence::Several(parts.iter().map(|part| answer(part, state)).collect())
        }
    }
}

/// How far from the route the host lets the user be.
#[derive(Clone, Copy)]
enum Tracking {
    Unwatched,
    StaticThreshold { minimum_horizontal_accuracy: f64, max_acceptable_deviation: f64 },
}

/// A controller, and what its host measures for it.
struct Host {
    controller: NavigationController,
    uzmatch: UzmatchConfig,
    tracking: Tracking,
}

fn unmeasured() -> MatchMeasurements {
    MatchMeasurements {
        longitude_scale: b(1.0),
        distances: vec![],
        transitions: TransitionMeasures::new(b(0.0), vec![]),
    }
}

fn no_progress() -> TripProgress {
    TripProgress {
        distance_to_next_maneuver: b(0.0),
        distance_remaining: b(0.0),
        duration_remaining: b(0.0),
    }
}

fn no_summary() -> TripSummary {
    TripSummary {
        distance_traveled: b(0.0),
        snapped_distance_traveled: b(0.0),
        started_at: Timestamp { seconds: 0, nanos: 0 },
        ended_at: None,
    }
}

/// Metres from a position to the end of a line, along the line.
fn distance_to_end(line: &[GeographicCoordinate], from: GeographicCoordinate) -> f64 {
    let mut best = (f64::INFINITY, 0.0);
    for (i, pair) in line.windows(2).enumerate() {
        let segment = line_of(pair);
        let closest = nearest_on(&segment, point(from)).unwrap();
        let away = Haversine.distance(closest, point(from));
        let rest: f64 = Haversine.distance(closest, point(pair[1]))
            + line[i + 1..].windows(2).map(|p| haversine(p[0], p[1])).sum::<f64>();
        if away < best.0 {
            best = (away, rest);
        }
    }
    best.1
}

fn progress_from(distance: f64, steps: &[Arc<RouteStep>]) -> TripProgress {
    let later = steps.iter().skip(1);
    TripProgress {
        distance_to_next_maneuver: b(distance),
        distance_remaining: b(distance + later.map(|step| f(step.distance)).sum::<f64>()),
        duration_remaining: b(0.0),
    }
}

fn closest_segment(line: &[GeographicCoordinate], to: GeographicCoordinate) -> Option<u64> {
    let mut best: Option<(f64, u64)> = None;
    for (i, pair) in line.windows(2).enumerate() {
        let closest = nearest_on(&line_of(pair), point(to))?;
        let away = Haversine.distance(closest, point(to));
        if best.is_none_or(|(least, _)| away < least) {
            best = Some((away, i as u64));
        }
    }
    best.map(|(_, i)| i)
}

impl Host {
    fn measurements(&self, state: &UzmatchState, location: &UserLocation) -> MatchMeasurements {
        match self.controller.snap_index() {
            Some(index) => measurements(state, location, index, &self.uzmatch),
            None => unmeasured(),
        }
    }

    fn step_facts(
        &self,
        location: UserLocation,
        steps: &Vec<Arc<RouteStep>>,
        snapshot: Option<UzmatchSnapshot>,
    ) -> StepFacts {
        let geometry = &steps[0].geometry;
        let nearest = nearest_on(&line(&steps[0]), point(location.coordinates));
        let projected = UserLocation {
            coordinates: nearest
                .map_or(location.coordinates, |on_line| coordinate(on_line.y(), on_line.x())),
            ..location
        };
        let mut measures = StepMeasures {
            projected,
            projected_with_course: projected,
            closest_segment: None,
            progress: no_progress(),
        };
        let segment = closest_segment(geometry, projected.coordinates);
        if let Some(i) = segment {
            let bearing = Geodesic
                .bearing(point(geometry[i as usize]), point(geometry[i as usize + 1]))
                .rem_euclid(360.0);
            measures.projected_with_course.course_over_ground = Some(course(bearing));
        }
        let snapped =
            self.controller.snap_user_to_match_or_line(location, snapshot, &measures);
        measures.closest_segment = closest_segment(geometry, snapped.coordinates);
        measures.progress = match self.controller.position_within_step(steps, snapshot) {
            Some(within) => progress_from(f(within.distance_to_next_maneuver), steps),
            None => progress_from(distance_to_end(geometry, snapped.coordinates), steps),
        };
        StepFacts {
            measures,
            summary: no_summary(),
            annotation: Some(steps[0].key + 100),
            visual_instruction: Some(VisualInstruction {
                content: steps[0].key + 200,
                maneuver_modifier: None,
            }),
            spoken_instruction: Some(SpokenInstruction { content: steps[0].key + 300 }),
        }
    }

    fn deviation(&self, state: &TripState) -> RouteDeviation {
        let (Tracking::StaticThreshold { minimum_horizontal_accuracy, max_acceptable_deviation }, TripState::Navigating(navigation)) =
            (self.tracking, state)
        else {
            return RouteDeviation::NoDeviation;
        };
        if f(navigation.user_location.horizontal_accuracy) > minimum_horizontal_accuracy {
            return RouteDeviation::NoDeviation;
        }
        let position = point(navigation.user_location.coordinates);
        let from = |step: &Arc<RouteStep>| deviation_from(&line(step), position).unwrap();
        let from_step = from(&navigation.remaining_steps[0]);
        let from_route =
            navigation.remaining_steps.iter().map(from).fold(f64::INFINITY, f64::min);
        if from_step <= max_acceptable_deviation {
            RouteDeviation::NoDeviation
        } else if from_route <= max_acceptable_deviation {
            RouteDeviation::Deviation {
                kind: DeviationKind::OffStepOnRoute { deviation_from_step_line: b(from_step) },
            }
        } else {
            RouteDeviation::Deviation {
                kind: DeviationKind::CompletelyOffRoute {
                    deviation_from_route_line: b(from_route),
                },
            }
        }
    }

    fn get_initial_state(&self, location: UserLocation) -> NavState {
        let steps = &self.controller.route().steps;
        let state = UzmatchState::default();
        let measured = self.measurements(&state, &location);
        let (_, snapshot) = self.controller.match_location(&state, &location, &measured);
        let step = self.step_facts(location, steps, snapshot);
        let probe = TripState::Navigating(Navigation {
            user_location: location,
            remaining_steps: steps.clone(),
            ..navigation(location)
        });
        self.controller.get_initial_state(
            location,
            &InitialFacts {
                started_at: Timestamp { seconds: 0, nanos: 0 },
                measurements: measured,
                step,
                deviation: self.deviation(&probe),
            },
        )
    }

    fn facts(&self, location: UserLocation, state: &NavState) -> Option<UpdateFacts> {
        let TripState::Navigating(before) = &state.trip_state else {
            return None;
        };
        let measured = self.measurements(&state.uzmatch_state, &location);
        let (core, snapshot) =
            self.controller.match_location(&state.uzmatch_state, &location, &measured);
        let step = self.step_facts(location, &before.remaining_steps, snapshot);
        let intermediate = self.controller.create_intermediate_trip_state(
            state.trip_state.duplicate(),
            location,
            before.remaining_steps.clone(),
            before.remaining_waypoints.clone(),
            before.deviation,
            snapshot,
            &step,
        );
        let bound = snapshot.and_then(|snapshot| snapshot.route_position);
        let next = if before.remaining_steps.len() > 1 {
            self.step_facts(location, &before.remaining_steps[1..].to_vec(), snapshot)
        } else {
            step
        };
        let mut facts = UpdateFacts {
            waypoints: WaypointAdvanceResult::Unchanged,
            measurements: measured,
            step,
            deviation: self.deviation(&intermediate),
            distance_from_match: b(bound
                .map_or(0.0, |position| haversine(position.coordinates, location.coordinates))),
            distance_from_anchor: b(core
                .cling
                .anchor
                .map_or(0.0, |anchor| haversine(anchor, location.coordinates))),
            evidence: Evidence::Nothing,
            advance: AdvanceFacts { waypoints: WaypointAdvanceResult::Unchanged, step: next },
        };
        let (seen, _) = self.controller.navigation_after_fix(
            location,
            before,
            &state.uzmatch_state,
            &facts,
        );
        let deciding = self.controller.deciding_condition(&state.step_advance_condition, &seen);
        if let Some(condition) = deciding {
            let trip_state = TripState::Navigating(seen);
            facts.evidence = answer(&condition.inquiry(&trip_state), &trip_state);
        }
        Some(facts)
    }

    fn update_user_location(&self, location: UserLocation, state: NavState) -> NavState {
        let mut state = state;
        loop {
            let Some(facts) = self.facts(location, &state) else {
                return state;
            };
            let outcome = self.controller.update_user_location(location, state, &facts);
            state = outcome.state;
            if !outcome.again {
                return state;
            }
        }
    }

    fn advance_to_next_step(&self, state: NavState) -> NavState {
        let step = match &state.trip_state {
            TripState::Navigating(before) if before.remaining_steps.len() > 1 => self.step_facts(
                before.user_location,
                &before.remaining_steps[1..].to_vec(),
                before.uzmatch,
            ),
            _ => self.step_facts(fix(0.0, 0.0), &self.controller.route().steps, None),
        };
        self.controller.advance_to_next_step(
            state,
            &AdvanceFacts { waypoints: WaypointAdvanceResult::Unchanged, step },
        )
    }
}

fn navigation(location: UserLocation) -> Navigation {
    Navigation {
        current_step_geometry_index: None,
        user_location: location,
        snapped_user_location: location,
        remaining_steps: vec![],
        remaining_waypoints: vec![],
        progress: no_progress(),
        summary: no_summary(),
        deviation: RouteDeviation::NoDeviation,
        visual_instruction: None,
        spoken_instruction: None,
        annotation: None,
        uzmatch: None,
    }
}

fn step_along(key: u64, geometry: Vec<GeographicCoordinate>) -> Arc<RouteStep> {
    let distance: f64 = geometry.windows(2).map(|p| haversine(p[0], p[1])).sum();
    Arc::new(RouteStep { geometry, distance: b(distance), duration: b(0.0), key })
}

fn route_of(geometry: Vec<GeographicCoordinate>, steps: Vec<Arc<RouteStep>>) -> Route {
    Route {
        bbox: BoundingBox { sw: coordinate(0.0, 0.0), ne: coordinate(1.0, 1.0) },
        geometry,
        distance: b(0.0),
        waypoints: vec![
            Waypoint { coordinate: coordinate(0.0, 0.0), key: 1 },
            Waypoint { coordinate: coordinate(0.001, 0.001), key: 2 },
        ],
        steps,
    }
}

/// A route of steps, each from a longitude and a latitude to others; the steps' lines
/// follow one another with their common vertices twice.
fn route_from_steps(steps: &[(f64, f64, f64, f64)]) -> Route {
    let steps: Vec<Arc<RouteStep>> = steps
        .iter()
        .enumerate()
        .map(|(key, (lng, lat, to_lng, to_lat))| {
            step_along(key as u64, vec![coordinate(*lat, *lng), coordinate(*to_lat, *to_lng)])
        })
        .collect();
    let geometry = steps.iter().flat_map(|step| step.geometry.iter().copied()).collect();
    route_of(geometry, steps)
}

/// A route of steps whose lines follow one another with their common vertices once.
fn aligned_route(step_coordinates: Vec<Vec<(f64, f64)>>) -> Route {
    let steps: Vec<Arc<RouteStep>> = step_coordinates
        .into_iter()
        .enumerate()
        .map(|(key, coords)| {
            let geometry = coords.into_iter().map(|(lng, lat)| coordinate(lat, lng)).collect();
            step_along(key as u64, geometry)
        })
        .collect();
    let geometry = steps
        .iter()
        .enumerate()
        .flat_map(|(i, step)| step.geometry.iter().skip(usize::from(i > 0)).copied())
        .collect();
    route_of(geometry, steps)
}

fn manual() -> Arc<StepCondition> {
    Arc::new(StepCondition::Manual(ManualStepCondition))
}

/// A condition that always advances: all of none are met.
fn always() -> Arc<StepCondition> {
    Arc::new(StepCondition::And(AndAdvanceConditions { conditions: vec![] }))
}

fn configuration(condition: Arc<StepCondition>, uzmatch: UzmatchConfig) -> NavigationControllerConfig {
    NavigationControllerConfig {
        step_advance_condition: condition,
        arrival_step_advance_condition: manual(),
        snapped_location_course_filtering: CourseFiltering::Raw,
        uzmatch,
    }
}

fn host(route: Route, config: NavigationControllerConfig, tracking: Tracking) -> Host {
    let uzmatch = config.uzmatch;
    let measured = measures(&route.geometry);
    Host { controller: NavigationController::new(route, config, &measured), uzmatch, tracking }
}

fn enabled() -> UzmatchConfig {
    UzmatchConfig { enabled: true, ..UzmatchConfig::default() }
}

fn navigating(state: &NavState) -> &Navigation {
    match &state.trip_state {
        TripState::Navigating(navigation) => navigation,
        other => panic!("expected Navigating, got {other:?}"),
    }
}

fn remaining(state: &NavState) -> usize {
    navigating(state).remaining_steps.len()
}

fn moving_fix(millis: u64, lng: f64, lat: f64, speed: f64) -> UserLocation {
    UserLocation {
        timestamp: Timestamp { seconds: 1_000_000, nanos: 0 }.later_by(Span::from_millis(millis)),
        speed: Some(Speed { value: b(speed), accuracy: None }),
        ..fix(lat, lng)
    }
}

fn straight_then_north() -> Route {
    route_from_steps(&[
        (0.0, 0.0, 0.001, 0.0),
        (0.001, 0.0, 0.002, 0.0),
        (0.002, 0.0, 0.002, 0.001),
    ])
}

const STRICT: Tracking =
    Tracking::StaticThreshold { minimum_horizontal_accuracy: 20.0, max_acceptable_deviation: 30.0 };

#[test]
fn test_off_route_suppresses_instructions() {
    let host = host(
        straight_then_north(),
        configuration(manual(), UzmatchConfig::default()),
        STRICT,
    );
    let on_route = fix(0.0, 0.0);
    let initial = host.get_initial_state(on_route);
    assert_eq!(navigating(&initial).deviation, RouteDeviation::NoDeviation);
    let initial_visual = navigating(&initial).visual_instruction;
    let initial_spoken = navigating(&initial).spoken_instruction;
    assert!(initial_visual.is_some() || initial_spoken.is_some());

    let off_state = host.update_user_location(fix(0.5, 0.5), initial);
    assert!(navigating(&off_state).deviation.is_completely_off_route());
    assert!(navigating(&off_state).visual_instruction.is_none());
    assert!(navigating(&off_state).spoken_instruction.is_none());

    let recovered = host.update_user_location(on_route, off_state);
    assert_eq!(navigating(&recovered).deviation, RouteDeviation::NoDeviation);
    assert_eq!(navigating(&recovered).visual_instruction, initial_visual);
    assert_eq!(navigating(&recovered).spoken_instruction, initial_spoken);
}

#[test]
fn test_off_route_initial_state_suppresses_instructions() {
    let host = host(
        straight_then_north(),
        configuration(manual(), UzmatchConfig::default()),
        STRICT,
    );
    let initial = host.get_initial_state(fix(0.5, 0.5));
    assert!(navigating(&initial).deviation.is_completely_off_route());
    assert!(navigating(&initial).visual_instruction.is_none());
    assert!(navigating(&initial).spoken_instruction.is_none());
}

#[test]
fn test_manual_advance_resets_condition_state() {
    let pre_latched = SerializableStepAdvanceCondition::DistanceEntryExit {
        distance_to_end_of_step: 20,
        distance_after_end_step: 5,
        minimum_horizontal_accuracy: 25,
        has_reached_end_of_current_step: true,
    }
    .restore();
    let host = host(
        straight_then_north(),
        NavigationControllerConfig {
            arrival_step_advance_condition: pre_latched.clone(),
            ..configuration(pre_latched.clone(), UzmatchConfig::default())
        },
        Tracking::Unwatched,
    );
    let initial = host.get_initial_state(fix(0.0, 0.0));
    let state_with_latch =
        NavState::new(initial.trip_state.duplicate(), pre_latched, UzmatchState::default());
    let advanced = host.advance_to_next_step(state_with_latch);
    match advanced.step_advance_condition.to_js() {
        SerializableStepAdvanceCondition::DistanceEntryExit {
            has_reached_end_of_current_step,
            ..
        } => assert!(
            !has_reached_end_of_current_step,
            "Manual advance must reset the carried condition's latch state"
        ),
        other => panic!("expected DistanceEntryExit, got {other:?}"),
    }
}

#[test]
fn uzmatch_standing_gates_step_advance() {
    let condition = Arc::new(StepCondition::DistanceToEndOfStep(DistanceToEndOfStepCondition {
        distance: 20,
        minimum_horizontal_accuracy: 10,
    }));
    let host =
        host(straight_then_north(), configuration(condition, enabled()), Tracking::Unwatched);
    let loc = |t: u64, lng: f64, speed: f64| moving_fix(t * 1_000, lng, 0.0, speed);

    let mut state = host.get_initial_state(loc(0, 0.0008, 4.0));
    for t in 1..=8 {
        state = host.update_user_location(loc(t, 0.0008, 0.0), state);
        assert_eq!(remaining(&state), 3, "must not advance while parked at t={t}");
    }
    assert_eq!(
        navigating(&state).uzmatch.map(|s| s.is_standing),
        Some(true),
        "standing must be reported after 7 s below threshold"
    );
    for t in 9..=11 {
        state = host.update_user_location(loc(t, 0.00085, 0.0), state);
        assert_eq!(
            remaining(&state),
            3,
            "standing gate must swallow jitter across the step boundary at t={t}"
        );
    }
    state = host.update_user_location(loc(12, 0.00085, 8.0), state);
    assert_eq!(remaining(&state), 2, "step must advance once the vehicle is moving again");
}

#[test]
fn uzmatch_projection_is_the_controller_snap_source() {
    let route = route_from_steps(&[
        (0.0, 0.0, 0.01, 0.0),
        (0.01, 0.0, 0.01, 0.0001),
        (0.01, 0.0001, 0.0, 0.0001),
    ]);
    let host = host(
        route,
        NavigationControllerConfig {
            snapped_location_course_filtering: CourseFiltering::SnapToRoute,
            ..configuration(manual(), enabled())
        },
        Tracking::Unwatched,
    );
    let location = UserLocation {
        course_over_ground: Some(course(270.0)),
        timestamp: Timestamp { seconds: 10, nanos: 0 },
        speed: Some(Speed { value: b(10.0), accuracy: None }),
        ..fix(0.00008, 0.005)
    };
    let state = host.get_initial_state(location);
    let navigation = navigating(&state);
    let matched = navigation
        .uzmatch
        .expect("the matching core runs")
        .route_position
        .expect("accurate location must bind to the route");

    assert_eq!(matched.segment_index, 4);
    assert_eq!(navigation.snapped_user_location.coordinates, matched.coordinates);
    assert_eq!(
        navigation.snapped_user_location.course_over_ground,
        matched.course_over_ground
    );
    assert!(f(navigation.snapped_user_location.coordinates.lat) > 0.00009);
}

const LOSS_50: Tracking =
    Tracking::StaticThreshold { minimum_horizontal_accuracy: 32.0, max_acceptable_deviation: 50.0 };

#[test]
fn uzmatch_cling_holds_then_releases_route_loss() {
    let host = host(straight_then_north(), configuration(manual(), enabled()), LOSS_50);
    let loc = |t_ms: u64, lng: f64, lat: f64| moving_fix(t_ms, lng, lat, 10.0);

    let mut state = host.get_initial_state(loc(0, 0.0008, 0.0));
    state = host.update_user_location(loc(500, 0.00085, 0.0), state);
    assert_eq!(navigating(&state).deviation, RouteDeviation::NoDeviation);

    state = host.update_user_location(loc(1_500, 0.00085, 0.0006), state);
    assert_eq!(
        navigating(&state).deviation,
        RouteDeviation::NoDeviation,
        "a brief excursion must cling to the route"
    );

    state = host.update_user_location(loc(3_500, 0.0009, 0.0006), state);
    assert!(is_off_route(&state), "sustained loss must release the cling");

    state = host.update_user_location(loc(4_500, 0.001, 0.0), state);
    assert_eq!(navigating(&state).deviation, RouteDeviation::NoDeviation);
    state = host.update_user_location(loc(5_000, 0.00105, 0.0006), state);
    assert_eq!(
        navigating(&state).deviation,
        RouteDeviation::NoDeviation,
        "returning to the route must re-arm the cling"
    );
}

#[test]
fn uzmatch_bound_position_advances_offset_raw_track() {
    let condition = Arc::new(StepCondition::EntryAndExit(DistanceEntryAndExitCondition {
        distance_to_end_of_step: 30,
        distance_after_end_of_step: 5,
        minimum_horizontal_accuracy: 25,
        has_reached_end_of_current_step: false,
    }));
    let host = host(straight_then_north(), configuration(condition, enabled()), LOSS_50);
    let loc = |t: u64, lng: f64| moving_fix(t * 1_000, lng, 0.00036, 10.0);

    let mut state = host.get_initial_state(loc(0, 0.0));
    assert_eq!(remaining(&state), 3);
    for (i, lng) in [0.0002, 0.0004, 0.0006, 0.0008, 0.00095, 0.00105, 0.0012, 0.0013]
        .iter()
        .enumerate()
    {
        state = host.update_user_location(loc(i as u64 + 1, *lng), state);
    }
    assert_eq!(
        remaining(&state),
        2,
        "the matched route position passed the maneuver, so the step must advance"
    );
}

#[test]
fn uzmatch_standing_freezes_deviation() {
    let route = route_from_steps(&[(0.0, 0.0, 0.001, 0.0), (0.001, 0.0, 0.001, 0.001)]);
    let host = host(
        route,
        configuration(manual(), enabled()),
        Tracking::StaticThreshold {
            minimum_horizontal_accuracy: 10.0,
            max_acceptable_deviation: 10.0,
        },
    );
    let loc = |t: u64, lat: f64, speed: f64| moving_fix(t * 1_000, 0.0005, lat, speed);

    let mut state = host.get_initial_state(loc(0, 0.0, 4.0));
    for t in 1..=8 {
        state = host.update_user_location(loc(t, 0.0, 0.0), state);
    }
    assert_eq!(navigating(&state).deviation, RouteDeviation::NoDeviation);
    for t in 9..=11 {
        state = host.update_user_location(loc(t, 0.0005, 0.0), state);
        assert_eq!(
            navigating(&state).deviation,
            RouteDeviation::NoDeviation,
            "deviation must stay frozen while standing at t={t}"
        );
    }
    state = host.update_user_location(loc(12, 0.0005, 8.0), state);
    state = host.update_user_location(loc(13, 0.0005, 8.0), state);
    assert!(
        navigating(&state).deviation != RouteDeviation::NoDeviation,
        "deviation must fire once moving off-route"
    );
}

fn left_turn_route() -> Route {
    route_from_steps(&[
        (0.0, 0.0, 0.001, 0.0),
        (0.001, 0.0, 0.001, 0.001),
        (0.001, 0.001, 0.002, 0.001),
    ])
}

fn walk_uzmatch_config() -> UzmatchConfig {
    UzmatchConfig {
        enabled: true,
        snap_heading_min_speed_mps: b(0.8),
        cling_distance_m: b(12.0),
        cling_time_ms: 2000,
        heading_departure_enabled: true,
        heading_departure_min_speed_mps: b(0.8),
        heading_departure_tolerance_deg: b(60.0),
        heading_departure_confirmations: 3,
        ..UzmatchConfig::default()
    }
}

fn loss_host(route: Route, max_acceptable_deviation: f64, uzmatch: UzmatchConfig) -> Host {
    host(
        route,
        configuration(manual(), uzmatch),
        Tracking::StaticThreshold { minimum_horizontal_accuracy: 32.0, max_acceptable_deviation },
    )
}

const DEG_PER_METER: f64 = 1.0 / 111_320.0;
const WALK_MPS: f64 = 1.4;

fn walker_fix(
    second: u64,
    lng: f64,
    lat: f64,
    course_deg: Option<f64>,
    speed_mps: f64,
) -> UserLocation {
    UserLocation {
        course_over_ground: course_deg
            .map(|deg| CourseOverGround { accuracy: Some(10), ..course(deg) }),
        ..moving_fix(second * 1_000, lng, lat, speed_mps)
    }
}

fn is_off_route(state: &NavState) -> bool {
    state
        .trip_state
        .deviation()
        .is_some_and(|deviation| deviation.is_completely_off_route())
}

#[test]
fn drive_profile_matches_vendor_constants() {
    let defaults = UzmatchConfig::default();
    assert_eq!(f(defaults.cling_distance_m), 33.25);
    assert_eq!(defaults.cling_time_ms, 2000);
    assert_eq!(f(defaults.snap_heading_min_speed_mps), 4.0);
    assert!(!defaults.heading_departure_enabled);

    let host = loss_host(straight_then_north(), 50.0, enabled());
    let loc = |t_ms: u64, lng: f64, lat: f64| moving_fix(t_ms, lng, lat, 10.0);
    let track = [
        (500, 0.00085, 0.0),
        (1_500, 0.00085, 0.0006),
        (3_500, 0.0009, 0.0006),
        (4_500, 0.001, 0.0),
        (5_000, 0.00105, 0.0006),
    ];
    let mut state = host.get_initial_state(loc(0, 0.0008, 0.0));
    let published: Vec<bool> = track
        .iter()
        .map(|(t_ms, lng, lat)| {
            state = host.update_user_location(loc(*t_ms, *lng, *lat), state.duplicate());
            is_off_route(&state)
        })
        .collect();
    assert_eq!(
        published,
        [false, false, true, false, false],
        "the drive profile must publish exactly the sequence of the default cling settings"
    );
}

#[test]
fn walk_cling_radius_releases_earlier() {
    let loc = |t_ms: u64, lng: f64, lat: f64| moving_fix(t_ms, lng, lat, 1.4);
    let replay = |uzmatch: UzmatchConfig| {
        let host = loss_host(left_turn_route(), 10.0, uzmatch);
        let state = host.get_initial_state(loc(0, 0.0005, 0.0));
        let state = host.update_user_location(loc(1_000, 0.00051, 0.0), state);
        assert!(!is_off_route(&state));
        let state = host.update_user_location(loc(4_000, 0.00052, 0.0002), state);
        is_off_route(&state)
    };

    assert!(!replay(enabled()), "22 m from the anchor is inside the default cling radius");
    assert!(
        replay(UzmatchConfig { cling_distance_m: b(12.0), ..enabled() }),
        "22 m from the anchor is outside the pedestrian cling radius"
    );
}

fn fixes_past_turn_until_loss(course: impl Fn(f64) -> Option<f64>) -> Option<usize> {
    let host = loss_host(left_turn_route(), 25.0, walk_uzmatch_config());
    let step = WALK_MPS * DEG_PER_METER;
    let start_lng = 0.001 - 20.0 * DEG_PER_METER;
    let mut state =
        host.get_initial_state(walker_fix(0, start_lng, 0.0, course(start_lng), WALK_MPS));
    let mut past_turn = 0usize;
    for second in 1..=40u64 {
        let lng = start_lng + step * second as f64;
        state = host
            .update_user_location(walker_fix(second, lng, 0.0, course(lng), WALK_MPS), state);
        if lng > 0.001 {
            past_turn += 1;
        }
        if is_off_route(&state) {
            assert!(past_turn > 0, "route loss before the turn at second {second}");
            return Some(past_turn);
        }
    }
    None
}

#[test]
fn heading_departure_straight_past_turn_publishes_within_confirmations() {
    assert_eq!(fixes_past_turn_until_loss(|_| Some(90.0)), Some(3));
}

#[test]
fn no_course_falls_back_to_distance() {
    let fixes = fixes_past_turn_until_loss(|_| None).expect("distance fallback must publish");
    assert!(fixes > 3, "without a course nothing may publish early: {fixes}");
    assert!(fixes <= 25, "distance fallback must publish within 25 s: {fixes}");
}

#[test]
fn incredible_course_falls_back_to_distance() {
    let host = loss_host(left_turn_route(), 25.0, walk_uzmatch_config());
    let step = WALK_MPS * DEG_PER_METER;
    let start_lng = 0.001 - 10.0 * DEG_PER_METER;
    let fix = |second: u64| UserLocation {
        course_over_ground: Some(CourseOverGround { degrees: 90, accuracy: Some(120) }),
        ..walker_fix(second, start_lng + step * second as f64, 0.0, None, WALK_MPS)
    };
    let mut state = host.get_initial_state(fix(0));
    for second in 1..=12 {
        state = host.update_user_location(fix(second), state);
        assert!(!is_off_route(&state), "an incredible course published at second {second}");
    }
}

#[test]
fn heading_departure_wrong_turn() {
    let host = loss_host(left_turn_route(), 25.0, walk_uzmatch_config());
    let step = WALK_MPS * DEG_PER_METER;
    let mut state =
        host.get_initial_state(walker_fix(0, 0.001 - 4.0 * step, 0.0, Some(90.0), WALK_MPS));
    for second in 1..=3u64 {
        let lng = 0.001 - (4.0 - second as f64) * step;
        state = host
            .update_user_location(walker_fix(second, lng, 0.0, Some(90.0), WALK_MPS), state);
        assert!(!is_off_route(&state), "approach fix {second} must stay on route");
    }
    let mut published_at = None;
    for n in 1..=6u64 {
        let lat = -(step * n as f64);
        state = host
            .update_user_location(walker_fix(4 + n, 0.001, lat, Some(180.0), WALK_MPS), state);
        if is_off_route(&state) {
            published_at = Some(n);
            break;
        }
    }
    assert_eq!(published_at, Some(3), "wrong turn must publish on the 3rd diverging fix");
}

#[test]
fn heading_noise_two_fixes_does_not_publish() {
    let host = loss_host(left_turn_route(), 25.0, walk_uzmatch_config());
    let step = WALK_MPS * DEG_PER_METER;
    let mut state =
        host.get_initial_state(walker_fix(0, 0.001 - 3.0 * step, 0.0, Some(90.0), WALK_MPS));
    state = host.update_user_location(
        walker_fix(1, 0.001 - 2.0 * step, 0.0, Some(90.0), WALK_MPS),
        state,
    );
    state = host
        .update_user_location(walker_fix(2, 0.001 - step, 0.0, Some(90.0), WALK_MPS), state);
    state = host.update_user_location(walker_fix(3, 0.001, 0.0, Some(90.0), WALK_MPS), state);
    assert!(!is_off_route(&state));
    state = host
        .update_user_location(walker_fix(4, 0.001, 0.4 * step, Some(90.0), WALK_MPS), state);
    assert!(!is_off_route(&state), "two noisy courses must not publish");
    for n in 1..=8u64 {
        state = host.update_user_location(
            walker_fix(4 + n, 0.001, step * n as f64, Some(0.0), WALK_MPS),
            state,
        );
        assert!(!is_off_route(&state), "on-route fix {n} after noise must not publish");
    }
}

#[test]
fn parallel_sidewalk_18m_300m_stays_on_route() {
    let route = route_from_steps(&[
        (0.0, 0.0, 0.0015, 0.0),
        (0.0015, 0.0, 0.003, 0.0),
        (0.003, 0.0, 0.003, 0.001),
    ]);
    let host = loss_host(route, 25.0, walk_uzmatch_config());
    let step = WALK_MPS * DEG_PER_METER;
    let lat = 18.0 * DEG_PER_METER;
    let mut state = host.get_initial_state(walker_fix(0, 0.0, lat, Some(90.0), WALK_MPS));
    let seconds = (300.0 / WALK_MPS) as u64;
    for second in 1..=seconds {
        let course = 90.0 + if second % 2 == 0 { 25.0 } else { -25.0 };
        state = host.update_user_location(
            walker_fix(second, step * second as f64, lat, Some(course), WALK_MPS),
            state,
        );
        assert!(
            !is_off_route(&state),
            "parallel sidewalk published a route loss at second {second}"
        );
    }
}

#[test]
fn standing_drift_does_not_publish() {
    let host = loss_host(left_turn_route(), 25.0, walk_uzmatch_config());
    let mut state = host.get_initial_state(walker_fix(0, 0.001, 0.0, Some(90.0), WALK_MPS));
    let drift = [
        (12.0, 0.0, 210.0),
        (0.0, 15.0, 30.0),
        (-14.0, 8.0, 300.0),
        (19.0, -5.0, 120.0),
        (5.0, 19.0, 250.0),
        (-18.0, -2.0, 90.0),
        (0.0, 0.0, 180.0),
        (16.0, 11.0, 45.0),
        (-9.0, -16.0, 330.0),
        (19.0, 0.0, 200.0),
    ];
    for (second, (east_m, north_m, course)) in drift.iter().enumerate() {
        state = host.update_user_location(
            walker_fix(
                second as u64 + 1,
                0.001 + east_m * DEG_PER_METER,
                north_m * DEG_PER_METER,
                Some(*course),
                0.3,
            ),
            state,
        );
        assert!(!is_off_route(&state), "standing drift published at fix {second}");
    }
}

#[test]
fn perpendicular_crossing_mid_segment_does_not_publish() {
    let route = route_from_steps(&[(0.0, 0.0, 0.004, 0.0), (0.004, 0.0, 0.004, 0.001)]);
    let host = loss_host(route, 25.0, walk_uzmatch_config());
    let step = WALK_MPS * DEG_PER_METER;
    let mut state = host.get_initial_state(walker_fix(0, 0.0004, 0.0, Some(90.0), WALK_MPS));
    state = host
        .update_user_location(walker_fix(1, 0.0004 + step, 0.0, Some(90.0), WALK_MPS), state);
    for n in 1..=10u64 {
        state = host.update_user_location(
            walker_fix(1 + n, 0.0004 + step, step * n as f64, Some(0.0), WALK_MPS),
            state,
        );
        assert!(!is_off_route(&state), "crossing published at fix {n}");
    }
    for n in 1..=10u64 {
        state = host.update_user_location(
            walker_fix(
                11 + n,
                0.0004 + step * (n + 1) as f64,
                10.0 * step,
                Some(90.0),
                WALK_MPS,
            ),
            state,
        );
        assert!(!is_off_route(&state), "far side published at fix {n}");
    }
}

#[test]
fn return_to_route_rearms_detection() {
    assert_eq!(fixes_past_turn_until_loss(|_| Some(90.0)), Some(3));

    let route = route_from_steps(&[(0.00105, 0.0, 0.002, 0.0), (0.002, 0.0, 0.002, 0.001)]);
    let host = loss_host(route, 25.0, walk_uzmatch_config());
    let step = WALK_MPS * DEG_PER_METER;
    let mut state = host.get_initial_state(walker_fix(0, 0.00105, 0.0, Some(200.0), WALK_MPS));
    assert!(
        !is_off_route(&state),
        "a single noisy fix on the new route must not publish"
    );
    let mut past_turn = 0usize;
    let mut published = None;
    for second in 1..=90u64 {
        let lng = 0.00105 + step * second as f64;
        state = host
            .update_user_location(walker_fix(second, lng, 0.0, Some(90.0), WALK_MPS), state);
        if lng > 0.002 {
            past_turn += 1;
        }
        if is_off_route(&state) {
            published = Some(past_turn);
            break;
        }
    }
    assert_eq!(published, Some(3), "the second departure must use the same budget");
}

fn snapshot_at(route_position: Option<RoutePosition>) -> UzmatchSnapshot {
    UzmatchSnapshot {
        route_position,
        is_standing: false,
        location_class: UzLocationClass::Fine,
        filtered_speed_mps: None,
    }
}

#[test]
fn hairpin_match_past_step_end_does_not_reinflate_distance() {
    let route = aligned_route(vec![
        vec![(0.0, 0.0), (0.0004, 0.0), (0.0004, 0.00003), (0.00001, 0.00003)],
        vec![(0.00001, 0.00003), (0.00001, 0.0)],
    ]);
    let steps = route.steps.clone();
    let host = host(route, configuration(manual(), enabled()), Tracking::Unwatched);
    let match_coordinates = coordinate(0.00001, 0.00001);
    let location = UserLocation {
        timestamp: Timestamp { seconds: 0, nanos: 0 },
        ..fix(0.00001, 0.00001)
    };
    let snapshot = snapshot_at(Some(RoutePosition {
        segment_index: 3,
        segment_offset_meters: b(2.2),
        distance_along_route_meters: b(0.0),
        coordinates: match_coordinates,
        course_over_ground: None,
    }));
    let facts = host.step_facts(location, &steps, Some(snapshot));
    let (current_step_geometry_index, snapped_user_location, progress) =
        host.controller.step_state(location, &steps, Some(snapshot), &facts.measures);

    assert_eq!(current_step_geometry_index, Some(2));
    assert_eq!(snapped_user_location.coordinates, match_coordinates);
    assert_eq!(f(progress.distance_to_next_maneuver), 0.0);
    assert!(
        (f(progress.distance_remaining) - f(steps[1].distance)).abs() < 1e-9,
        "past the maneuver only the next step's distance remains"
    );
}

#[test]
fn controller_fast_path_matches_legacy_progress() {
    let route = aligned_route(vec![vec![
        (0.0, 0.0),
        (0.00001, 0.0),
        (0.00002, 0.0),
        (0.00003, 0.0),
    ]]);
    let host = host(route, configuration(manual(), enabled()), Tracking::Unwatched);
    let state = host.get_initial_state(UserLocation {
        timestamp: Timestamp { seconds: 0, nanos: 0 },
        ..fix(0.0, 0.000015)
    });
    let navigation = navigating(&state);
    let steps = &navigation.remaining_steps;
    let expected = progress_from(
        distance_to_end(&steps[0].geometry, navigation.snapped_user_location.coordinates),
        steps,
    );

    assert_eq!(navigation.current_step_geometry_index, Some(1));
    let close = |a: Binary64, b: Binary64| (f(a) - f(b)).abs() < 1e-9;
    assert!(close(
        navigation.progress.distance_to_next_maneuver,
        expected.distance_to_next_maneuver
    ));
    assert!(close(navigation.progress.distance_remaining, expected.distance_remaining));
    assert!(close(navigation.progress.duration_remaining, expected.duration_remaining));
}

#[test]
fn controller_rejects_fast_path_for_foreign_current_step() {
    let route = aligned_route(vec![vec![(0.0, 0.0), (0.00001, 0.0), (0.00002, 0.0)]]);
    let foreign = aligned_route(vec![vec![(0.0, 0.0), (0.0, 0.00001), (0.0, 0.00002)]]);
    let own = route.steps.clone();
    let host = host(route, configuration(manual(), enabled()), Tracking::Unwatched);
    let location = fix(0.0, 0.000015);
    let snapshot = snapshot_at(Some(RoutePosition {
        segment_index: 1,
        segment_offset_meters: b(0.5),
        distance_along_route_meters: b(1.5),
        coordinates: location.coordinates,
        course_over_ground: None,
    }));
    let measured = host.step_facts(location, &own, Some(snapshot)).measures;

    assert!(host
        .controller
        .step_state_from_match(location, &foreign.steps, Some(snapshot), &measured)
        .is_none());
    assert!(host
        .controller
        .step_state_from_match(location, &own, Some(snapshot), &measured)
        .is_some());
}

/// A condition with disabled U-turn confirmation that is watching another one.
fn watching(candidate: Arc<StepCondition>) -> Arc<StepCondition> {
    let mut condition = DistanceEntryAndExitWithUTurnConfirmationCondition::new(
        30, 5, 32, 5, 70, 10, 2, false,
    );
    condition.candidate_is_uturn = Some(false);
    condition.candidate_successor = Some(candidate);
    Arc::new(StepCondition::UTurnConfirmation(condition))
}

fn assert_regular_cadence_state(
    state: &NavState,
    expected_candidate_is_uturn: Option<bool>,
    expected_candidate_successor: Vec<SerializableStepAdvanceCondition>,
    expected_timestamp: Timestamp,
) {
    assert_eq!(
        state.step_advance_condition.to_js(),
        SerializableStepAdvanceCondition::DistanceEntryAndExitWithUTurnConfirmation {
            distance_to_end_of_step: 30,
            distance_after_end_step: 5,
            minimum_horizontal_accuracy: 32,
            minimum_significant_movement: 5,
            maximum_plausible_speed: 70,
            plausibility_distance_allowance: 10,
            required_confirmations: 2,
            uturn_confirmation_enabled: false,
            candidate_is_uturn: expected_candidate_is_uturn,
            candidate_successor: expected_candidate_successor,
            confirmation_active: false,
            movement_anchor: None,
            confirmation_count: 0,
            last_evaluated_timestamp: Some(expected_timestamp),
        }
    );
}

fn assert_current_instruction_is_not_uturn(state: &NavState) {
    let shown = navigating(state).visual_instruction;
    assert!(!matches!(
        shown.and_then(|instruction| instruction.maneuver_modifier),
        Some(ManeuverModifier::UTurn),
    ));
}

#[test]
fn kan_69_disabled_confirmation_four_to_three_same_fix_is_suppressed() {
    let lengths = [7.0, 70.0, 46.0, 131.0];
    let mut steps = vec![];
    let mut lng = 0.0;
    for (key, meters) in lengths.iter().enumerate() {
        let end = lng + meters * DEG_PER_METER;
        steps.push(Arc::new(RouteStep {
            geometry: vec![coordinate(0.0, lng), coordinate(0.0, end)],
            distance: b(*meters),
            duration: b(0.0),
            key: key as u64,
        }));
        lng = end;
    }
    let geometry = steps.iter().flat_map(|step| step.geometry.iter().copied()).collect();
    let host = host(
        route_of(geometry, steps),
        configuration(watching(always()), UzmatchConfig::default()),
        Tracking::Unwatched,
    );
    let submitted_fix = UserLocation {
        timestamp: Timestamp { seconds: 1_785_319_200, nanos: 0 },
        ..fix(0.0, 0.0)
    };
    let state = host.get_initial_state(submitted_fix);
    assert_eq!(remaining(&state), 4);
    assert_current_instruction_is_not_uturn(&state);

    let after_same_fix = host.update_user_location(submitted_fix, state);
    assert_eq!(remaining(&after_same_fix), 3);
    assert_regular_cadence_state(&after_same_fix, None, vec![], submitted_fix.timestamp);
    assert_current_instruction_is_not_uturn(&after_same_fix);
    assert_eq!(f(navigating(&after_same_fix).remaining_steps[0].distance), 70.0);

    let next_start = navigating(&after_same_fix).remaining_steps[0].geometry[0];
    let distinct_fix = UserLocation {
        coordinates: next_start,
        timestamp: submitted_fix.timestamp.later_by(Span::from_millis(1_000)),
        ..submitted_fix
    };
    let after_distinct = host.update_user_location(distinct_fix, after_same_fix);

    assert_eq!(remaining(&after_distinct), 3);
    assert_regular_cadence_state(
        &after_distinct,
        Some(false),
        vec![SerializableStepAdvanceCondition::DistanceEntryExit {
            distance_to_end_of_step: 30,
            distance_after_end_step: 5,
            minimum_horizontal_accuracy: 32,
            has_reached_end_of_current_step: false,
        }],
        distinct_fix.timestamp,
    );
}

#[derive(Debug, Clone, Copy, PartialEq)]
enum RecordingRole {
    Regular,
    Arrival,
}

/// Which condition was asked at which fix, with how many steps left.
type Evaluation = (RecordingRole, UserLocation, usize);

/// Gives one fix to a trip of three steps whose regular condition always advances.
fn run_regular_to_arrival_cadence(
    arrival_should_advance: bool,
) -> (Vec<Evaluation>, NavState, UserLocation) {
    let (lat, lng) = (59.442643, 24.765368);
    let steps: Vec<(f64, f64, f64, f64)> = (0..3)
        .map(|i| (lng + 0.001 * i as f64, lat, lng + 0.001 * (i + 1) as f64, lat))
        .collect();
    let regular = always();
    let arrival = if arrival_should_advance { always() } else { manual() };
    let host = host(
        route_from_steps(&steps),
        NavigationControllerConfig {
            arrival_step_advance_condition: Arc::clone(&arrival),
            ..configuration(regular, UzmatchConfig::default())
        },
        Tracking::Unwatched,
    );
    let submitted_fix = UserLocation {
        timestamp: Timestamp { seconds: 1_785_319_200, nanos: 0 },
        ..fix(lat, lng)
    };
    let mut state = host.get_initial_state(submitted_fix);
    assert_eq!(remaining(&state), 3);
    let mut recorded = vec![];
    loop {
        let facts = host.facts(submitted_fix, &state).unwrap();
        let (seen, _) = host.controller.navigation_after_fix(
            submitted_fix,
            navigating(&state),
            &state.uzmatch_state,
            &facts,
        );
        if let Some(asked) =
            host.controller.deciding_condition(&state.step_advance_condition, &seen)
        {
            let role = if Arc::ptr_eq(&asked, &arrival) {
                RecordingRole::Arrival
            } else {
                RecordingRole::Regular
            };
            recorded.push((role, seen.user_location, seen.remaining_steps.len()));
        }
        let outcome = host.controller.update_user_location(submitted_fix, state, &facts);
        state = outcome.state;
        if !outcome.again {
            return (recorded, state, submitted_fix);
        }
    }
}

fn assert_same_fix_event_order(events: &[Evaluation], submitted_fix: UserLocation) {
    assert_eq!(
        events,
        [
            (RecordingRole::Regular, submitted_fix, 3),
            (RecordingRole::Arrival, submitted_fix, 2),
        ]
    );
}

#[test]
fn kan_69_regular_to_arrival_same_fix_cadence_arrival_holds() {
    let (events, final_state, submitted_fix) = run_regular_to_arrival_cadence(false);
    assert_eq!(remaining(&final_state), 2);
    assert_same_fix_event_order(&events, submitted_fix);
}

#[test]
fn kan_69_regular_to_arrival_same_fix_cadence_arrival_advances() {
    let (events, final_state, submitted_fix) = run_regular_to_arrival_cadence(true);
    assert_eq!(remaining(&final_state), 1);
    assert_same_fix_event_order(&events, submitted_fix);
}

#[test]
fn the_same_fix_runs_through_the_steps_up_to_the_arrival() {
    let route = || {
        route_from_steps(&[
            (0.0, 0.0, 0.001, 0.0),
            (0.001, 0.0, 0.002, 0.0),
            (0.002, 0.0, 0.003, 0.0),
            (0.003, 0.0, 0.004, 0.0),
        ])
    };
    let holding = host(
        route(),
        configuration(always(), UzmatchConfig::default()),
        Tracking::Unwatched,
    );
    let state = holding.get_initial_state(fix(0.0, 0.0));
    let state = holding.update_user_location(fix(0.0, 0.0), state);
    assert_eq!(remaining(&state), 2);

    let advancing = host(
        route(),
        NavigationControllerConfig {
            arrival_step_advance_condition: always(),
            ..configuration(always(), UzmatchConfig::default())
        },
        Tracking::Unwatched,
    );
    let state = advancing.get_initial_state(fix(0.0, 0.0));
    let state = advancing.update_user_location(fix(0.0, 0.0), state);
    assert_eq!(remaining(&state), 1);
    let state = advancing.update_user_location(fix(0.0, 0.0), state);
    assert!(matches!(state.trip_state, TripState::Complete { .. }));
    let location = state.trip_state.user_location();
    let state = advancing.update_user_location(fix(1.0, 1.0), state);
    assert!(matches!(state.trip_state, TripState::Complete { .. }));
    assert_eq!(state.trip_state.user_location(), location);
}

#[test]
fn advancing_takes_one_step_and_ends_on_the_last() {
    let host = host(
        straight_then_north(),
        configuration(manual(), UzmatchConfig::default()),
        Tracking::Unwatched,
    );
    let mut state = host.get_initial_state(fix(0.0, 0.0));
    assert_eq!(navigating(&state).remaining_waypoints.len(), 1);
    for left in [2, 1] {
        state = host.advance_to_next_step(state);
        assert_eq!(remaining(&state), left);
        let key = navigating(&state).remaining_steps[0].key;
        assert_eq!(key, 3 - left as u64);
        assert_eq!(navigating(&state).annotation, Some(key + 100));
        assert_eq!(
            navigating(&state).visual_instruction.map(|shown| shown.content),
            Some(key + 200)
        );
    }
    state = host.advance_to_next_step(state);
    assert!(matches!(state.trip_state, TripState::Complete { .. }));
    state = host.advance_to_next_step(state);
    assert!(matches!(state.trip_state, TripState::Complete { .. }));
}

#[test]
fn a_route_without_steps_is_at_its_end() {
    let route = route_of(vec![coordinate(0.0, 0.0), coordinate(0.0, 0.001)], vec![]);
    let measured = measures(&route.geometry);
    let controller = NavigationController::new(
        route,
        configuration(manual(), UzmatchConfig::default()),
        &measured,
    );
    let location = fix(0.0, 0.0);
    let blank = StepFacts {
        measures: StepMeasures {
            projected: location,
            projected_with_course: location,
            closest_segment: None,
            progress: no_progress(),
        },
        summary: no_summary(),
        annotation: None,
        visual_instruction: None,
        spoken_instruction: None,
    };
    let facts = InitialFacts {
        started_at: Timestamp { seconds: 7, nanos: 0 },
        measurements: unmeasured(),
        step: blank,
        deviation: RouteDeviation::NoDeviation,
    };
    match controller.get_initial_state(location, &facts).trip_state {
        TripState::Complete { user_location, summary } => {
            assert_eq!(user_location, location);
            assert_eq!(summary.started_at, Timestamp { seconds: 7, nanos: 0 });
            assert_eq!(f(summary.distance_traveled), 0.0);
            assert_eq!(summary.ended_at, None);
        }
        other => panic!("expected Complete, got {other:?}"),
    }
}

#[test]
fn waypoints_change_only_when_the_host_says_so() {
    let host = host(
        straight_then_north(),
        configuration(manual(), UzmatchConfig::default()),
        Tracking::Unwatched,
    );
    let location = fix(0.0, 0.0001);
    let state = host.get_initial_state(location);
    assert_eq!(navigating(&state).remaining_waypoints[0].key, 2);
    let mut facts = host.facts(location, &state).unwrap();
    let kept = host.controller.update_user_location(location, state.duplicate(), &facts);
    assert_eq!(navigating(&kept.state).remaining_waypoints.len(), 1);
    facts.waypoints = WaypointAdvanceResult::Changed(vec![]);
    let passed = host.controller.update_user_location(location, state, &facts);
    assert!(navigating(&passed.state).remaining_waypoints.is_empty());
}

#[test]
fn sessions_navigate_like_their_controller() {
    let measured = measures(&straight_then_north().geometry);
    let plain = create_navigator(
        straight_then_north(),
        configuration(manual(), enabled()),
        false,
        &measured,
    );
    assert!(plain.observers().is_empty());
    let recorded = create_navigator(
        straight_then_north(),
        configuration(manual(), enabled()),
        true,
        &measured,
    );
    assert_eq!(recorded.observers(), &vec![NavigationObserver::Recorder]);
    assert_eq!(recorded.route().steps.len(), 3);

    let host = host(straight_then_north(), configuration(manual(), enabled()), LOSS_50);
    let first = moving_fix(0, 0.0001, 0.0, 5.0);
    let state = host.get_initial_state(first);
    let second = moving_fix(1_000, 0.00015, 0.0, 5.0);
    let facts = host.facts(second, &state).unwrap();
    let from_session = recorded.update_user_location(second, state.duplicate(), &facts);
    let from_controller = host.controller.update_user_location(second, state, &facts);
    assert_eq!(
        format!("{:?}", from_session.state),
        format!("{:?}", from_controller.state)
    );
}

#[test]
fn the_course_of_a_snapped_fix_follows_the_settings() {
    let position = RoutePosition {
        segment_index: 0,
        segment_offset_meters: b(1.0),
        distance_along_route_meters: b(1.0),
        coordinates: coordinate(0.0, 0.0003),
        course_over_ground: Some(course(90.0)),
    };
    let location = UserLocation { course_over_ground: Some(course(12.0)), ..fix(0.001, 0.0003) };
    for (filtering, degrees) in [(CourseFiltering::Raw, 12), (CourseFiltering::SnapToRoute, 90)] {
        let host = host(
            straight_then_north(),
            NavigationControllerConfig {
                snapped_location_course_filtering: filtering,
                ..configuration(manual(), UzmatchConfig::default())
            },
            Tracking::Unwatched,
        );
        let moved = host.controller.location_from_route_position(location, position);
        assert_eq!(moved.coordinates, position.coordinates);
        assert_eq!(moved.course_over_ground.map(|c| c.degrees), Some(degrees));
        assert_eq!(moved.horizontal_accuracy, location.horizontal_accuracy);
    }
}

#[test]
fn switched_off_matching_is_never_told() {
    let host = host(
        straight_then_north(),
        configuration(manual(), UzmatchConfig::default()),
        LOSS_50,
    );
    let mut state = host.get_initial_state(moving_fix(0, 0.0001, 0.0, 5.0));
    for t in 1..4u64 {
        assert_eq!(navigating(&state).uzmatch, None);
        state = host.update_user_location(moving_fix(t * 1_000, 0.0002, 0.0, 5.0), state);
    }
    state = host.advance_to_next_step(state);
    assert_eq!(navigating(&state).uzmatch, None);
    assert_eq!(
        format!("{:?}", state.uzmatch_state),
        format!("{:?}", UzmatchState::default())
    );
    let off = host.update_user_location(moving_fix(4_000, 0.0002, 0.0006, 5.0), state);
    assert!(is_off_route(&off), "without matching a loss is not held back");
}

#[test]
fn a_trip_under_way_always_has_a_current_step() {
    let host = host(
        straight_then_north(),
        configuration(always(), UzmatchConfig::default()),
        Tracking::Unwatched,
    );
    let mut state = host.get_initial_state(fix(0.0, 0.0));
    assert!(remaining(&state) > 0);
    for lng in [0.0, 0.001, 0.002, 0.003] {
        state = host.update_user_location(fix(0.0, lng), state);
        if let TripState::Navigating(navigation) = &state.trip_state {
            assert!(!navigation.remaining_steps.is_empty());
        }
    }
    for _ in 0..4 {
        state = host.advance_to_next_step(state);
        if let TripState::Navigating(navigation) = &state.trip_state {
            assert!(!navigation.remaining_steps.is_empty());
        }
    }
    assert!(matches!(state.trip_state, TripState::Complete { .. }));
}
