use geo::{Distance, Haversine, Point};
use uznav::binary64::{number, Binary64};
use uznav::models::{GeographicCoordinate, Speed, UserLocation};
use uznav::time::Timestamp;
use uznav::uzmatch::snap::{RoutePosition, SnapCandidate, MAX_SNAP_CANDIDATES};
use uznav::uzmatch::temporal::{
    jump_likelihood, jump_offset_endpoint, jump_terms, TemporalCandidate, TemporalMatchState,
    TransitionMeasures,
};
use uznav::uzmatch::UzmatchConfig;

fn b(x: f64) -> Binary64 {
    number(x.to_bits())
}

fn f(x: Binary64) -> f64 {
    f64::from_bits(x.bits)
}

fn coordinate(lat: f64, lng: f64) -> GeographicCoordinate {
    GeographicCoordinate { lat: b(lat), lng: b(lng) }
}

fn haversine(from: GeographicCoordinate, to: GeographicCoordinate) -> f64 {
    Haversine.distance(Point::new(f(from.lng), f(from.lat)), Point::new(f(to.lng), f(to.lat)))
}

fn jump_offset_log_likelihood(
    previous: RoutePosition,
    current: RoutePosition,
    previous_location: &UserLocation,
    location: &UserLocation,
) -> Option<f64> {
    let endpoint = jump_offset_endpoint(&previous, &current, previous_location, location);
    let change = haversine(previous_location.coordinates, endpoint);
    let terms = jump_terms(b(change), previous_location, location)?;
    let base = f(terms.exponent).exp();
    let corrected = match terms.power {
        Some(power) => base.powf(f(power)),
        None => base,
    };
    jump_likelihood(b(corrected)).map(|likelihood| f(likelihood).ln())
}

fn transitions(
    state: &TemporalMatchState,
    location: &UserLocation,
    emissions: &[SnapCandidate],
) -> TransitionMeasures {
    let Some(previous_location) = state.previous_location else {
        return TransitionMeasures::new(b(0.0), Vec::new());
    };
    TransitionMeasures::new(
        b(haversine(previous_location.coordinates, location.coordinates)),
        emissions
            .iter()
            .map(|emission| {
                state
                    .carried_candidates()
                    .iter()
                    .map(|carried| {
                        jump_offset_log_likelihood(
                            carried.route_position,
                            emission.route_position,
                            &previous_location,
                            location,
                        )
                        .map(b)
                    })
                    .collect()
            })
            .collect(),
    )
}

fn update(
    state: &TemporalMatchState,
    location: &UserLocation,
    emissions: &[SnapCandidate],
) -> TemporalMatchState {
    state.update(
        location,
        &emissions.to_vec(),
        &UzmatchConfig::default(),
        &transitions(state, location, emissions),
    )
}

fn location(seconds: i64, longitude: f64) -> UserLocation {
    UserLocation {
        coordinates: coordinate(0.0, longitude),
        horizontal_accuracy: b(5.0),
        course_over_ground: None,
        timestamp: Timestamp { seconds, nanos: 0 },
        speed: Some(Speed { value: b(10.0), accuracy: None }),
    }
}

fn emission(distance: f64, segment: u64, score: f64) -> SnapCandidate {
    SnapCandidate {
        route_position: RoutePosition {
            segment_index: segment,
            segment_offset_meters: b(0.0),
            distance_along_route_meters: b(distance),
            coordinates: coordinate(0.0, distance / 111_000.0),
            course_over_ground: None,
        },
        emission_log_likelihood: b(score),
    }
}

fn emission_at(
    distance: f64,
    segment: u64,
    score: f64,
    longitude: f64,
    latitude: f64,
) -> SnapCandidate {
    let mut candidate = emission(distance, segment, score);
    candidate.route_position.coordinates = coordinate(latitude, longitude);
    candidate
}

fn segment(state: &TemporalMatchState) -> Option<u64> {
    state.route_position().map(|position| position.segment_index)
}

#[test]
fn continuity_beats_frame_local_winner_at_self_crossing() {
    let first = location(0, 100.0 / 111_000.0);
    let state = update(
        &TemporalMatchState::default(),
        &first,
        &[emission(100.0, 1, 0.0), emission(1_000.0, 9, -1.0)],
    );
    let second = location(1, 110.0 / 111_000.0);
    let state = update(
        &state,
        &second,
        &[emission(1_000.0, 9, 0.0), emission(110.0, 1, -1.0)],
    );

    assert_eq!(segment(&state), Some(1));
}

#[test]
fn stable_snap_offset_beats_a_stronger_frame_local_jump() {
    let previous = location(0, 0.0);
    let state = update(
        &TemporalMatchState::default(),
        &previous,
        &[emission_at(100.0, 0, 0.0, 0.0, 0.000_1)],
    );
    let longitude = 10.0 / 111_000.0;
    let current = location(1, longitude);
    let stable_offset = emission_at(110.0, 1, -1.0, longitude, 0.000_1);
    let offset_jump = emission_at(110.0, 2, 0.0, longitude, -0.000_1);

    let next = update(&state, &current, &[offset_jump, stable_offset]);

    assert_eq!(segment(&next), Some(1));
}

#[test]
fn stopped_locations_do_not_apply_the_jump_penalty() {
    let mut previous = location(0, 0.0);
    previous.speed = Some(Speed { value: b(0.0), accuracy: None });
    let state = update(
        &TemporalMatchState::default(),
        &previous,
        &[emission_at(100.0, 0, 0.0, 0.0, 0.000_1)],
    );
    let longitude = 10.0 / 111_000.0;
    let mut current = location(1, longitude);
    current.speed = Some(Speed { value: b(0.0), accuracy: None });
    let stable_offset = emission_at(110.0, 1, -1.0, longitude, 0.000_1);
    let frame_winner = emission_at(110.0, 2, 0.0, longitude, -0.000_1);

    let next = update(&state, &current, &[frame_winner, stable_offset]);

    assert_eq!(segment(&next), Some(2));
}

#[test]
fn poor_accuracy_relaxes_the_jump_penalty() {
    let mut previous = location(0, 0.0);
    previous.horizontal_accuracy = b(100.0);
    let state = update(
        &TemporalMatchState::default(),
        &previous,
        &[emission_at(100.0, 0, 0.0, 0.0, 0.000_1)],
    );
    let longitude = 10.0 / 111_000.0;
    let mut current = location(1, longitude);
    current.horizontal_accuracy = b(100.0);
    let stable_offset = emission_at(110.0, 1, -2.0, longitude, 0.000_1);
    let frame_winner = emission_at(110.0, 2, 0.0, longitude, -0.000_1);

    let next = update(&state, &current, &[frame_winner, stable_offset]);

    assert_eq!(segment(&next), Some(2));
}

#[test]
fn invalid_jump_measurements_fail_closed() {
    let previous_position = emission_at(100.0, 0, 0.0, 0.0, 0.000_1).route_position;
    let current_position = emission_at(110.0, 1, 0.0, 0.000_1, -0.000_1).route_position;

    let mut invalid_accuracy_previous = location(0, 0.0);
    invalid_accuracy_previous.horizontal_accuracy = b(f64::NAN);
    let mut invalid_accuracy_current = location(1, 10.0 / 111_000.0);
    invalid_accuracy_current.horizontal_accuracy = b(f64::NAN);
    assert!(jump_offset_log_likelihood(
        previous_position,
        current_position,
        &invalid_accuracy_previous,
        &invalid_accuracy_current,
    )
    .is_none());

    let valid_previous = location(0, 0.0);
    let mut invalid_speed_current = location(1, 10.0 / 111_000.0);
    invalid_speed_current.speed = Some(Speed { value: b(f64::NAN), accuracy: None });
    assert!(jump_offset_log_likelihood(
        previous_position,
        current_position,
        &valid_previous,
        &invalid_speed_current,
    )
    .is_none());

    let mut missing_speed_previous = location(0, 0.0);
    missing_speed_previous.speed = None;
    assert!(jump_offset_log_likelihood(
        previous_position,
        current_position,
        &missing_speed_previous,
        &invalid_speed_current,
    )
    .is_none());
}

#[test]
fn small_backward_projection_jitter_remains_reachable() {
    let first = location(0, 100.0 / 111_000.0);
    let state = update(&TemporalMatchState::default(), &first, &[emission(100.0, 1, 0.0)]);
    let second = location(1, 100.0 / 111_000.0);
    let state = update(&state, &second, &[emission(95.0, 1, 0.0)]);

    assert_eq!(
        state.route_position().map(|position| position.distance_along_route_meters),
        Some(b(95.0))
    );
}

#[test]
fn impossible_backward_jump_starts_a_new_frontier() {
    let first = location(0, 100.0 / 111_000.0);
    let state = update(&TemporalMatchState::default(), &first, &[emission(100.0, 1, 0.0)]);
    let second = location(1, 50.0 / 111_000.0);
    let state = update(&state, &second, &[emission(50.0, 0, -3.0)]);

    assert_eq!(state.candidates.len(), 1);
    assert_eq!(f(state.candidates[0].accumulated_log_likelihood), 0.0);
}

#[test]
fn impossible_forward_jump_starts_a_new_frontier() {
    let first = location(0, 0.0);
    let state = update(&TemporalMatchState::default(), &first, &[emission(0.0, 0, 0.0)]);
    let second = location(1, 0.0);
    let state = update(&state, &second, &[emission(500.0, 5, -3.0)]);

    assert_eq!(state.candidates.len(), 1);
    assert_eq!(f(state.candidates[0].accumulated_log_likelihood), 0.0);
    assert_eq!(segment(&state), Some(5));
}

#[test]
fn stale_and_out_of_order_signals_start_new_frontiers() {
    let initial = location(10, 0.0);
    let state = update(&TemporalMatchState::default(), &initial, &[emission(0.0, 0, 0.0)]);

    for next in [location(16, 0.0), location(9, 0.0)] {
        let reset = update(&state, &next, &[emission(500.0, 5, -4.0)]);
        assert_eq!(f(reset.candidates[0].accumulated_log_likelihood), 0.0);
        assert_eq!(segment(&reset), Some(5));
    }
}

#[test]
fn oversized_deserialized_frontier_is_bounded_before_transitions() {
    let previous_location = location(0, 0.0);
    let mut candidates = (0..MAX_SNAP_CANDIDATES)
        .map(|index| TemporalCandidate {
            route_position: emission(1_000.0, index as u64, 0.0).route_position,
            accumulated_log_likelihood: b(-(index as f64)),
        })
        .collect::<Vec<_>>();
    candidates.push(TemporalCandidate {
        route_position: emission(0.0, 99, 0.0).route_position,
        accumulated_log_likelihood: b(-10.0),
    });
    let state = TemporalMatchState { candidates, previous_location: Some(previous_location) };

    let next = update(
        &state,
        &location(1, 110.0 / 111_000.0),
        &[emission(100.0, 1, 0.0), emission(110.0, 2, -1.0)],
    );

    assert_eq!(next.candidates.len(), 2);
    assert_eq!(segment(&next), Some(1));
}

#[test]
fn a_transition_is_scored_by_the_difference_of_the_ways() {
    let first = location(0, 0.0);
    let state = update(
        &TemporalMatchState::default(),
        &first,
        &[emission_at(100.0, 0, 0.0, 0.0, 0.0)],
    );
    let longitude = 10.0 / 111_000.0;
    let second = location(1, longitude);
    let near = emission_at(112.0, 1, 0.0, longitude, 0.0);
    let far = emission_at(120.0, 2, 0.0, longitude, 0.0);
    let next = update(&state, &second, &[near, far]);

    let raw = haversine(first.coordinates, second.coordinates);
    let jump = |to: &SnapCandidate| {
        jump_offset_log_likelihood(
            state.candidates[0].route_position,
            to.route_position,
            &first,
            &second,
        )
        .unwrap()
    };
    let near_score = -(raw - 12.0).abs() / 2.0 + jump(&near);
    let far_score = -(raw - 20.0).abs() / 2.0 + jump(&far);
    assert_eq!(segment(&next), Some(1));
    assert_eq!(f(next.candidates[0].accumulated_log_likelihood), 0.0);
    assert_eq!(f(next.candidates[1].accumulated_log_likelihood), far_score - near_score);
}

#[test]
fn candidates_are_kept_in_order_and_bounded() {
    let emissions: Vec<SnapCandidate> =
        (0..20).map(|i| emission(i as f64, i, -((i * 7 % 20) as f64))).collect();
    let state = update(&TemporalMatchState::default(), &location(0, 0.0), &emissions);
    let scores: Vec<f64> =
        state.candidates.iter().map(|c| f(c.accumulated_log_likelihood)).collect();
    let expected: Vec<f64> = (0..10).map(|i| 0.0 - i as f64).collect();
    assert_eq!(scores, expected);
}

#[test]
fn equally_likely_candidates_stand_in_route_order() {
    let state = update(
        &TemporalMatchState::default(),
        &location(0, 0.0),
        &[emission(50.0, 5, -1.0), emission(10.0, 1, -1.0), emission(30.0, 3, -1.0)],
    );
    let segments: Vec<u64> =
        state.candidates.iter().map(|c| c.route_position.segment_index).collect();
    assert_eq!(segments, vec![1, 3, 5]);
    assert_eq!(
        state.candidate_anchor(&location(1, 0.0)).map(|p| p.segment_index),
        Some(1)
    );
    assert_eq!(state.candidate_anchor(&location(0, 0.0)), None);
    assert_eq!(state.candidate_anchor(&location(6, 0.0)), None);
}

#[test]
fn a_fix_without_candidates_forgets_the_frontier() {
    let state = update(&TemporalMatchState::default(), &location(0, 0.0), &[emission(0.0, 0, 0.0)]);
    let next = update(&state, &location(1, 0.0), &[]);
    assert!(next.candidates.is_empty());
    assert_eq!(next.previous_location, None);
    assert_eq!(next.route_position(), None);
}

#[test]
fn the_jump_likelihood_has_its_floor() {
    let floor = 0.000_130_031_437_976;
    assert_eq!(jump_likelihood(b(0.0)).map(f), Some(floor));
    assert_eq!(jump_likelihood(b(1.0)).map(f), Some((1.0 - floor) * 1.0 + floor));
    assert_eq!(jump_likelihood(b(f64::NAN)), None);
    let terms = jump_terms(b(13.0), &location(0, 0.0), &location(1, 0.0)).unwrap();
    assert_eq!(f(terms.exponent), -13.0);
    assert_eq!(terms.power, None);
    let mut coarse = location(1, 0.0);
    coarse.horizontal_accuracy = b(13.0);
    coarse.speed = Some(Speed { value: b(2.0), accuracy: None });
    let terms = jump_terms(b(13.0), &location(0, 0.0), &coarse).unwrap();
    assert_eq!(f(terms.exponent), -13.0 / (1.0 * 13.0 / 6.5));
    assert_eq!(terms.power.map(f), Some(6.0 / 9.0));
}

#[test]
fn kept_candidates_are_the_fixs_own_in_descending_order() {
    let config = UzmatchConfig::default();
    let mut state = TemporalMatchState::default();
    let mut flags = Vec::new();
    for (seconds, metres) in [(0, 0.0), (1, 10.0), (3, 30.0), (9, 90.0), (9, 90.0)] {
        let fix = location(seconds, metres / 111_000.0);
        let emissions: Vec<SnapCandidate> = (0..14)
            .map(|i| emission(metres + i as f64 - 7.0, i, -((i * 5 % 14) as f64) * 0.3))
            .collect();
        let measures = transitions(&state, &fix, &emissions);
        let (next, continued) = state.update_with_status(&fix, &emissions, &config, &measures);
        flags.push(continued);
        assert_eq!(next.previous_location, Some(fix));
        assert_eq!(next.candidates.len(), MAX_SNAP_CANDIDATES as usize);
        assert_eq!(f(next.candidates[0].accumulated_log_likelihood), 0.0);
        for kept in &next.candidates {
            assert!(emissions.iter().any(|e| e.route_position == kept.route_position));
        }
        for pair in next.candidates.windows(2) {
            assert!(
                f(pair[1].accumulated_log_likelihood) <= f(pair[0].accumulated_log_likelihood)
            );
        }
        state = next;
    }
    // the first has none before it, the fourth comes too late and the last at once
    assert_eq!(flags, vec![false, true, true, false, false]);
}

#[test]
fn what_is_no_logarithm_counts_as_not_measured() {
    let state = update(
        &TemporalMatchState::default(),
        &location(0, 0.0),
        &[emission(0.0, 0, 0.0)],
    );
    let fix = location(1, 10.0 / 111_000.0);
    let emissions = vec![emission(10.0, 1, -1.0), emission(11.0, 2, 0.0)];
    let continues = |jump: f64| {
        let measures =
            TransitionMeasures::new(b(10.0), vec![vec![Some(b(jump))], vec![Some(b(jump))]]);
        state.update_with_status(&fix, &emissions, &UzmatchConfig::default(), &measures).1
    };
    for jump in [0.0, -9.0, f64::MAX.ln(), f64::from_bits(1).ln()] {
        assert!(continues(jump), "{jump}");
    }
    for jump in [f64::NAN, f64::INFINITY, f64::NEG_INFINITY, -1e300, 746.0] {
        assert!(!continues(jump), "{jump}");
    }
}

#[test]
fn candidates_stand_in_order_whatever_was_measured() {
    let huge = 1e300;
    let candidates = (0..5)
        .map(|i| TemporalCandidate {
            route_position: emission(i as f64, i, 0.0).route_position,
            accumulated_log_likelihood: b(if i % 2 == 0 { huge } else { -huge }),
        })
        .collect();
    let state = TemporalMatchState { candidates, previous_location: Some(location(0, 0.0)) };
    let emissions: Vec<SnapCandidate> =
        (0..6).map(|i| emission(10.0 + i as f64, i, if i % 3 == 0 { huge } else { -huge })).collect();
    for raw in [0.0, 10.0, f64::MAX, -f64::MAX, f64::NAN, f64::INFINITY] {
        let jumps = vec![vec![Some(b(-3.0)); 5]; 6];
        let measures = TransitionMeasures::new(b(raw), jumps);
        let next = state.update(
            &location(1, 0.0001),
            &emissions,
            &UzmatchConfig::default(),
            &measures,
        );
        let scores: Vec<f64> =
            next.candidates.iter().map(|c| f(c.accumulated_log_likelihood)).collect();
        assert_eq!(scores[0], 0.0, "{raw}");
        assert!(scores.iter().all(|score| score.is_finite()), "{raw}");
        assert!(scores.windows(2).all(|pair| pair[1] <= pair[0]), "{raw}");
    }
}
