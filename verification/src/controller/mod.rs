//! The controller of a trip along one route.
use std::sync::Arc;

use vstd::prelude::*;

use crate::binary64::{number, Binary64, ZERO};
use crate::controller::plan::{guided, waypoints_ahead, Plan};
use crate::controller::state::{
    AdvanceFacts, CourseFiltering, InitialFacts, NavState, NavigationControllerConfig, StepFacts,
    StepMeasures, UpdateFacts, UpdateOutcome,
};
use crate::models::{same_line_as, CourseOverGround, Route, RouteStep, UserLocation, Waypoint};
use crate::session::Navigator;
use crate::step_advance::conditions::{StepAdvanceResult, StepCondition};
use crate::step_progress::{aligned, extents, IndexedStepPosition, StepProgressIndex};
use crate::trip::{
    bound_position, shared_steps, DeviationKind, Navigation, RouteDeviation, TripProgress,
    TripState, TripSummary,
};
use crate::uzmatch::snap::{
    heading_difference, indexed_segments, lengths_of, segment_count, RoutePosition, RouteSnapIndex,
    SegmentMeasure,
};
use crate::uzmatch::{
    MatchMeasurements, MatchState, UzmatchConfig, UzmatchSnapshot, UzmatchState,
};

pub mod fix_laws;
pub mod laws;
pub mod plan;
pub mod state;

verus! {

/// Leads a trip along one route from fix to fix. It keeps no state of its own: the
/// caller holds the state and hands it back with the next fix.
pub struct NavigationController {
    route: Route,
    config: NavigationControllerConfig,
    route_snap_index: Option<RouteSnapIndex>,
    step_progress_index: Option<StepProgressIndex>,
}

/// What a controller of a route holds, given the measures of the route's segments.
pub open spec fn plan_of(
    route: Route,
    config: NavigationControllerConfig,
    measures: Seq<SegmentMeasure>,
) -> Plan {
    Plan {
        steps: route.steps@,
        waypoints: route.waypoints@,
        config: config@,
        segments: if config.uzmatch.enabled {
            Some(indexed_segments(route.geometry@, measures))
        } else {
            None
        },
        extents: if config.uzmatch.enabled && aligned(route.geometry@, route.steps@) {
            Some(extents(lengths_of(measures), route.steps@))
        } else {
            None
        },
    }
}

impl View for NavigationController {
    type V = Plan;

    closed spec fn view(&self) -> Plan {
        Plan {
            steps: self.route.steps@,
            waypoints: self.route.waypoints@,
            config: self.config@,
            segments: match self.route_snap_index {
                Some(index) => Some(index@),
                None => None,
            },
            extents: match self.step_progress_index {
                Some(index) => Some(index@),
                None => None,
            },
        }
    }
}

/// The lengths of measured segments.
fn segment_lengths(measures: &Vec<SegmentMeasure>) -> (r: Vec<Binary64>)
    ensures
        r@ == lengths_of(measures@),
{
    let mut lengths: Vec<Binary64> = Vec::new();
    let mut i: usize = 0;
    while i < measures.len()
        invariant
            i <= measures.len(),
            lengths.len() == i,
            forall|k: int| 0 <= k < i ==> lengths[k] == measures[k].length_meters,
        decreases measures.len() - i,
    {
        lengths.push(measures[i].length_meters);
        i = i + 1;
    }
    assert(lengths@ =~= lengths_of(measures@));
    lengths
}

/// The waypoints without the first, which is where a trip starts.
fn without_first(waypoints: &Vec<Waypoint>) -> (r: Vec<Waypoint>)
    ensures
        r@ == waypoints_ahead(waypoints@),
{
    let mut ahead: Vec<Waypoint> = Vec::new();
    let mut i: usize = 1;
    while i < waypoints.len()
        invariant
            1 <= i,
            i <= waypoints.len() || i == 1,
            ahead.len() == i - 1,
            forall|k: int| 0 <= k < i - 1 ==> ahead[k] == waypoints[k + 1],
        decreases waypoints.len() - i,
    {
        ahead.push(waypoints[i]);
        i = i + 1;
    }
    assert(ahead@ =~= waypoints_ahead(waypoints@));
    ahead
}

/// The position on the route that a fix was bound to.
fn matched_position(snapshot: Option<UzmatchSnapshot>) -> (r: Option<RoutePosition>)
    ensures
        r == bound_position(snapshot),
{
    match snapshot {
        Some(snapshot) => snapshot.route_position,
        None => None,
    }
}

impl NavigationController {
    /// A controller of a route, given the measures of the route's segments where the
    /// matching core runs.
    pub fn new(
        route: Route,
        config: NavigationControllerConfig,
        measures: &Vec<SegmentMeasure>,
    ) -> (r: Self)
        requires
            config.uzmatch.enabled ==> measures.len() == segment_count(route.geometry@.len()),
        ensures
            r@ == plan_of(route, config, measures@),
            r.led_route() == route,
    {
        let route_snap_index: Option<RouteSnapIndex> = if config.uzmatch.enabled {
            Some(RouteSnapIndex::new(&route.geometry, measures))
        } else {
            None
        };
        let step_progress_index: Option<StepProgressIndex> = if config.uzmatch.enabled {
            StepProgressIndex::new(&route, &segment_lengths(measures))
        } else {
            None
        };
        NavigationController { route, config, route_snap_index, step_progress_index }
    }

    /// The route that the controller leads along.
    pub closed spec fn led_route(&self) -> Route {
        self.route
    }

    /// The index of the route's segments, where the matching core runs: it tells the
    /// host what to measure.
    pub fn snap_index(&self) -> (r: Option<&RouteSnapIndex>)
        ensures
            r is Some <==> self@.segments is Some,
            r is Some ==> Some(r->0@) == self@.segments,
    {
        match &self.route_snap_index {
            Some(index) => Some(index),
            None => None,
        }
    }

    /// The fix, moved to a position on the route.
    pub fn location_from_route_position(
        &self,
        location: UserLocation,
        route_position: RoutePosition,
    ) -> (r: UserLocation)
        ensures
            r == self@.moved_to(location, route_position),
    {
        let course_over_ground: Option<CourseOverGround> =
            match self.config.snapped_location_course_filtering {
            CourseFiltering::SnapToRoute => route_position.course_over_ground,
            CourseFiltering::Raw => location.course_over_ground,
        };
        UserLocation {
            coordinates: route_position.coordinates,
            horizontal_accuracy: location.horizontal_accuracy,
            course_over_ground,
            timestamp: location.timestamp,
            speed: location.speed,
        }
    }

    /// Where the position that a fix was bound to is within the current step. None where
    /// the remaining steps are not those of the route.
    pub fn position_within_step(
        &self,
        remaining_steps: &Vec<Arc<RouteStep>>,
        uzmatch: Option<UzmatchSnapshot>,
    ) -> (r: Option<IndexedStepPosition>)
        ensures
            r == self@.indexed(remaining_steps@, uzmatch),
    {
        if remaining_steps.len() == 0 || remaining_steps.len() > self.route.steps.len() {
            return None;
        }
        let current_step_index: usize = self.route.steps.len() - remaining_steps.len();
        if !same_line_as(
            &self.route.steps[current_step_index].geometry,
            &remaining_steps[0].geometry,
        ) {
            return None;
        }
        match (matched_position(uzmatch), &self.step_progress_index) {
            (Some(route_position), Some(index)) => index.locate(
                route_position,
                remaining_steps.len(),
            ),
            _ => None,
        }
    }

    /// The segment of the current step, the snapped fix and the progress, from the
    /// position that the fix was bound to. None where that is not within the step.
    pub fn step_state_from_match(
        &self,
        location: UserLocation,
        remaining_steps: &Vec<Arc<RouteStep>>,
        uzmatch: Option<UzmatchSnapshot>,
        measures: &StepMeasures,
    ) -> (r: Option<(Option<u64>, UserLocation, TripProgress)>)
        ensures
            r is Some <==> self@.indexed(remaining_steps@, uzmatch) is Some,
            r is Some ==> r->0 == self@.placed(location, remaining_steps@, uzmatch, *measures),
    {
        let indexed_position: IndexedStepPosition = match self.position_within_step(
            remaining_steps,
            uzmatch,
        ) {
            Some(indexed_position) => indexed_position,
            None => return None,
        };
        let route_position: RoutePosition = match matched_position(uzmatch) {
            Some(route_position) => route_position,
            None => return None,
        };
        Some(
            (
                Some(indexed_position.current_step_geometry_index),
                self.location_from_route_position(location, route_position),
                TripProgress {
                    distance_to_next_maneuver: indexed_position.distance_to_next_maneuver,
                    distance_remaining: measures.progress.distance_remaining,
                    duration_remaining: measures.progress.duration_remaining,
                },
            ),
        )
    }

    /// The fix, snapped to the line of the current step, with the course that the
    /// settings ask for.
    fn snap_user_to_line(&self, measures: &StepMeasures) -> (r: UserLocation)
        ensures
            r == (match self@.config.course_filtering {
                CourseFiltering::SnapToRoute => measures.projected_with_course,
                CourseFiltering::Raw => measures.projected,
            }),
    {
        match self.config.snapped_location_course_filtering {
            CourseFiltering::SnapToRoute => measures.projected_with_course,
            CourseFiltering::Raw => measures.projected,
        }
    }

    /// The snapped fix: moved to the position that it was bound to, or else snapped to
    /// the line of the current step.
    pub fn snap_user_to_match_or_line(
        &self,
        location: UserLocation,
        uzmatch: Option<UzmatchSnapshot>,
        measures: &StepMeasures,
    ) -> (r: UserLocation)
        ensures
            r == (match bound_position(uzmatch) {
                Some(position) => self@.moved_to(location, position),
                None => match self@.config.course_filtering {
                    CourseFiltering::SnapToRoute => measures.projected_with_course,
                    CourseFiltering::Raw => measures.projected,
                },
            }),
    {
        match matched_position(uzmatch) {
            Some(route_position) => self.location_from_route_position(location, route_position),
            None => self.snap_user_to_line(measures),
        }
    }

    /// The segment of the current step, the snapped fix and the progress.
    pub fn step_state(
        &self,
        location: UserLocation,
        remaining_steps: &Vec<Arc<RouteStep>>,
        uzmatch: Option<UzmatchSnapshot>,
        measures: &StepMeasures,
    ) -> (r: (Option<u64>, UserLocation, TripProgress))
        ensures
            r == self@.placed(location, remaining_steps@, uzmatch, *measures),
    {
        match self.step_state_from_match(location, remaining_steps, uzmatch, measures) {
            Some(state) => state,
            None => (
                measures.closest_segment,
                self.snap_user_to_match_or_line(location, uzmatch, measures),
                measures.progress,
            ),
        }
    }

    /// The trip at a fix on the first of the remaining steps.
    fn navigation_at_fix(
        &self,
        location: UserLocation,
        remaining_steps: Vec<Arc<RouteStep>>,
        remaining_waypoints: Vec<Waypoint>,
        summary: TripSummary,
        deviation: RouteDeviation,
        uzmatch: Option<UzmatchSnapshot>,
        facts: &StepFacts,
    ) -> (r: Navigation)
        ensures
            r@ == self@.at_fix(
                location,
                remaining_steps@,
                remaining_waypoints@,
                summary,
                deviation,
                uzmatch,
                *facts,
            ),
    {
        let (current_step_geometry_index, snapped_user_location, progress): (
            Option<u64>,
            UserLocation,
            TripProgress,
        ) = self.step_state(location, &remaining_steps, uzmatch, &facts.measures);
        let annotation: Option<u64> = match current_step_geometry_index {
            Some(_) => facts.annotation,
            None => None,
        };
        let mut navigation: Navigation = Navigation {
            current_step_geometry_index,
            user_location: location,
            snapped_user_location,
            remaining_steps,
            remaining_waypoints,
            progress,
            summary,
            deviation,
            visual_instruction: None,
            spoken_instruction: None,
            annotation,
            uzmatch,
        };
        Self::apply_deviation_and_instruction_policy(&mut navigation, deviation, facts);
        navigation
    }

    /// Sets the deviation of a trip, and the guidance that goes with it: none where no
    /// step is left or the user is off the route altogether, and otherwise that of the
    /// step.
    pub fn apply_deviation_and_instruction_policy(
        navigation: &mut Navigation,
        new_deviation: RouteDeviation,
        facts: &StepFacts,
    )
        ensures
            final(navigation)@ == guided(old(navigation)@, new_deviation, *facts),
    {
        navigation.deviation = new_deviation;
        if navigation.remaining_steps.len() == 0 || new_deviation.is_completely_off_route() {
            navigation.visual_instruction = None;
            navigation.spoken_instruction = None;
        } else {
            navigation.visual_instruction = facts.visual_instruction;
            navigation.spoken_instruction = facts.spoken_instruction;
        }
    }

    /// The state of a trip under way at a fix; any other is left as it is.
    pub fn create_intermediate_trip_state(
        &self,
        trip_state: TripState,
        location: UserLocation,
        remaining_steps: Vec<Arc<RouteStep>>,
        remaining_waypoints: Vec<Waypoint>,
        deviation: RouteDeviation,
        uzmatch: Option<UzmatchSnapshot>,
        facts: &StepFacts,
    ) -> (r: TripState)
        ensures
            r@ == self@.intermediate(
                trip_state@,
                location,
                remaining_steps@,
                remaining_waypoints@,
                deviation,
                uzmatch,
                *facts,
            ),
    {
        match trip_state {
            TripState::Navigating(_) => TripState::Navigating(
                self.navigation_at_fix(
                    location,
                    remaining_steps,
                    remaining_waypoints,
                    facts.summary,
                    deviation,
                    uzmatch,
                    facts,
                ),
            ),
            _ => trip_state,
        }
    }

    /// The matching core after a fix, and what it tells of it, where it runs.
    pub fn match_location(
        &self,
        uzmatch_state: &UzmatchState,
        location: &UserLocation,
        measurements: &MatchMeasurements,
    ) -> (r: (UzmatchState, Option<UzmatchSnapshot>))
        requires
            self@.is_measured(uzmatch_state@, *location, *measurements),
        ensures
            (r.0@, r.1) == self@.bound(uzmatch_state@, *location, *measurements),
    {
        match &self.route_snap_index {
            Some(route_index) => {
                let mut updated: UzmatchState = uzmatch_state.update_with_index(
                    location,
                    route_index,
                    &self.config.uzmatch,
                    measurements,
                );
                let snapshot: UzmatchSnapshot = updated.snapshot(location.timestamp);
                (updated, Some(snapshot))
            },
            None => (uzmatch_state.duplicate(), None),
        }
    }

    /// Whether a fix diverges from the route at a vertex.
    fn is_diverging(
        &self,
        matched_route_position: Option<RoutePosition>,
        location: &UserLocation,
    ) -> (r: bool)
        ensures
            r == self@.diverges(matched_route_position, *location),
    {
        let config: &UzmatchConfig = &self.config.uzmatch;
        let tolerance: Binary64 = config.heading_departure_tolerance_deg;
        let position: RoutePosition = match matched_route_position {
            Some(position) => position,
            None => return false,
        };
        let index: &RouteSnapIndex = match &self.route_snap_index {
            Some(index) => index,
            None => return false,
        };
        let course: CourseOverGround = match location.course_over_ground {
            Some(course) => course,
            None => return false,
        };
        if let Some(accuracy) = course.accuracy {
            if tolerance.less(Binary64::from_integer(accuracy as u128)) {
                return false;
            }
        }
        let speed: Binary64 = match location.speed {
            Some(speed) => speed.value,
            None => return false,
        };
        if speed.is_nan() || speed.less(config.heading_departure_min_speed_mps) {
            return false;
        }
        if !index.is_pinned_at_vertex(&position) {
            return false;
        }
        match index.bearing_ahead(&position) {
            Some(ahead) => tolerance.less(
                heading_difference(Binary64::from_integer(course.degrees as u128), ahead),
            ),
            None => false,
        }
    }

    /// Whether a fix confirms that the user has left the route by its course. Counts the
    /// diverging fixes in a row.
    pub fn heading_departure_confirmed(
        &self,
        uzmatch_state: &mut UzmatchState,
        matched_route_position: Option<RoutePosition>,
        location: &UserLocation,
    ) -> (r: bool)
        ensures
            r == self@.departs(
                old(uzmatch_state).heading_departure_streak,
                matched_route_position,
                *location,
            ),
            final(uzmatch_state)@ == (MatchState {
                heading_departure_streak: self@.streak(
                    old(uzmatch_state).heading_departure_streak,
                    matched_route_position,
                    *location,
                ),
                ..old(uzmatch_state)@
            }),
    {
        let config: &UzmatchConfig = &self.config.uzmatch;
        let confirmations: u8 = config.heading_departure_confirmations;
        if !config.heading_departure_enabled || !self.is_diverging(
            matched_route_position,
            location,
        ) {
            uzmatch_state.heading_departure_streak = 0;
            return false;
        }
        let streak: u8 = uzmatch_state.heading_departure_streak;
        uzmatch_state.heading_departure_streak = if streak < confirmations {
            streak + 1
        } else if confirmations == 0 {
            1
        } else {
            confirmations
        };
        uzmatch_state.heading_departure_streak >= confirmations
    }

    /// The deviation that is told. A confirmed departure is told at once; otherwise the
    /// user counts as off the route only far enough from the last position that was
    /// accepted as on it. Where the matching core does not run, nothing is changed.
    pub fn cling_stabilized_deviation(
        &self,
        uzmatch_state: &mut UzmatchState,
        uzmatch_ran: bool,
        matched_route_position: Option<RoutePosition>,
        location: UserLocation,
        deviation: RouteDeviation,
        distance_from_match: Binary64,
        distance_from_anchor: Binary64,
    ) -> (r: RouteDeviation)
        ensures
            (r, final(uzmatch_state)@) == self@.stabilized(
                old(uzmatch_state)@,
                uzmatch_ran,
                matched_route_position,
                location,
                deviation,
                distance_from_match,
                distance_from_anchor,
            ),
    {
        if !uzmatch_ran {
            return deviation;
        }
        if self.heading_departure_confirmed(uzmatch_state, matched_route_position, &location) {
            return if deviation.is_completely_off_route() {
                deviation
            } else {
                RouteDeviation::Deviation {
                    kind: DeviationKind::CompletelyOffRoute {
                        deviation_from_route_line: distance_from_match,
                    },
                }
            };
        }
        if deviation.is_completely_off_route() {
            if uzmatch_state.cling.holds(&location, &self.config.uzmatch, distance_from_anchor) {
                RouteDeviation::NoDeviation
            } else {
                deviation
            }
        } else {
            uzmatch_state.cling.anchor_on_route(
                match matched_route_position {
                    Some(position) => position.coordinates,
                    None => location.coordinates,
                },
                location.timestamp,
            );
            deviation
        }
    }

    /// The trip under way and the matching core at a fix, before an advance. While the
    /// user stands still, the deviation stays as it was.
    pub fn navigation_after_fix(
        &self,
        location: UserLocation,
        navigation: &Navigation,
        uzmatch_state: &UzmatchState,
        facts: &UpdateFacts,
    ) -> (r: (Navigation, UzmatchState))
        requires
            self@.is_measured(uzmatch_state@, location, facts.measurements),
        ensures
            (r.0@, r.1@) == self@.seen(navigation@, uzmatch_state@, location, *facts),
    {
        let (mut after, uzmatch_snapshot): (UzmatchState, Option<UzmatchSnapshot>) =
            self.match_location(uzmatch_state, &location, &facts.measurements);
        let is_standing: bool = match uzmatch_snapshot {
            Some(snapshot) => snapshot.is_standing,
            None => false,
        };
        let remaining_steps: Vec<Arc<RouteStep>> = shared_steps(&navigation.remaining_steps, 0);
        assert(remaining_steps@ =~= navigation@.remaining_steps);
        let mut seen: Navigation = self.navigation_at_fix(
            location,
            remaining_steps,
            facts.waypoints.apply(&navigation.remaining_waypoints),
            facts.step.summary,
            navigation.deviation,
            uzmatch_snapshot,
            &facts.step,
        );
        if !is_standing {
            let deviation: RouteDeviation = self.cling_stabilized_deviation(
                &mut after,
                uzmatch_snapshot.is_some(),
                matched_position(uzmatch_snapshot),
                location,
                facts.deviation,
                facts.distance_from_match,
                facts.distance_from_anchor,
            );
            Self::apply_deviation_and_instruction_policy(&mut seen, deviation, &facts.step);
        }
        (seen, after)
    }

    /// The condition that decides at a fix, where one does: none while the user stands
    /// still, other than at the end of the trip.
    pub fn deciding_condition(
        &self,
        condition: &Arc<StepCondition>,
        navigation: &Navigation,
    ) -> (r: Option<Arc<StepCondition>>)
        ensures
            r is Some <==> self@.decides(navigation@),
            r is Some ==> r->0.model() == self@.deciding(
                condition.model(),
                navigation@.remaining_steps,
            ),
    {
        let is_standing: bool = match navigation.uzmatch {
            Some(snapshot) => snapshot.is_standing,
            None => false,
        };
        if navigation.remaining_steps.len() <= 2 {
            Some(self.config.arrival_step_advance_condition.clone())
        } else if is_standing {
            None
        } else {
            Some(condition.clone())
        }
    }
}

impl Navigator for NavigationController {
    open spec fn plan(&self) -> Plan {
        self@
    }

    open spec fn led_along(&self) -> Route {
        self.led_route()
    }

    /// The route that the controller leads along.
    fn route(&self) -> (r: &Route) {
        &self.route
    }

    /// The state of a navigation at its first fix. A route without steps is at its end
    /// at once.
    fn get_initial_state(&self, location: UserLocation, facts: &InitialFacts) -> (r: NavState) {
        let summary: TripSummary = TripSummary {
            distance_traveled: number(ZERO),
            snapped_distance_traveled: number(ZERO),
            started_at: facts.started_at,
            ended_at: None,
        };
        if self.route.steps.len() == 0 {
            return NavState::complete(location, summary);
        }
        let (uzmatch_state, uzmatch_snapshot): (UzmatchState, Option<UzmatchSnapshot>) =
            self.match_location(&UzmatchState::default(), &location, &facts.measurements);
        let remaining_steps: Vec<Arc<RouteStep>> = shared_steps(&self.route.steps, 0);
        assert(remaining_steps@ =~= self@.steps);
        let navigation: Navigation = self.navigation_at_fix(
            location,
            remaining_steps,
            without_first(&self.route.waypoints),
            summary,
            facts.deviation,
            uzmatch_snapshot,
            &facts.step,
        );
        NavState::new(
            TripState::Navigating(navigation),
            self.config.step_advance_condition.clone(),
            uzmatch_state,
        )
    }

    /// Advances to the next step, or ends the trip on the last one. A trip that is not
    /// under way is left as it is.
    fn advance_to_next_step(&self, state: NavState, facts: &AdvanceFacts) -> (r: NavState) {
        match state.trip_state {
            TripState::Navigating(navigation) => {
                if navigation.remaining_steps.len() <= 1 {
                    return NavState::complete(navigation.user_location, navigation.summary);
                }
                let remaining_steps: Vec<Arc<RouteStep>> = shared_steps(
                    &navigation.remaining_steps,
                    1,
                );
                let after: Navigation = self.navigation_at_fix(
                    navigation.user_location,
                    remaining_steps,
                    facts.waypoints.apply(&navigation.remaining_waypoints),
                    facts.step.summary,
                    navigation.deviation,
                    navigation.uzmatch,
                    &facts.step,
                );
                NavState::new(
                    TripState::Navigating(after),
                    state.step_advance_condition.new_instance(),
                    state.uzmatch_state,
                )
            },
            _ => state,
        }
    }

    /// The state after a fix. A trip that is not under way is left as it is.
    fn update_user_location(
        &self,
        location: UserLocation,
        state: NavState,
        facts: &UpdateFacts,
    ) -> (r: UpdateOutcome) {
        let navigation: &Navigation = match &state.trip_state {
            TripState::Navigating(navigation) => navigation,
            _ => return UpdateOutcome { state, again: false },
        };
        let (seen, uzmatch_state): (Navigation, UzmatchState) = self.navigation_after_fix(
            location,
            navigation,
            &state.uzmatch_state,
            facts,
        );
        let is_arriving: bool = navigation.remaining_steps.len() <= 2;
        let deciding: Option<Arc<StepCondition>> = self.deciding_condition(
            &state.step_advance_condition,
            &seen,
        );
        let trip_state: TripState = TripState::Navigating(seen);
        let (should_advance, next_condition): (bool, Arc<StepCondition>) = match deciding {
            Some(condition) => {
                let result: StepAdvanceResult = condition.should_advance_step(
                    &trip_state,
                    &facts.evidence,
                );
                (result.should_advance, result.next_iteration)
            },
            None => (false, state.step_advance_condition.clone()),
        };
        let after: NavState = NavState::new(trip_state, next_condition, uzmatch_state);
        if should_advance {
            UpdateOutcome {
                state: self.advance_to_next_step(after, &facts.advance),
                again: !is_arriving,
            }
        } else {
            UpdateOutcome { state: after, again: false }
        }
    }
}

} // verus!
