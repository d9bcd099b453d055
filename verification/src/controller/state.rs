//! What a controller is told and what it keeps from fix to fix.
use std::sync::Arc;

use vstd::prelude::*;

use crate::binary64::Binary64;
use crate::lists::copied;
use crate::models::{SpokenInstruction, UserLocation, VisualInstruction, Waypoint};
use crate::step_advance::conditions::{
    ConditionModel, Evidence, ManualStepCondition, StepCondition,
};
use crate::time::Timestamp;
use crate::trip::{RouteDeviation, TripModel, TripProgress, TripState, TripSummary};
use crate::uzmatch::{initial_state, MatchMeasurements, MatchState, UzmatchConfig, UzmatchState};

verus! {

/// Where the course of a snapped fix comes from.
#[derive(Clone, Copy, PartialEq, Eq, Structural, Debug)]
pub enum CourseFiltering {
    /// From the route.
    SnapToRoute,
    /// From the fix itself.
    Raw,
}

/// The settings of a controller. When waypoints are passed and when the user counts as
/// off the route is decided by the host.
#[derive(Debug)]
pub struct NavigationControllerConfig {
    /// When to advance to the next step.
    pub step_advance_condition: Arc<StepCondition>,
    /// When to advance on the last two steps.
    pub arrival_step_advance_condition: Arc<StepCondition>,
    /// Where the course of a snapped fix comes from.
    pub snapped_location_course_filtering: CourseFiltering,
    /// The settings of the matching core.
    pub uzmatch: UzmatchConfig,
}

/// What the settings of a controller hold.
pub struct ConfigModel {
    /// When to advance to the next step.
    pub condition: ConditionModel,
    /// When to advance on the last two steps.
    pub arrival_condition: ConditionModel,
    /// Where the course of a snapped fix comes from.
    pub course_filtering: CourseFiltering,
    /// The settings of the matching core.
    pub uzmatch: UzmatchConfig,
}

impl View for NavigationControllerConfig {
    type V = ConfigModel;

    open spec fn view(&self) -> ConfigModel {
        ConfigModel {
            condition: self.step_advance_condition.model(),
            arrival_condition: self.arrival_step_advance_condition.model(),
            course_filtering: self.snapped_location_course_filtering,
            uzmatch: self.uzmatch,
        }
    }
}

/// What the host measures of a fix on the line of the current step.
#[derive(Clone, Copy, PartialEq, Eq, Structural, Debug)]
pub struct StepMeasures {
    /// The fix, snapped to the line.
    pub projected: UserLocation,
    /// The same, with the course of the line there.
    pub projected_with_course: UserLocation,
    /// The segment of the line whose start is closest to the snapped fix.
    pub closest_segment: Option<u64>,
    /// How much of the trip is left from the snapped fix; from the metres to the next
    /// maneuver where those are known.
    pub progress: TripProgress,
}

/// What the host tells of a fix on a step.
#[derive(Clone, Copy, PartialEq, Eq, Structural, Debug)]
pub struct StepFacts {
    /// What it measures.
    pub measures: StepMeasures,
    /// How much of the trip has been made, up to this fix.
    pub summary: TripSummary,
    /// The annotation of the segment of the step that the user is on.
    pub annotation: Option<u64>,
    /// What the step has to show at these metres to the next maneuver.
    pub visual_instruction: Option<VisualInstruction>,
    /// What the step has to speak at these metres to the next maneuver.
    pub spoken_instruction: Option<SpokenInstruction>,
}

/// Which waypoints are left.
#[derive(Debug)]
pub enum WaypointAdvanceResult {
    /// The same as before.
    Unchanged,
    /// These.
    Changed(Vec<Waypoint>),
}

impl WaypointAdvanceResult {
    /// The waypoints that are left of some.
    pub open spec fn applied(self, waypoints: Seq<Waypoint>) -> Seq<Waypoint> {
        match self {
            WaypointAdvanceResult::Unchanged => waypoints,
            WaypointAdvanceResult::Changed(left) => left@,
        }
    }

    /// The waypoints that are left of some.
    pub fn apply(&self, waypoints: &Vec<Waypoint>) -> (r: Vec<Waypoint>)
        ensures
            r@ == self.applied(waypoints@),
    {
        match self {
            WaypointAdvanceResult::Unchanged => copied(waypoints),
            WaypointAdvanceResult::Changed(left) => copied(left),
        }
    }
}

/// What the host tells of the first fix of a trip.
#[derive(Debug)]
pub struct InitialFacts {
    /// When the trip starts.
    pub started_at: Timestamp,
    /// What it measures for the matching core.
    pub measurements: MatchMeasurements,
    /// What it tells of the fix on the first step; its summary is not used.
    pub step: StepFacts,
    /// Whether the user is where the route leads.
    pub deviation: RouteDeviation,
}

/// What the host tells of an advance to the next step.
#[derive(Debug)]
pub struct AdvanceFacts {
    /// The waypoints that are left on the next step.
    pub waypoints: WaypointAdvanceResult,
    /// What it tells of the latest fix on the next step.
    pub step: StepFacts,
}

/// What the host tells of a fix.
#[derive(Debug)]
pub struct UpdateFacts {
    /// The waypoints that are left.
    pub waypoints: WaypointAdvanceResult,
    /// What it measures for the matching core.
    pub measurements: MatchMeasurements,
    /// What it tells of the fix on the current step.
    pub step: StepFacts,
    /// Whether the user is where the route leads.
    pub deviation: RouteDeviation,
    /// Metres from the fix to the position on the route that it was bound to.
    pub distance_from_match: Binary64,
    /// Metres from the fix to the last position that was accepted as on the route.
    pub distance_from_anchor: Binary64,
    /// What it measures for the condition that decides.
    pub evidence: Evidence,
    /// What it tells of the next step, in case of an advance.
    pub advance: AdvanceFacts,
}

/// The state of a navigation.
#[derive(Debug)]
pub struct NavState {
    /// The state of the trip.
    pub trip_state: TripState,
    /// When to advance to the next step.
    pub step_advance_condition: Arc<StepCondition>,
    /// The state of the matching core.
    pub uzmatch_state: UzmatchState,
}

/// What the state of a navigation holds.
pub struct NavModel {
    /// The state of the trip.
    pub trip: TripModel,
    /// When to advance to the next step.
    pub condition: ConditionModel,
    /// The state of the matching core.
    pub uzmatch: MatchState,
}

impl View for NavState {
    type V = NavModel;

    open spec fn view(&self) -> NavModel {
        NavModel {
            trip: self.trip_state@,
            condition: self.step_advance_condition.model(),
            uzmatch: self.uzmatch_state@,
        }
    }
}

/// The state after a fix.
#[derive(Debug)]
pub struct UpdateOutcome {
    /// The state.
    pub state: NavState,
    /// Whether the same fix must be given again: the trip has advanced to a step that
    /// the fix may have passed too.
    pub again: bool,
}

/// The state at the end of a trip.
pub open spec fn completed(location: UserLocation, summary: TripSummary) -> NavModel {
    NavModel {
        trip: TripModel::Complete { user_location: location, summary },
        condition: ConditionModel::Manual,
        uzmatch: initial_state(),
    }
}

impl NavState {
    /// A state of these parts.
    pub fn new(
        trip_state: TripState,
        step_advance_condition: Arc<StepCondition>,
        uzmatch_state: UzmatchState,
    ) -> (r: Self)
        ensures
            r@ == (NavModel {
                trip: trip_state@,
                condition: step_advance_condition.model(),
                uzmatch: uzmatch_state@,
            }),
    {
        NavState { trip_state, step_advance_condition, uzmatch_state }
    }

    /// The state at the end of a trip.
    pub fn complete(location: UserLocation, summary: TripSummary) -> (r: Self)
        ensures
            r@ == completed(location, summary),
    {
        NavState {
            trip_state: TripState::Complete { user_location: location, summary },
            step_advance_condition: Arc::new(StepCondition::Manual(ManualStepCondition)),
            uzmatch_state: UzmatchState::default(),
        }
    }

    /// The same state.
    pub fn duplicate(&self) -> (r: Self)
        ensures
            r@ == self@,
    {
        NavState {
            trip_state: self.trip_state.duplicate(),
            step_advance_condition: self.step_advance_condition.clone(),
            uzmatch_state: self.uzmatch_state.duplicate(),
        }
    }
}

/// A navigation at its end holds the latest fix and what was made of the trip. No fix advances
/// it any more, and nothing is carried over to the next trip.
pub proof fn law_a_navigation_ends_with_its_summary(location: UserLocation, summary: TripSummary)
    ensures
        ({
            let state = completed(location, summary);
            &&& state.trip == (TripModel::Complete { user_location: location, summary })
            &&& state.condition == ConditionModel::Manual
            &&& state.uzmatch.route_position is None
            &&& state.uzmatch.temporal_match.candidates.len() == 0
            &&& state.uzmatch.temporal_match.previous_location is None
            &&& state.uzmatch.speed_history.len() == 0
            &&& state.uzmatch.cling.anchor is None
            &&& state.uzmatch.heading_departure_streak == 0
            &&& !state.uzmatch.standing.is_standing
        }),
{
}

/// The waypoints that are left are those before, or those of the answer where it has some.
pub proof fn law_waypoints_are_left_as_answered(
    answer: WaypointAdvanceResult,
    waypoints: Seq<Waypoint>,
)
    ensures
        match answer {
            WaypointAdvanceResult::Unchanged => answer.applied(waypoints) == waypoints,
            WaypointAdvanceResult::Changed(left) => answer.applied(waypoints) == left@,
        },
{
}

/// A navigation holds what its parts hold.
pub proof fn law_a_navigation_holds_its_parts(
    state: NavState,
    config: NavigationControllerConfig,
)
    ensures
        state@.trip == state.trip_state@,
        state@.condition == state.step_advance_condition.model(),
        state@.uzmatch == state.uzmatch_state@,
        config@.condition == config.step_advance_condition.model(),
        config@.arrival_condition == config.arrival_step_advance_condition.model(),
        config@.course_filtering == config.snapped_location_course_filtering,
        config@.uzmatch == config.uzmatch,
{
}

} // verus!
