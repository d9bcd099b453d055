//! The state of a trip.
use std::sync::Arc;

use vstd::prelude::*;

use crate::binary64::Binary64;
use crate::lists::copied;
use crate::models::{
    GeographicCoordinate, RouteStep, SpokenInstruction, UserLocation, VisualInstruction, Waypoint,
};
use crate::time::Timestamp;
use crate::uzmatch::snap::RoutePosition;
use crate::uzmatch::UzmatchSnapshot;

verus! {

/// How much of the trip is left.
#[derive(Clone, Copy, PartialEq, Eq, Structural, Debug)]
pub struct TripProgress {
    /// Metres to the next maneuver.
    pub distance_to_next_maneuver: Binary64,
    /// Metres to the end of the route.
    pub distance_remaining: Binary64,
    /// Seconds to the end of the route.
    pub duration_remaining: Binary64,
}

/// How much of the trip has been made.
#[derive(Clone, Copy, PartialEq, Eq, Structural, Debug)]
pub struct TripSummary {
    /// Metres between the fixes.
    pub distance_traveled: Binary64,
    /// Metres between the fixes as snapped to the route.
    pub snapped_distance_traveled: Binary64,
    /// When the trip started.
    pub started_at: Timestamp,
    /// When it ended, where it has.
    pub ended_at: Option<Timestamp>,
}

/// How the user has left the step that they should be on.
#[derive(Clone, Copy, PartialEq, Eq, Structural, Debug)]
pub enum DeviationKind {
    /// Off the current step, but on a later part of the route.
    OffStepOnRoute {
        /// Metres from the line of the step.
        deviation_from_step_line: Binary64,
    },
    /// Off the route.
    CompletelyOffRoute {
        /// Metres from the line of the route.
        deviation_from_route_line: Binary64,
    },
}

/// Whether the user is where the route leads.
#[derive(Clone, Copy, PartialEq, Eq, Structural, Debug)]
pub enum RouteDeviation {
    /// On the current step.
    NoDeviation,
    /// Not on it.
    Deviation {
        /// In which way.
        kind: DeviationKind,
    },
}

impl RouteDeviation {
    /// Whether the user has left the route altogether.
    pub open spec fn spec_is_completely_off_route(self) -> bool {
        self matches RouteDeviation::Deviation { kind: DeviationKind::CompletelyOffRoute { .. } }
    }

    /// Whether the user has left the route altogether.
    #[verifier::when_used_as_spec(spec_is_completely_off_route)]
    pub fn is_completely_off_route(self) -> (r: bool)
        ensures
            r == self.spec_is_completely_off_route(),
    {
        match self {
            RouteDeviation::NoDeviation => false,
            RouteDeviation::Deviation { kind } => match kind {
                DeviationKind::OffStepOnRoute { .. } => false,
                DeviationKind::CompletelyOffRoute { .. } => true,
            },
        }
    }

    /// Whether the user is off the current step in any way.
    pub open spec fn spec_is_deviated_from_current_step(self) -> bool {
        self != RouteDeviation::NoDeviation
    }

    /// Whether the user is off the current step in any way.
    #[verifier::when_used_as_spec(spec_is_deviated_from_current_step)]
    pub fn is_deviated_from_current_step(self) -> (r: bool)
        ensures
            r == self.spec_is_deviated_from_current_step(),
    {
        match self {
            RouteDeviation::NoDeviation => false,
            RouteDeviation::Deviation { .. } => true,
        }
    }
}

/// A trip under way.
#[derive(Debug)]
pub struct Navigation {
    /// The segment of the current step that the user is on.
    pub current_step_geometry_index: Option<u64>,
    /// The latest fix.
    pub user_location: UserLocation,
    /// The latest fix as snapped to the route.
    pub snapped_user_location: UserLocation,
    /// The steps that are left, the current one first.
    pub remaining_steps: Vec<Arc<RouteStep>>,
    /// The waypoints that are left.
    pub remaining_waypoints: Vec<Waypoint>,
    /// How much of the trip is left.
    pub progress: TripProgress,
    /// How much of the trip has been made.
    pub summary: TripSummary,
    /// Whether the user is where the route leads.
    pub deviation: RouteDeviation,
    /// What to show.
    pub visual_instruction: Option<VisualInstruction>,
    /// What to speak.
    pub spoken_instruction: Option<SpokenInstruction>,
    /// The host's key for the annotation of the current segment.
    pub annotation: Option<u64>,
    /// What the matching core tells, where it runs.
    pub uzmatch: Option<UzmatchSnapshot>,
}

/// What a trip under way holds.
pub struct Trip {
    /// The segment of the current step that the user is on.
    pub current_step_geometry_index: Option<u64>,
    /// The latest fix.
    pub user_location: UserLocation,
    /// The latest fix as snapped to the route.
    pub snapped_user_location: UserLocation,
    /// The steps that are left, the current one first.
    pub remaining_steps: Seq<Arc<RouteStep>>,
    /// The waypoints that are left.
    pub remaining_waypoints: Seq<Waypoint>,
    /// How much of the trip is left.
    pub progress: TripProgress,
    /// How much of the trip has been made.
    pub summary: TripSummary,
    /// Whether the user is where the route leads.
    pub deviation: RouteDeviation,
    /// What to show.
    pub visual_instruction: Option<VisualInstruction>,
    /// What to speak.
    pub spoken_instruction: Option<SpokenInstruction>,
    /// The host's key for the annotation of the current segment.
    pub annotation: Option<u64>,
    /// What the matching core tells, where it runs.
    pub uzmatch: Option<UzmatchSnapshot>,
}

/// The position on the route that a fix was bound to.
pub open spec fn bound_position(snapshot: Option<UzmatchSnapshot>) -> Option<RoutePosition> {
    match snapshot {
        Some(snapshot) => snapshot.route_position,
        None => None,
    }
}

impl View for Navigation {
    type V = Trip;

    open spec fn view(&self) -> Trip {
        Trip {
            current_step_geometry_index: self.current_step_geometry_index,
            user_location: self.user_location,
            snapped_user_location: self.snapped_user_location,
            remaining_steps: self.remaining_steps@,
            remaining_waypoints: self.remaining_waypoints@,
            progress: self.progress,
            summary: self.summary,
            deviation: self.deviation,
            visual_instruction: self.visual_instruction,
            spoken_instruction: self.spoken_instruction,
            annotation: self.annotation,
            uzmatch: self.uzmatch,
        }
    }
}

/// The state of a trip.
#[derive(Debug)]
#[allow(inconsistent_fields)]
pub enum TripState {
    /// Not started.
    Idle {
        /// The latest fix, where there is one.
        user_location: Option<UserLocation>,
    },
    /// Under way.
    Navigating(Navigation),
    /// At its end.
    Complete {
        /// The latest fix.
        user_location: UserLocation,
        /// How much of the trip was made.
        summary: TripSummary,
    },
}

/// What the state of a trip holds.
#[allow(inconsistent_fields)]
pub enum TripModel {
    /// Not started.
    Idle {
        /// The latest fix, where there is one.
        user_location: Option<UserLocation>,
    },
    /// Under way.
    Navigating(Trip),
    /// At its end.
    Complete {
        /// The latest fix.
        user_location: UserLocation,
        /// How much of the trip was made.
        summary: TripSummary,
    },
}

impl View for TripState {
    type V = TripModel;

    open spec fn view(&self) -> TripModel {
        match self {
            TripState::Idle { user_location } => TripModel::Idle { user_location: *user_location },
            TripState::Navigating(navigation) => TripModel::Navigating(navigation@),
            TripState::Complete { user_location, summary } => TripModel::Complete {
                user_location: *user_location,
                summary: *summary,
            },
        }
    }
}

impl TripModel {
    /// The latest fix.
    pub open spec fn location(self) -> Option<UserLocation> {
        match self {
            TripModel::Idle { user_location } => user_location,
            TripModel::Navigating(trip) => Some(trip.user_location),
            TripModel::Complete { user_location, .. } => Some(user_location),
        }
    }

    /// Where the user is: at the position on the route that the latest fix was bound
    /// to, or else where the fix itself is.
    pub open spec fn position(self) -> Option<GeographicCoordinate> {
        match self {
            TripModel::Navigating(trip) => match bound_position(trip.uzmatch) {
                Some(position) => Some(position.coordinates),
                None => Some(trip.user_location.coordinates),
            },
            _ => match self.location() {
                Some(location) => Some(location.coordinates),
                None => None,
            },
        }
    }

    /// The steps that are left; none of a trip that is not under way.
    pub open spec fn steps(self) -> Seq<Arc<RouteStep>> {
        match self {
            TripModel::Navigating(trip) => trip.remaining_steps,
            _ => Seq::empty(),
        }
    }

    /// A step that is left, counted from the current one.
    pub open spec fn step(self, index: int) -> Option<Arc<RouteStep>> {
        if 0 <= index < self.steps().len() {
            Some(self.steps()[index])
        } else {
            None
        }
    }

    /// Whether the user is where the route leads, of a trip under way.
    pub open spec fn route_deviation(self) -> Option<RouteDeviation> {
        match self {
            TripModel::Navigating(trip) => Some(trip.deviation),
            _ => None,
        }
    }
}

/// A copy of a list of shared steps.
pub fn shared_steps(list: &Vec<Arc<RouteStep>>, from: usize) -> (r: Vec<Arc<RouteStep>>)
    requires
        from <= list.len(),
    ensures
        r@ == list@.subrange(from as int, list.len() as int),
{
    let mut copy: Vec<Arc<RouteStep>> = Vec::new();
    let mut i: usize = from;
    while i < list.len()
        invariant
            from <= i <= list.len(),
            copy@ == list@.subrange(from as int, i as int),
        decreases list.len() - i,
    {
        copy.push(list[i].clone());
        i = i + 1;
        assert(copy@ =~= list@.subrange(from as int, i as int));
    }
    copy
}

impl Navigation {
    /// The same trip.
    pub fn duplicate(&self) -> (r: Self)
        ensures
            r@ == self@,
    {
        let steps: Vec<Arc<RouteStep>> = shared_steps(&self.remaining_steps, 0);
        assert(steps@ =~= self.remaining_steps@);
        Navigation {
            current_step_geometry_index: self.current_step_geometry_index,
            user_location: self.user_location,
            snapped_user_location: self.snapped_user_location,
            remaining_steps: steps,
            remaining_waypoints: copied(&self.remaining_waypoints),
            progress: self.progress,
            summary: self.summary,
            deviation: self.deviation,
            visual_instruction: self.visual_instruction,
            spoken_instruction: self.spoken_instruction,
            annotation: self.annotation,
            uzmatch: self.uzmatch,
        }
    }
}

impl TripState {
    /// The same state.
    pub fn duplicate(&self) -> (r: Self)
        ensures
            r@ == self@,
    {
        match self {
            TripState::Idle { user_location } => TripState::Idle { user_location: *user_location },
            TripState::Navigating(navigation) => TripState::Navigating(navigation.duplicate()),
            TripState::Complete { user_location, summary } => TripState::Complete {
                user_location: *user_location,
                summary: *summary,
            },
        }
    }

    /// The latest fix.
    pub fn user_location(&self) -> (r: Option<UserLocation>)
        ensures
            r == self@.location(),
    {
        match self {
            TripState::Idle { user_location } => *user_location,
            TripState::Navigating(navigation) => Some(navigation.user_location),
            TripState::Complete { user_location, .. } => Some(*user_location),
        }
    }

    /// Where the user is: at the position on the route that the latest fix was bound
    /// to, or else where the fix itself is.
    pub fn position(&self) -> (r: Option<GeographicCoordinate>)
        ensures
            r == self@.position(),
    {
        if let TripState::Navigating(navigation) = self {
            if let Some(snapshot) = navigation.uzmatch {
                if let Some(position) = snapshot.route_position {
                    return Some(position.coordinates);
                }
            }
        }
        match self.user_location() {
            Some(location) => Some(location.coordinates),
            None => None,
        }
    }

    /// A step that is left, counted from the current one.
    pub fn get_step(&self, index: usize) -> (r: Option<Arc<RouteStep>>)
        ensures
            r == (if index < self@.steps().len() {
                Some(self@.steps()[index as int])
            } else {
                None
            }),
            r == self@.step(index as int),
    {
        match self {
            TripState::Navigating(navigation) => if index < navigation.remaining_steps.len() {
                Some(navigation.remaining_steps[index].clone())
            } else {
                None
            },
            _ => None,
        }
    }

    /// The current step.
    pub fn current_step(&self) -> (r: Option<Arc<RouteStep>>)
        ensures
            r == (if self@.steps().len() > 0 {
                Some(self@.steps()[0])
            } else {
                None
            }),
            r == self@.step(0),
    {
        self.get_step(0)
    }

    /// The step after the current one.
    pub fn next_step(&self) -> (r: Option<Arc<RouteStep>>)
        ensures
            r == (if self@.steps().len() > 1 {
                Some(self@.steps()[1])
            } else {
                None
            }),
            r == self@.step(1),
    {
        self.get_step(1)
    }

    /// Whether the user is where the route leads, of a trip under way.
    pub fn deviation(&self) -> (r: Option<RouteDeviation>)
        ensures
            r == self@.route_deviation(),
    {
        match self {
            TripState::Navigating(navigation) => Some(navigation.deviation),
            _ => None,
        }
    }
}

/// Off the route is a deviation of the one kind; off the current step is any deviation.
pub proof fn law_deviations_are_told_apart(deviation: RouteDeviation)
    ensures
        match deviation {
            RouteDeviation::NoDeviation => !deviation.is_completely_off_route()
                && !deviation.is_deviated_from_current_step(),
            RouteDeviation::Deviation { kind: DeviationKind::OffStepOnRoute { .. } } => {
                &&& !deviation.is_completely_off_route()
                &&& deviation.is_deviated_from_current_step()
            },
            RouteDeviation::Deviation { kind: DeviationKind::CompletelyOffRoute { .. } } => {
                &&& deviation.is_completely_off_route()
                &&& deviation.is_deviated_from_current_step()
            },
        },
{
}

/// Where the user is: on a trip under way at the position on the route that the latest fix was
/// bound to, and otherwise where the latest fix is. The steps and the deviation are those of a
/// trip under way.
pub proof fn law_a_trip_tells_where_the_user_is(trip: Trip, location: UserLocation)
    ensures
        ({
            let under_way = TripModel::Navigating(trip);
            let is_bound = trip.uzmatch is Some && trip.uzmatch->0.route_position is Some;
            &&& under_way.location() == Some(trip.user_location)
            &&& is_bound ==> under_way.position() == Some(
                trip.uzmatch->0.route_position->0.coordinates,
            )
            &&& !is_bound ==> under_way.position() == Some(trip.user_location.coordinates)
            &&& under_way.steps() == trip.remaining_steps
            &&& under_way.route_deviation() == Some(trip.deviation)
        }),
        ({
            let idle = TripModel::Idle { user_location: Some(location) };
            &&& idle.location() == Some(location)
            &&& idle.position() == Some(location.coordinates)
            &&& idle.steps().len() == 0
            &&& idle.route_deviation() is None
        }),
        ({
            let lost = TripModel::Idle { user_location: None };
            &&& lost.location() is None
            &&& lost.position() is None
        }),
        ({
            let ended = TripModel::Complete { user_location: location, summary: trip.summary };
            &&& ended.location() == Some(location)
            &&& ended.position() == Some(location.coordinates)
            &&& ended.steps().len() == 0
            &&& ended.route_deviation() is None
        }),
{
}

/// The steps that are left are counted from the current one, up to the last.
pub proof fn law_steps_are_counted_from_the_current_one(trip: Trip, index: int)
    requires
        0 <= index,
    ensures
        ({
            let step = TripModel::Navigating(trip).step(index);
            &&& step is Some <==> index < trip.remaining_steps.len()
            &&& step is Some ==> step->0 == trip.remaining_steps[index]
        }),
{
}

/// A trip holds what its fields hold.
pub proof fn law_a_trip_holds_its_fields(navigation: Navigation)
    ensures
        ({
            let trip = navigation@;
            &&& trip.current_step_geometry_index == navigation.current_step_geometry_index
            &&& trip.user_location == navigation.user_location
            &&& trip.snapped_user_location == navigation.snapped_user_location
            &&& trip.remaining_steps == navigation.remaining_steps@
            &&& trip.remaining_waypoints == navigation.remaining_waypoints@
            &&& trip.progress == navigation.progress
            &&& trip.summary == navigation.summary
            &&& trip.deviation == navigation.deviation
            &&& trip.visual_instruction == navigation.visual_instruction
            &&& trip.spoken_instruction == navigation.spoken_instruction
            &&& trip.annotation == navigation.annotation
            &&& trip.uzmatch == navigation.uzmatch
        }),
        TripState::Navigating(navigation)@ == TripModel::Navigating(navigation@),
{
}

} // verus!
