//! What a controller does, told over what its route, its settings and its states hold.
use std::sync::Arc;

use vstd::prelude::*;

use crate::binary64::{number, Binary64, ZERO};
use crate::controller::state::{
    completed, AdvanceFacts, ConfigModel, CourseFiltering, InitialFacts, NavModel, StepFacts,
    StepMeasures, UpdateFacts,
};
use crate::models::{same_line, RouteStep, UserLocation, Waypoint};
use crate::step_advance::conditions::{decision, renewed, ConditionModel};
use crate::step_progress::{IndexedStepPosition, StepExtents};
use crate::time::Timestamp;
use crate::trip::{
    bound_position, DeviationKind, RouteDeviation, Trip, TripModel, TripProgress, TripSummary,
};
use crate::uzmatch::snap::{
    angle_between, direction_ahead, pinned_at_vertex, IndexedSegment, RoutePosition,
};
use crate::uzmatch::{
    asked, initial_state, measured_for, snapshot_of, stepped, ClingState, MatchMeasurements,
    MatchState, UzmatchSnapshot,
};

verus! {

/// What a controller holds.
pub struct Plan {
    /// The steps of the route.
    pub steps: Seq<Arc<RouteStep>>,
    /// The waypoints of the route.
    pub waypoints: Seq<Waypoint>,
    /// The settings.
    pub config: ConfigModel,
    /// The indexed segments of the route, where the matching core runs.
    pub segments: Option<Seq<IndexedSegment>>,
    /// The extents of the steps, where the matching core runs and they are aligned with
    /// the route.
    pub extents: Option<StepExtents>,
}

/// No metres made yet.
pub open spec fn initial_summary(started_at: Timestamp) -> TripSummary {
    TripSummary {
        distance_traveled: number(ZERO),
        snapped_distance_traveled: number(ZERO),
        started_at,
        ended_at: None,
    }
}

/// The waypoints without the first, which is where a trip starts.
pub open spec fn waypoints_ahead(waypoints: Seq<Waypoint>) -> Seq<Waypoint> {
    if waypoints.len() == 0 {
        waypoints
    } else {
        waypoints.subrange(1, waypoints.len() as int)
    }
}

/// Whether the user stands still.
pub open spec fn stands(snapshot: Option<UzmatchSnapshot>) -> bool {
    snapshot is Some && snapshot->0.is_standing
}

/// A trip with a deviation, and the guidance that goes with it: none where no step is
/// left or the user is off the route altogether, and otherwise that of the step.
pub open spec fn guided(trip: Trip, deviation: RouteDeviation, facts: StepFacts) -> Trip {
    let silent = trip.remaining_steps.len() == 0 || deviation.is_completely_off_route();
    Trip {
        deviation,
        visual_instruction: if silent {
            None
        } else {
            facts.visual_instruction
        },
        spoken_instruction: if silent {
            None
        } else {
            facts.spoken_instruction
        },
        ..trip
    }
}

/// Whether the trip is about to end: the last step or the one before it is current.
pub open spec fn is_arriving(steps: Seq<Arc<RouteStep>>) -> bool {
    steps.len() <= 2
}

/// Whether a trip that is under way has a current step.
pub open spec fn has_current_step(trip: TripModel) -> bool {
    trip matches TripModel::Navigating(trip) ==> trip.remaining_steps.len() > 0
}

impl Plan {
    /// The fix, moved to a position on the route.
    pub open spec fn moved_to(self, location: UserLocation, position: RoutePosition) -> UserLocation {
        UserLocation {
            coordinates: position.coordinates,
            course_over_ground: match self.config.course_filtering {
                CourseFiltering::SnapToRoute => position.course_over_ground,
                CourseFiltering::Raw => location.course_over_ground,
            },
            ..location
        }
    }

    /// Where the position that a fix was bound to is within the current step. None where
    /// the remaining steps are not those of the route.
    pub open spec fn indexed(
        self,
        steps: Seq<Arc<RouteStep>>,
        snapshot: Option<UzmatchSnapshot>,
    ) -> Option<IndexedStepPosition> {
        if 0 < steps.len() <= self.steps.len() && same_line(
            self.steps[self.steps.len() - steps.len()].geometry@,
            steps[0].geometry@,
        ) && bound_position(snapshot) is Some && self.extents is Some {
            self.extents->0.located(bound_position(snapshot)->0, steps.len())
        } else {
            None
        }
    }

    /// The segment of the current step that the user is on, the snapped fix, and how
    /// much of the trip is left. A fix that was bound to the route is snapped to that
    /// position, and any other to the line of the step.
    pub open spec fn placed(
        self,
        location: UserLocation,
        steps: Seq<Arc<RouteStep>>,
        snapshot: Option<UzmatchSnapshot>,
        measures: StepMeasures,
    ) -> (Option<u64>, UserLocation, TripProgress) {
        match (bound_position(snapshot), self.indexed(steps, snapshot)) {
            (Some(position), Some(within)) => (
                Some(within.current_step_geometry_index),
                self.moved_to(location, position),
                TripProgress {
                    distance_to_next_maneuver: within.distance_to_next_maneuver,
                    ..measures.progress
                },
            ),
            (Some(position), None) => (
                measures.closest_segment,
                self.moved_to(location, position),
                measures.progress,
            ),
            _ => (
                measures.closest_segment,
                match self.config.course_filtering {
                    CourseFiltering::SnapToRoute => measures.projected_with_course,
                    CourseFiltering::Raw => measures.projected,
                },
                measures.progress,
            ),
        }
    }

    /// The trip at a fix on the first of the remaining steps.
    pub open spec fn at_fix(
        self,
        location: UserLocation,
        steps: Seq<Arc<RouteStep>>,
        waypoints: Seq<Waypoint>,
        summary: TripSummary,
        deviation: RouteDeviation,
        snapshot: Option<UzmatchSnapshot>,
        facts: StepFacts,
    ) -> Trip {
        let (index, snapped, progress) = self.placed(location, steps, snapshot, facts.measures);
        guided(
            Trip {
                current_step_geometry_index: index,
                user_location: location,
                snapped_user_location: snapped,
                remaining_steps: steps,
                remaining_waypoints: waypoints,
                progress,
                summary,
                deviation,
                visual_instruction: None,
                spoken_instruction: None,
                annotation: if index is Some {
                    facts.annotation
                } else {
                    None
                },
                uzmatch: snapshot,
            },
            deviation,
            facts,
        )
    }

    /// The state of a trip under way at a fix; any other is left as it is.
    pub open spec fn intermediate(
        self,
        trip: TripModel,
        location: UserLocation,
        steps: Seq<Arc<RouteStep>>,
        waypoints: Seq<Waypoint>,
        deviation: RouteDeviation,
        snapshot: Option<UzmatchSnapshot>,
        facts: StepFacts,
    ) -> TripModel {
        match trip {
            TripModel::Navigating(_) => TripModel::Navigating(
                self.at_fix(
                    location,
                    steps,
                    waypoints,
                    facts.summary,
                    deviation,
                    snapshot,
                    facts,
                ),
            ),
            _ => trip,
        }
    }

    /// The matching core after a fix, before it is asked.
    pub open spec fn stepped_core(
        self,
        state: MatchState,
        location: UserLocation,
        measurements: MatchMeasurements,
    ) -> MatchState {
        stepped(
            state,
            self.segments->0,
            location,
            self.config.uzmatch,
            measurements.longitude_scale,
            measurements.distances@,
            measurements.transitions.raw_distance(),
            measurements.transitions.table(),
        )
    }

    /// The matching core after a fix, and what it tells of it, where it runs.
    pub open spec fn bound(
        self,
        state: MatchState,
        location: UserLocation,
        measurements: MatchMeasurements,
    ) -> (MatchState, Option<UzmatchSnapshot>) {
        if self.segments is Some {
            let after = self.stepped_core(state, location, measurements);
            (
                asked(after, location.timestamp),
                Some(snapshot_of(after, location.timestamp)),
            )
        } else {
            (state, None)
        }
    }

    /// Whether the measurements for a fix are those that the matching core needs, where
    /// it runs.
    pub open spec fn is_measured(
        self,
        state: MatchState,
        location: UserLocation,
        measurements: MatchMeasurements,
    ) -> bool {
        self.segments is Some ==> measured_for(
            measurements,
            state,
            self.segments->0,
            location,
            self.config.uzmatch,
        )
    }

    /// The state of a navigation at its first fix.
    pub open spec fn initial(self, location: UserLocation, facts: InitialFacts) -> NavModel {
        let summary = initial_summary(facts.started_at);
        if self.steps.len() == 0 {
            completed(location, summary)
        } else {
            let (uzmatch, snapshot) = self.bound(initial_state(), location, facts.measurements);
            NavModel {
                trip: TripModel::Navigating(
                    self.at_fix(
                        location,
                        self.steps,
                        waypoints_ahead(self.waypoints),
                        summary,
                        facts.deviation,
                        snapshot,
                        facts.step,
                    ),
                ),
                condition: self.config.condition,
                uzmatch,
            }
        }
    }

    /// The state after an advance to the next step. On the last step the trip ends; a
    /// trip that is not under way is left as it is.
    pub open spec fn advanced(self, state: NavModel, facts: AdvanceFacts) -> NavModel {
        match state.trip {
            TripModel::Navigating(trip) => if trip.remaining_steps.len() > 1 {
                NavModel {
                    trip: self.intermediate(
                        state.trip,
                        trip.user_location,
                        trip.remaining_steps.subrange(1, trip.remaining_steps.len() as int),
                        facts.waypoints.applied(trip.remaining_waypoints),
                        trip.deviation,
                        trip.uzmatch,
                        facts.step,
                    ),
                    condition: renewed(state.condition),
                    uzmatch: state.uzmatch,
                }
            } else {
                completed(trip.user_location, trip.summary)
            },
            _ => state,
        }
    }

    /// Whether a fix diverges from the route: a fix that is bound to a vertex of the
    /// route, with a credible course, fast enough, whose course is further off the
    /// route's direction ahead than is tolerated.
    pub open spec fn diverges(
        self,
        position: Option<RoutePosition>,
        location: UserLocation,
    ) -> bool {
        let config = self.config.uzmatch;
        let tolerance = config.heading_departure_tolerance_deg;
        position is Some && self.segments is Some && {
            let course = location.course_over_ground->0;
            let speed = location.speed->0.value;
            let ahead = direction_ahead(self.segments->0, position->0);
            &&& location.course_over_ground is Some
            &&& course.accuracy is Some ==> !tolerance.less(
                Binary64::from_integer(course.accuracy->0 as u128),
            )
            &&& location.speed is Some
            &&& !speed.is_nan()
            &&& !speed.less(config.heading_departure_min_speed_mps)
            &&& pinned_at_vertex(self.segments->0, position->0)
            &&& ahead is Some
            &&& tolerance.less(
                angle_between(Binary64::from_integer(course.degrees as u128), ahead->0),
            )
        }
    }

    /// The number of diverging fixes in a row after a fix; it stops at the number that
    /// counts as leaving the route.
    pub open spec fn streak(
        self,
        streak: u8,
        position: Option<RoutePosition>,
        location: UserLocation,
    ) -> u8 {
        let config = self.config.uzmatch;
        let confirmations = config.heading_departure_confirmations;
        if !config.heading_departure_enabled || !self.diverges(position, location) {
            0
        } else if streak >= confirmations {
            if confirmations == 0 {
                1
            } else {
                confirmations
            }
        } else {
            (streak + 1) as u8
        }
    }

    /// Whether a fix confirms that the user has left the route by its course.
    pub open spec fn departs(
        self,
        streak: u8,
        position: Option<RoutePosition>,
        location: UserLocation,
    ) -> bool {
        let config = self.config.uzmatch;
        config.heading_departure_enabled && self.diverges(position, location) && self.streak(
            streak,
            position,
            location,
        ) >= config.heading_departure_confirmations
    }

    /// The deviation that is told, and the matching core after that.
    ///
    /// Where the matching core does not run, that of the host. A confirmed departure is
    /// told at once. Otherwise the user counts as off the route only far enough from the
    /// last position that was accepted as on it, and any other deviation accepts the
    /// position of the fix.
    pub open spec fn stabilized(
        self,
        state: MatchState,
        ran: bool,
        position: Option<RoutePosition>,
        location: UserLocation,
        deviation: RouteDeviation,
        distance_from_match: Binary64,
        distance_from_anchor: Binary64,
    ) -> (RouteDeviation, MatchState) {
        let config = self.config.uzmatch;
        let after = MatchState {
            heading_departure_streak: self.streak(
                state.heading_departure_streak,
                position,
                location,
            ),
            ..state
        };
        if !ran {
            (deviation, state)
        } else if self.departs(state.heading_departure_streak, position, location) {
            (
                if deviation.is_completely_off_route() {
                    deviation
                } else {
                    RouteDeviation::Deviation {
                        kind: DeviationKind::CompletelyOffRoute {
                            deviation_from_route_line: distance_from_match,
                        },
                    }
                },
                after,
            )
        } else if deviation.is_completely_off_route() {
            (
                if state.cling.held(location, config, distance_from_anchor) {
                    RouteDeviation::NoDeviation
                } else {
                    deviation
                },
                MatchState {
                    cling: state.cling.after_loss(location, config, distance_from_anchor),
                    ..after
                },
            )
        } else {
            (
                deviation,
                MatchState {
                    cling: ClingState {
                        anchor: Some(
                            match position {
                                Some(position) => position.coordinates,
                                None => location.coordinates,
                            },
                        ),
                        anchored_at: Some(location.timestamp),
                    },
                    ..after
                },
            )
        }
    }

    /// The trip under way and the matching core at a fix, before an advance. While the
    /// user stands still, the deviation stays as it was.
    pub open spec fn seen(
        self,
        trip: Trip,
        uzmatch: MatchState,
        location: UserLocation,
        facts: UpdateFacts,
    ) -> (Trip, MatchState) {
        let (core, snapshot) = self.bound(uzmatch, location, facts.measurements);
        let before = self.at_fix(
            location,
            trip.remaining_steps,
            facts.waypoints.applied(trip.remaining_waypoints),
            facts.step.summary,
            trip.deviation,
            snapshot,
            facts.step,
        );
        if stands(snapshot) {
            (before, core)
        } else {
            let (deviation, after) = self.stabilized(
                core,
                snapshot is Some,
                bound_position(snapshot),
                location,
                facts.deviation,
                facts.distance_from_match,
                facts.distance_from_anchor,
            );
            (guided(before, deviation, facts.step), after)
        }
    }

    /// The condition that decides at a fix on the first of the remaining steps.
    pub open spec fn deciding(
        self,
        condition: ConditionModel,
        steps: Seq<Arc<RouteStep>>,
    ) -> ConditionModel {
        if is_arriving(steps) {
            self.config.arrival_condition
        } else {
            condition
        }
    }

    /// Whether a condition decides at all: not while the user stands still, other than
    /// at the end of the trip.
    pub open spec fn decides(self, trip: Trip) -> bool {
        !stands(trip.uzmatch) || is_arriving(trip.remaining_steps)
    }

    /// Whether to advance at a fix, and the condition after that.
    pub open spec fn judged(
        self,
        condition: ConditionModel,
        trip: Trip,
        facts: UpdateFacts,
    ) -> (bool, ConditionModel) {
        if self.decides(trip) {
            decision(
                self.deciding(condition, trip.remaining_steps),
                TripModel::Navigating(trip),
                facts.evidence.model(),
            )
        } else {
            (false, condition)
        }
    }

    /// The state after a fix, and whether the same fix must be given again because the
    /// trip has advanced to a step that it may have passed too. A trip that is not under
    /// way is left as it is.
    pub open spec fn updated(
        self,
        state: NavModel,
        location: UserLocation,
        facts: UpdateFacts,
    ) -> (NavModel, bool) {
        match state.trip {
            TripModel::Navigating(trip) => {
                let (seen, uzmatch) = self.seen(trip, state.uzmatch, location, facts);
                let (advances, condition) = self.judged(state.condition, seen, facts);
                let after = NavModel { trip: TripModel::Navigating(seen), condition, uzmatch };
                if advances {
                    (self.advanced(after, facts.advance), !is_arriving(trip.remaining_steps))
                } else {
                    (after, false)
                }
            },
            _ => (state, false),
        }
    }
}

} // verus!
