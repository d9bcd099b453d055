//! The conditions under which a step is done.
use std::sync::Arc;

use vstd::prelude::*;

use crate::binary64::{number, Binary64, FULL_TURN, HALF_TURN, NOT_A_NUMBER, TWO, ZERO};
use crate::models::{GeographicCoordinate, ManeuverModifier, RouteStep, UserLocation};
use crate::time::{Span, Timestamp};
use crate::trip::{TripModel, TripState};

verus! {

/// 540.0
pub const TURN_AND_A_HALF: u64 = 0x4080_e000_0000_0000;

/// -90.0
pub const SOUTH_POLE: u64 = 0xc056_8000_0000_0000;

/// 90.0
pub const NORTH_POLE: u64 = 0x4056_8000_0000_0000;

/// -180.0
pub const WEST_END: u64 = 0xc066_8000_0000_0000;

/// The way between two positions on the globe.
#[derive(Clone, Copy, PartialEq, Eq, Structural, Debug)]
pub struct Leg {
    /// Its length in metres.
    pub distance_metres: Binary64,
    /// Its bearing at the start in degrees, of either sign.
    pub bearing_degrees: Binary64,
}

/// What is measured of a movement and of the steps that it may belong to.
#[derive(Debug)]
pub struct Movement {
    /// The way from the anchor to the fix.
    pub movement: Leg,
    /// The segments of the current step, in order.
    pub current_step: Vec<Leg>,
    /// The segments of the next step, in order.
    pub next_step: Vec<Leg>,
}

/// What a measured movement holds.
pub struct MovementModel {
    /// The way from the anchor to the fix.
    pub movement: Leg,
    /// The segments of the current step, in order.
    pub current_step: Seq<Leg>,
    /// The segments of the next step, in order.
    pub next_step: Seq<Leg>,
}

/// What a condition needs to know of the globe.
#[derive(Debug)]
pub enum Inquiry {
    /// Nothing.
    Nothing,
    /// Whether a position is within so many metres of the end of the current step.
    WithinEndOfStep {
        /// The position.
        position: GeographicCoordinate,
        /// The metres.
        threshold: u16,
    },
    /// How far a position is from the line of the current step.
    DeviationFromStep {
        /// The position.
        position: GeographicCoordinate,
    },
    /// How far from the line of the current step a position is when it is snapped to a
    /// longer line.
    SnappedDeviation {
        /// The position.
        position: GeographicCoordinate,
        /// The longer line.
        line: Vec<GeographicCoordinate>,
    },
    /// The way between two fixes, and the segments of the current and of the next
    /// step.
    Movement {
        /// The earlier fix.
        from: UserLocation,
        /// The later fix.
        to: UserLocation,
    },
    /// Several things, one for each part of a condition.
    Several(Vec<Inquiry>),
}

/// What an inquiry holds.
pub enum InquiryModel {
    /// Nothing.
    Nothing,
    /// Whether a position is within so many metres of the end of the current step.
    WithinEndOfStep {
        /// The position.
        position: GeographicCoordinate,
        /// The metres.
        threshold: u16,
    },
    /// How far a position is from the line of the current step.
    DeviationFromStep {
        /// The position.
        position: GeographicCoordinate,
    },
    /// How far from the line of the current step a position is when it is snapped to a
    /// longer line.
    SnappedDeviation {
        /// The position.
        position: GeographicCoordinate,
        /// The longer line.
        line: Seq<GeographicCoordinate>,
    },
    /// The way between two fixes, and the segments of the current and of the next
    /// step.
    Movement {
        /// The earlier fix.
        from: UserLocation,
        /// The later fix.
        to: UserLocation,
    },
    /// Several things, one for each part of a condition.
    Several(Seq<InquiryModel>),
}

impl Inquiry {
    /// What the inquiry holds.
    pub open spec fn model(self) -> InquiryModel
        decreases self,
    {
        match self {
            Inquiry::Nothing => InquiryModel::Nothing,
            Inquiry::WithinEndOfStep { position, threshold } => InquiryModel::WithinEndOfStep {
                position,
                threshold,
            },
            Inquiry::DeviationFromStep { position } => InquiryModel::DeviationFromStep { position },
            Inquiry::SnappedDeviation { position, line } => InquiryModel::SnappedDeviation {
                position,
                line: line@,
            },
            Inquiry::Movement { from, to } => InquiryModel::Movement { from, to },
            Inquiry::Several(parts) => InquiryModel::Several(
                Seq::new(
                    parts@.len(),
                    |i: int|
                        if 0 <= i < parts@.len() {
                            parts@[i].model()
                        } else {
                            InquiryModel::Nothing
                        },
                ),
            ),
        }
    }
}

/// What was measured for an inquiry.
#[derive(Debug)]
pub enum Evidence {
    /// Nothing.
    Nothing,
    /// Whether the fix is close enough.
    Within(bool),
    /// A distance in metres, where there is one.
    Deviation(Option<Binary64>),
    /// A movement and two steps.
    Movement(Movement),
    /// Several things, one for each part of a condition.
    Several(Vec<Evidence>),
}

/// What evidence holds.
pub enum EvidenceModel {
    /// Nothing.
    Nothing,
    /// Whether the fix is close enough.
    Within(bool),
    /// A distance in metres, where there is one.
    Deviation(Option<Binary64>),
    /// A movement and two steps.
    Movement(MovementModel),
    /// Several things, one for each part of a condition.
    Several(Seq<EvidenceModel>),
}

impl Evidence {
    /// What the evidence holds.
    pub open spec fn model(self) -> EvidenceModel
        decreases self,
    {
        match self {
            Evidence::Nothing => EvidenceModel::Nothing,
            Evidence::Within(close) => EvidenceModel::Within(close),
            Evidence::Deviation(distance) => EvidenceModel::Deviation(distance),
            Evidence::Movement(movement) => EvidenceModel::Movement(
                MovementModel {
                    movement: movement.movement,
                    current_step: movement.current_step@,
                    next_step: movement.next_step@,
                },
            ),
            Evidence::Several(parts) => EvidenceModel::Several(
                Seq::new(
                    parts@.len(),
                    |i: int|
                        if 0 <= i < parts@.len() {
                            parts@[i].model()
                        } else {
                            EvidenceModel::Nothing
                        },
                ),
            ),
        }
    }
}

impl EvidenceModel {
    /// The evidence for part `i` of a condition.
    pub open spec fn part(self, i: int) -> EvidenceModel {
        match self {
            EvidenceModel::Several(parts) => if 0 <= i < parts.len() {
                parts[i]
            } else {
                EvidenceModel::Nothing
            },
            _ => EvidenceModel::Nothing,
        }
    }

    /// The measured distance, where there is one.
    pub open spec fn distance(self) -> Option<Binary64> {
        match self {
            EvidenceModel::Deviation(distance) => distance,
            _ => None,
        }
    }

    /// The measured movement; without one, nothing of it is known.
    pub open spec fn movement(self) -> MovementModel {
        match self {
            EvidenceModel::Movement(movement) => movement,
            _ => MovementModel {
                movement: Leg {
                    distance_metres: number(NOT_A_NUMBER),
                    bearing_degrees: number(NOT_A_NUMBER),
                },
                current_step: Seq::empty(),
                next_step: Seq::empty(),
            },
        }
    }
}

/// Never advances by itself: the caller advances.
#[derive(Clone, Copy, PartialEq, Eq, Structural, Debug)]
pub struct ManualStepCondition;

/// Advances when the user is close enough to the end of the step.
#[derive(Clone, Copy, PartialEq, Eq, Structural, Debug)]
pub struct DistanceToEndOfStepCondition {
    /// The metres to the end of the step at which to advance.
    pub distance: u16,
    /// A fix with a larger accuracy, in metres, never advances.
    pub minimum_horizontal_accuracy: u16,
}

/// When a condition may decide, given whether the user is where the route leads.
#[derive(Clone, Copy, PartialEq, Eq, Structural, Debug)]
pub enum DeviationCalculationPolicy {
    /// Always.
    Always,
    /// While the user is somewhere on the route.
    WhileOnRoute,
    /// While the user is on the current step.
    WhileOnCurrentStep,
}

/// Advances once the user is at least `distance` metres from the line of the step.
#[derive(Clone, Copy, PartialEq, Eq, Structural, Debug)]
pub struct DistanceFromStepCondition {
    /// The least metres from the line of the step at which to advance.
    pub distance: u16,
    /// A fix with a larger accuracy, in metres, never advances.
    pub minimum_horizontal_accuracy: u16,
    /// When the condition may decide.
    pub calculation_policy: DeviationCalculationPolicy,
}

/// Advances when the user has reached the end of the step and then left it.
#[derive(Clone, Copy, PartialEq, Eq, Structural, Debug)]
pub struct DistanceEntryAndExitCondition {
    /// Within these metres the end of the step is reached.
    pub distance_to_end_of_step: u16,
    /// At least these metres from the line of the step the end is left.
    pub distance_after_end_of_step: u16,
    /// A fix with a larger accuracy, in metres, never counts.
    pub minimum_horizontal_accuracy: u16,
    /// Whether the end of the step has been reached.
    pub has_reached_end_of_current_step: bool,
}

/// Advances when the user has reached the end of the step and then, snapped to the
/// line of this and the following steps, left it.
#[derive(Clone, Copy, PartialEq, Eq, Structural, Debug)]
pub struct DistanceEntryAndSnappedExitCondition {
    /// Within these metres the end of the step is reached.
    pub distance_to_end_of_step: u16,
    /// At least these metres from the line of the step the end is left.
    pub distance_after_end_of_step: u16,
    /// A fix with a larger accuracy, in metres, never counts.
    pub minimum_horizontal_accuracy: u16,
    /// Whether the end of the step has been reached.
    pub has_reached_end_of_current_step: bool,
}

/// Advances when any of several conditions does.
#[derive(Debug)]
pub struct OrAdvanceConditions {
    /// The conditions.
    pub conditions: Vec<Arc<StepCondition>>,
}

/// Advances when all of several conditions do.
#[derive(Debug)]
pub struct AndAdvanceConditions {
    /// The conditions.
    pub conditions: Vec<Arc<StepCondition>>,
}

/// Advances like `DistanceEntryAndExitCondition`, but at a U-turn waits until the
/// movement of the user agrees with the next step.
#[derive(Debug)]
pub struct DistanceEntryAndExitWithUTurnConfirmationCondition {
    /// Within these metres the end of the step is reached.
    pub distance_to_end_of_step: u16,
    /// At least these metres from the line of the step the end is left.
    pub distance_after_end_of_step: u16,
    /// A fix with a larger accuracy, in metres, never counts.
    pub minimum_horizontal_accuracy: u16,
    /// A movement of fewer metres is not judged.
    pub minimum_significant_movement: u16,
    /// A faster movement, in metres per second, is not believed.
    pub maximum_plausible_speed: u16,
    /// The metres that a movement may be longer than that.
    pub plausibility_distance_allowance: u16,
    /// The number of movements that must agree with the next step; with none, the
    /// condition never advances.
    pub required_confirmations: u8,
    /// Whether U-turns are confirmed.
    pub uturn_confirmation_enabled: bool,
    /// Whether the candidate was chosen for a U-turn.
    pub candidate_is_uturn: Option<bool>,
    /// The condition that is being watched.
    pub candidate_successor: Option<Arc<StepCondition>>,
    /// Whether the movement is being watched.
    pub confirmation_active: bool,
    /// The fix from which the movement is judged.
    pub movement_anchor: Option<UserLocation>,
    /// The number of movements that have agreed.
    pub confirmation_count: u8,
    /// The last fix that was evaluated.
    pub last_evaluated_timestamp: Option<Timestamp>,
}

/// A condition under which a step is done.
#[derive(Debug)]
pub enum StepCondition {
    /// See `ManualStepCondition`.
    Manual(ManualStepCondition),
    /// See `DistanceToEndOfStepCondition`.
    DistanceToEndOfStep(DistanceToEndOfStepCondition),
    /// See `DistanceFromStepCondition`.
    DistanceFromStep(DistanceFromStepCondition),
    /// See `OrAdvanceConditions`.
    Or(OrAdvanceConditions),
    /// See `AndAdvanceConditions`.
    And(AndAdvanceConditions),
    /// See `DistanceEntryAndExitCondition`.
    EntryAndExit(DistanceEntryAndExitCondition),
    /// See `DistanceEntryAndSnappedExitCondition`.
    EntryAndSnappedExit(DistanceEntryAndSnappedExitCondition),
    /// See `DistanceEntryAndExitWithUTurnConfirmationCondition`.
    UTurnConfirmation(DistanceEntryAndExitWithUTurnConfirmationCondition),
}

/// What a condition with U-turn confirmation holds.
pub struct ConfirmationModel {
    /// Within these metres the end of the step is reached.
    pub distance_to_end_of_step: u16,
    /// At least these metres from the line of the step the end is left.
    pub distance_after_end_of_step: u16,
    /// A fix with a larger accuracy, in metres, never counts.
    pub minimum_horizontal_accuracy: u16,
    /// A movement of fewer metres is not judged.
    pub minimum_significant_movement: u16,
    /// A faster movement, in metres per second, is not believed.
    pub maximum_plausible_speed: u16,
    /// The metres that a movement may be longer than that.
    pub plausibility_distance_allowance: u16,
    /// The number of movements that must agree with the next step.
    pub required_confirmations: u8,
    /// Whether U-turns are confirmed.
    pub uturn_confirmation_enabled: bool,
    /// Whether the candidate was chosen for a U-turn.
    pub candidate_is_uturn: Option<bool>,
    /// The condition that is being watched.
    pub candidate_successor: Option<Box<ConditionModel>>,
    /// Whether the movement is being watched.
    pub confirmation_active: bool,
    /// The fix from which the movement is judged.
    pub movement_anchor: Option<UserLocation>,
    /// The number of movements that have agreed.
    pub confirmation_count: u8,
    /// The last fix that was evaluated.
    pub last_evaluated_timestamp: Option<Timestamp>,
}

/// What a condition holds.
pub enum ConditionModel {
    /// See `ManualStepCondition`.
    Manual,
    /// See `DistanceToEndOfStepCondition`.
    DistanceToEndOfStep(DistanceToEndOfStepCondition),
    /// See `DistanceFromStepCondition`.
    DistanceFromStep(DistanceFromStepCondition),
    /// See `OrAdvanceConditions`.
    Or(Seq<ConditionModel>),
    /// See `AndAdvanceConditions`.
    And(Seq<ConditionModel>),
    /// See `DistanceEntryAndExitCondition`.
    EntryAndExit(DistanceEntryAndExitCondition),
    /// See `DistanceEntryAndSnappedExitCondition`.
    EntryAndSnappedExit(DistanceEntryAndSnappedExitCondition),
    /// See `DistanceEntryAndExitWithUTurnConfirmationCondition`.
    UTurnConfirmation(ConfirmationModel),
}

/// What a list of conditions holds.
pub open spec fn models(conditions: Seq<Arc<StepCondition>>) -> Seq<ConditionModel>
    decreases conditions,
{
    Seq::new(
        conditions.len(),
        |i: int|
            if 0 <= i < conditions.len() {
                conditions[i].model()
            } else {
                ConditionModel::Manual
            },
    )
}

impl StepCondition {
    /// What the condition holds.
    pub open spec fn model(&self) -> ConditionModel
        decreases self,
    {
        match self {
            StepCondition::Manual(_) => ConditionModel::Manual,
            StepCondition::DistanceToEndOfStep(condition) => ConditionModel::DistanceToEndOfStep(
                *condition,
            ),
            StepCondition::DistanceFromStep(condition) => ConditionModel::DistanceFromStep(
                *condition,
            ),
            StepCondition::Or(either) => ConditionModel::Or(models(either.conditions@)),
            StepCondition::And(all) => ConditionModel::And(models(all.conditions@)),
            StepCondition::EntryAndExit(condition) => ConditionModel::EntryAndExit(*condition),
            StepCondition::EntryAndSnappedExit(condition) => ConditionModel::EntryAndSnappedExit(
                *condition,
            ),
            StepCondition::UTurnConfirmation(condition) => ConditionModel::UTurnConfirmation(
                condition.model(),
            ),
        }
    }
}

impl DistanceEntryAndExitWithUTurnConfirmationCondition {
    /// What the condition holds.
    pub open spec fn model(&self) -> ConfirmationModel
        decreases self,
    {
        ConfirmationModel {
            distance_to_end_of_step: self.distance_to_end_of_step,
            distance_after_end_of_step: self.distance_after_end_of_step,
            minimum_horizontal_accuracy: self.minimum_horizontal_accuracy,
            minimum_significant_movement: self.minimum_significant_movement,
            maximum_plausible_speed: self.maximum_plausible_speed,
            plausibility_distance_allowance: self.plausibility_distance_allowance,
            required_confirmations: self.required_confirmations,
            uturn_confirmation_enabled: self.uturn_confirmation_enabled,
            candidate_is_uturn: self.candidate_is_uturn,
            candidate_successor: match self.candidate_successor {
                Some(candidate) => Some(Box::new(candidate.model())),
                None => None,
            },
            confirmation_active: self.confirmation_active,
            movement_anchor: self.movement_anchor,
            confirmation_count: self.confirmation_count,
            last_evaluated_timestamp: self.last_evaluated_timestamp,
        }
    }
}

/// Whether a fix is less accurate than so many metres.
pub open spec fn too_inaccurate(location: UserLocation, minimum: u16) -> bool {
    Binary64::from_integer(minimum as u128).less(location.horizontal_accuracy)
}

impl DistanceToEndOfStepCondition {
    /// Whether the condition can decide.
    pub open spec fn applies(self, trip: TripModel) -> bool {
        trip.location() is Some && trip.steps().len() > 0 && !too_inaccurate(
            trip.location()->0,
            self.minimum_horizontal_accuracy,
        )
    }

    /// What the condition needs to know.
    pub open spec fn asks(self, trip: TripModel) -> InquiryModel {
        if self.applies(trip) {
            InquiryModel::WithinEndOfStep {
                position: trip.position()->0,
                threshold: self.distance,
            }
        } else {
            InquiryModel::Nothing
        }
    }

    /// Whether the condition is met.
    pub open spec fn met(self, trip: TripModel, evidence: EvidenceModel) -> bool {
        self.applies(trip) && (evidence matches EvidenceModel::Within(close) && close)
    }
}

impl DistanceFromStepCondition {
    /// Whether the condition can decide.
    pub open spec fn applies(self, trip: TripModel) -> bool {
        &&& trip.route_deviation() is Some
        &&& trip.location() is Some
        &&& trip.steps().len() > 0
        &&& match self.calculation_policy {
            DeviationCalculationPolicy::Always => true,
            DeviationCalculationPolicy::WhileOnRoute => !(
            trip.route_deviation()->0).is_completely_off_route(),
            DeviationCalculationPolicy::WhileOnCurrentStep => !(
            trip.route_deviation()->0).is_deviated_from_current_step(),
        }
        &&& !too_inaccurate(trip.location()->0, self.minimum_horizontal_accuracy)
    }

    /// What the condition needs to know.
    pub open spec fn asks(self, trip: TripModel) -> InquiryModel {
        if self.applies(trip) {
            InquiryModel::DeviationFromStep { position: trip.position()->0 }
        } else {
            InquiryModel::Nothing
        }
    }

    /// Whether the condition is met.
    pub open spec fn met(self, trip: TripModel, evidence: EvidenceModel) -> bool {
        self.applies(trip) && evidence.distance() is Some && Binary64::from_integer(
            self.distance as u128,
        ).at_most(evidence.distance()->0)
    }
}

impl DistanceEntryAndExitCondition {
    /// The condition that tells whether the end of the step is reached.
    pub open spec fn entry(self) -> DistanceToEndOfStepCondition {
        DistanceToEndOfStepCondition {
            distance: self.distance_to_end_of_step,
            minimum_horizontal_accuracy: self.minimum_horizontal_accuracy,
        }
    }

    /// The condition that tells whether the end of the step is left.
    pub open spec fn exit(self) -> DistanceFromStepCondition {
        DistanceFromStepCondition {
            distance: self.distance_after_end_of_step,
            minimum_horizontal_accuracy: self.minimum_horizontal_accuracy,
            calculation_policy: DeviationCalculationPolicy::WhileOnRoute,
        }
    }

    /// The condition with the end of the step reached or not.
    pub open spec fn reached(self, has_reached_end_of_current_step: bool) -> Self {
        DistanceEntryAndExitCondition { has_reached_end_of_current_step, ..self }
    }

    /// What the condition needs to know.
    pub open spec fn asks(self, trip: TripModel) -> InquiryModel {
        if self.has_reached_end_of_current_step {
            self.exit().asks(trip)
        } else {
            self.entry().asks(trip)
        }
    }

    /// Whether to advance, and the condition after that.
    pub open spec fn decided(self, trip: TripModel, evidence: EvidenceModel) -> (bool, Self) {
        if self.has_reached_end_of_current_step {
            if self.exit().met(trip, evidence) {
                (true, self.reached(false))
            } else {
                (false, self.reached(true))
            }
        } else {
            (false, self.reached(self.entry().met(trip, evidence)))
        }
    }
}

/// The number of the last step of a line that is long enough to leave the first
/// step on it, and the metres of it after the first: steps are added while those
/// metres fall short of a target.
pub open spec fn reach_of(
    steps: Seq<Arc<RouteStep>>,
    target: Binary64,
    last: nat,
    length: Binary64,
) -> (nat, Binary64)
    decreases steps.len() - last,
{
    if length.less(target) && last + 1 < steps.len() {
        reach_of(steps, target, last + 1, length.plus(steps[(last + 1) as int].distance))
    } else {
        (last, length)
    }
}

/// The lines of the first `n` steps, one after the other.
pub open spec fn joined_line(steps: Seq<Arc<RouteStep>>, n: nat) -> Seq<GeographicCoordinate>
    decreases n,
{
    if n == 0 {
        Seq::empty()
    } else {
        joined_line(steps, (n - 1) as nat) + steps[n - 1].geometry@
    }
}

impl DistanceEntryAndSnappedExitCondition {
    /// The condition that tells whether the end of the step is reached.
    pub open spec fn entry(self) -> DistanceToEndOfStepCondition {
        DistanceToEndOfStepCondition {
            distance: self.distance_to_end_of_step,
            minimum_horizontal_accuracy: self.minimum_horizontal_accuracy,
        }
    }

    /// The condition with the end of the step reached or not.
    pub open spec fn reached(self, has_reached_end_of_current_step: bool) -> Self {
        DistanceEntryAndSnappedExitCondition { has_reached_end_of_current_step, ..self }
    }

    /// How far the line reaches on which the end of the step is left: to twice the
    /// metres that it takes, as far as there are steps.
    pub open spec fn reach(self, trip: TripModel) -> (nat, Binary64) {
        reach_of(
            trip.steps(),
            Binary64::from_integer(self.distance_after_end_of_step as u128).times(number(TWO)),
            1,
            trip.steps()[1].distance,
        )
    }

    /// Whether a fix can tell that the end of the step is left.
    pub open spec fn exit_applies(self, trip: TripModel) -> bool {
        trip.location() is Some && trip.steps().len() > 0 && !too_inaccurate(
            trip.location()->0,
            self.minimum_horizontal_accuracy,
        )
    }

    /// Whether the end of the step is left: without a next step at once, and
    /// otherwise when the snapped fix is far enough from the line of the step.
    pub open spec fn exits(self, trip: TripModel, evidence: EvidenceModel) -> bool {
        self.exit_applies(trip) && (trip.steps().len() == 1 || {
            let deviation = match evidence.distance() {
                Some(distance) => distance,
                None => number(ZERO),
            };
            Binary64::from_integer(self.distance_after_end_of_step as u128).min(
                self.reach(trip).1,
            ).at_most(deviation)
        })
    }

    /// What the condition needs to know.
    pub open spec fn asks(self, trip: TripModel) -> InquiryModel {
        if !self.has_reached_end_of_current_step {
            self.entry().asks(trip)
        } else if self.exit_applies(trip) && trip.steps().len() > 1 {
            InquiryModel::SnappedDeviation {
                position: trip.position()->0,
                line: joined_line(trip.steps(), self.reach(trip).0 + 1),
            }
        } else {
            InquiryModel::Nothing
        }
    }

    /// Whether to advance, and the condition after that. An end that is not left
    /// when it is asked for must be reached again.
    pub open spec fn decided(self, trip: TripModel, evidence: EvidenceModel) -> (bool, Self) {
        if self.has_reached_end_of_current_step {
            (self.exits(trip, evidence), self.reached(false))
        } else {
            (false, self.reached(self.entry().met(trip, evidence)))
        }
    }
}

/// Whether a position is one on the globe.
pub open spec fn on_globe(coordinate: GeographicCoordinate) -> bool {
    &&& coordinate.lat.is_finite()
    &&& number(SOUTH_POLE).at_most(coordinate.lat)
    &&& coordinate.lat.at_most(number(NORTH_POLE))
    &&& coordinate.lng.is_finite()
    &&& number(WEST_END).at_most(coordinate.lng)
    &&& coordinate.lng.at_most(number(HALF_TURN))
}

/// Whether segment `i` of a line has a direction: both ends on the globe and a
/// length between them.
pub open spec fn has_direction(line: Seq<GeographicCoordinate>, legs: Seq<Leg>, i: int) -> bool {
    0 <= i < legs.len() && i + 1 < line.len() && on_globe(line[i]) && on_globe(line[i + 1])
        && legs[i].distance_metres.is_finite() && number(ZERO).less(legs[i].distance_metres)
}

/// The last of the first `n` segments of a line that has a direction.
pub open spec fn last_direction(
    line: Seq<GeographicCoordinate>,
    legs: Seq<Leg>,
    n: nat,
) -> Option<Leg>
    decreases n,
{
    if n == 0 {
        None
    } else if has_direction(line, legs, n - 1) {
        Some(legs[n - 1])
    } else {
        last_direction(line, legs, (n - 1) as nat)
    }
}

/// The first segment of a line from a number on that has a direction.
pub open spec fn first_direction(
    line: Seq<GeographicCoordinate>,
    legs: Seq<Leg>,
    from: nat,
) -> Option<Leg>
    decreases legs.len() - from,
{
    if from >= legs.len() {
        None
    } else if has_direction(line, legs, from as int) {
        Some(legs[from as int])
    } else {
        first_direction(line, legs, from + 1)
    }
}

/// The bearing of a way from zero up to a full turn, where it has one.
pub open spec fn turned_bearing(leg: Leg) -> Option<Binary64> {
    if leg.bearing_degrees.is_finite() {
        Some(leg.bearing_degrees.plus(number(FULL_TURN)).remainder(number(FULL_TURN)))
    } else {
        None
    }
}

/// The angle between two bearings.
pub open spec fn angle(a: Binary64, b: Binary64) -> Binary64 {
    a.minus(b).plus(number(TURN_AND_A_HALF)).remainder(number(FULL_TURN)).minus(
        number(HALF_TURN),
    ).absolute()
}

/// Whether the shown instruction announces a U-turn.
pub open spec fn announces_uturn(trip: TripModel) -> bool {
    trip matches TripModel::Navigating(trip) && trip.visual_instruction is Some
        && trip.visual_instruction->0.maneuver_modifier == Some(ManeuverModifier::UTurn)
}

/// How a movement compares with the steps that it may belong to.
pub enum Comparison {
    /// The movement cannot be judged.
    Unknown,
    /// The movement is too short to be judged.
    TooShort,
    /// It agrees better with the next step.
    NextStep,
    /// It agrees better with the current step.
    CurrentStep,
    /// It agrees with both alike.
    Neither,
}

impl ConfirmationModel {
    /// The condition without what it has seen but for the last fix.
    pub open spec fn fresh(self) -> Self {
        ConfirmationModel {
            candidate_is_uturn: None,
            candidate_successor: None,
            confirmation_active: false,
            movement_anchor: None,
            confirmation_count: 0,
            ..self
        }
    }

    /// The condition without a movement.
    pub open spec fn without_movement(self) -> Self {
        ConfirmationModel { movement_anchor: None, confirmation_count: 0, ..self }
    }

    /// Whether a fix is good enough to judge a movement by.
    pub open spec fn accepts(self, location: UserLocation) -> bool {
        on_globe(location.coordinates) && location.horizontal_accuracy.is_finite() && number(
            ZERO,
        ).at_most(location.horizontal_accuracy) && location.horizontal_accuracy.at_most(
            Binary64::from_integer(self.minimum_horizontal_accuracy as u128),
        )
    }

    /// The condition that is watched first outside a U-turn.
    pub open spec fn ordinary(self) -> DistanceEntryAndExitCondition {
        DistanceEntryAndExitCondition {
            distance_to_end_of_step: self.distance_to_end_of_step,
            distance_after_end_of_step: self.distance_after_end_of_step,
            minimum_horizontal_accuracy: self.minimum_horizontal_accuracy,
            has_reached_end_of_current_step: false,
        }
    }

    /// The condition that is watched first at a U-turn.
    pub open spec fn snapped(self) -> DistanceEntryAndSnappedExitCondition {
        DistanceEntryAndSnappedExitCondition {
            distance_to_end_of_step: self.distance_to_end_of_step,
            distance_after_end_of_step: self.distance_after_end_of_step,
            minimum_horizontal_accuracy: self.minimum_horizontal_accuracy,
            has_reached_end_of_current_step: false,
        }
    }

    /// Whether the watched condition goes on being watched.
    pub open spec fn keeps_candidate(self, uturn: bool) -> bool {
        self.candidate_successor is Some && self.candidate_is_uturn == Some(uturn)
    }

    /// Whether a fix at an instant has been evaluated before.
    pub open spec fn has_seen(self, trip: TripModel) -> bool {
        trip.location() is Some && self.last_evaluated_timestamp is Some
            && trip.location()->0.timestamp.instant()
            == self.last_evaluated_timestamp->0.instant()
    }

    /// The condition with the fix of a trip as the last evaluated one.
    pub open spec fn seeing(self, trip: TripModel) -> Self {
        ConfirmationModel {
            last_evaluated_timestamp: match trip.location() {
                Some(location) => Some(location.timestamp),
                None => None,
            },
            ..self
        }
    }

    /// Whether the condition decides in this fix at all.
    pub open spec fn evaluates(self, trip: TripModel) -> bool {
        !self.has_seen(trip) && self.required_confirmations > 0
    }

    /// Whether the trip counts as at a U-turn.
    pub open spec fn at_uturn(self, trip: TripModel) -> bool {
        self.uturn_confirmation_enabled && announces_uturn(trip)
    }

    /// Whether a movement can be judged: both fixes accepted, the later one after
    /// the anchor.
    pub open spec fn judges(self, trip: TripModel) -> bool {
        trip.location() is Some && self.movement_anchor is Some && self.accepts(
            self.movement_anchor->0,
        ) && self.accepts(trip.location()->0) && self.movement_anchor->0.timestamp.before(
            trip.location()->0.timestamp,
        )
    }

    /// The longest movement that is believed, in metres.
    pub open spec fn longest_plausible(self, trip: TripModel) -> Binary64 {
        let elapsed = Span {
            nanos: (trip.location()->0.timestamp.instant()
                - self.movement_anchor->0.timestamp.instant()) as u128,
        };
        Binary64::from_integer(self.maximum_plausible_speed as u128).times(
            elapsed.as_seconds(),
        ).plus(Binary64::from_integer(self.plausibility_distance_allowance as u128))
    }

    /// How the movement since the anchor compares with the steps.
    pub open spec fn compared(self, trip: TripModel, measured: MovementModel) -> Comparison {
        let distance = measured.movement.distance_metres;
        let plausible = self.longest_plausible(trip);
        if !self.judges(trip) || !distance.is_finite() || !plausible.is_finite() || plausible.less(
            distance,
        ) {
            Comparison::Unknown
        } else if distance.less(
            Binary64::from_integer(self.minimum_significant_movement as u128),
        ) {
            Comparison::TooShort
        } else if trip.steps().len() < 2 {
            Comparison::Unknown
        } else {
            let current = last_direction(
                trip.steps()[0].geometry@,
                measured.current_step,
                measured.current_step.len(),
            );
            let next = first_direction(trip.steps()[1].geometry@, measured.next_step, 0);
            if current is None || next is None || turned_bearing(measured.movement) is None
                || turned_bearing(current->0) is None || turned_bearing(next->0) is None {
                Comparison::Unknown
            } else {
                let heading = turned_bearing(measured.movement)->0;
                let from_current = angle(heading, turned_bearing(current->0)->0);
                let from_next = angle(heading, turned_bearing(next->0)->0);
                if from_next.less(from_current) {
                    Comparison::NextStep
                } else if from_current.less(from_next) {
                    Comparison::CurrentStep
                } else {
                    Comparison::Neither
                }
            }
        }
    }

    /// Whether to advance while the movement is watched, and the condition after
    /// that. A movement that agrees with the next step counts, one that agrees with
    /// the current step starts the count anew, one too short waits, and one that
    /// cannot be judged starts the movement anew.
    pub open spec fn confirmed(self, trip: TripModel, measured: MovementModel) -> (bool, Self) {
        if trip.location() is None {
            (false, self.without_movement())
        } else if self.movement_anchor is None {
            (
                false,
                ConfirmationModel {
                    movement_anchor: if self.accepts(trip.location()->0) {
                        trip.location()
                    } else {
                        None
                    },
                    confirmation_count: 0,
                    ..self
                },
            )
        } else {
            let moved = ConfirmationModel { movement_anchor: trip.location(), ..self };
            let count = if self.confirmation_count < 255 {
                (self.confirmation_count + 1) as u8
            } else {
                255u8
            };
            match self.compared(trip, measured) {
                Comparison::Unknown => (false, self.without_movement()),
                Comparison::TooShort => (false, self),
                Comparison::NextStep => if count >= self.required_confirmations {
                    (true, self.fresh())
                } else {
                    (false, ConfirmationModel { confirmation_count: count, ..moved })
                },
                Comparison::CurrentStep => (
                    false,
                    ConfirmationModel { confirmation_count: 0, ..moved },
                ),
                Comparison::Neither => (false, moved),
            }
        }
    }

    /// Whether to advance after the watched condition decided, and the condition
    /// after that. Outside a U-turn its decision stands; at a U-turn its advance
    /// starts watching the movement.
    pub open spec fn watched(
        self,
        trip: TripModel,
        uturn: bool,
        advances: bool,
        successor: ConditionModel,
    ) -> (bool, Self) {
        if advances && !uturn {
            (true, self.fresh())
        } else {
            (
                false,
                ConfirmationModel {
                    candidate_is_uturn: Some(uturn),
                    candidate_successor: Some(Box::new(successor)),
                    confirmation_active: advances,
                    movement_anchor: if advances && trip.location() is Some && self.accepts(
                        trip.location()->0,
                    ) {
                        trip.location()
                    } else {
                        None
                    },
                    confirmation_count: 0,
                    ..self
                },
            )
        }
    }
}

/// The condition without what it has seen, for the next step. The one with U-turn
/// confirmation remembers the last fix that it evaluated.
pub open spec fn renewed(condition: ConditionModel) -> ConditionModel
    decreases condition,
{
    match condition {
        ConditionModel::Or(parts) => ConditionModel::Or(
            Seq::new(
                parts.len(),
                |i: int|
                    if 0 <= i < parts.len() {
                        renewed(parts[i])
                    } else {
                        ConditionModel::Manual
                    },
            ),
        ),
        ConditionModel::And(parts) => ConditionModel::And(
            Seq::new(
                parts.len(),
                |i: int|
                    if 0 <= i < parts.len() {
                        renewed(parts[i])
                    } else {
                        ConditionModel::Manual
                    },
            ),
        ),
        ConditionModel::EntryAndExit(entry_exit) => ConditionModel::EntryAndExit(
            entry_exit.reached(false),
        ),
        ConditionModel::EntryAndSnappedExit(entry_exit) => ConditionModel::EntryAndSnappedExit(
            entry_exit.reached(false),
        ),
        ConditionModel::UTurnConfirmation(confirmation) => ConditionModel::UTurnConfirmation(
            confirmation.fresh(),
        ),
        _ => condition,
    }
}

/// What a condition needs to know of a trip.
pub open spec fn inquiry_of(condition: ConditionModel, trip: TripModel) -> InquiryModel
    decreases condition,
{
    match condition {
        ConditionModel::Manual => InquiryModel::Nothing,
        ConditionModel::DistanceToEndOfStep(distance) => distance.asks(trip),
        ConditionModel::DistanceFromStep(distance) => distance.asks(trip),
        ConditionModel::Or(parts) => InquiryModel::Several(
            Seq::new(
                parts.len(),
                |i: int|
                    if 0 <= i < parts.len() {
                        inquiry_of(parts[i], trip)
                    } else {
                        InquiryModel::Nothing
                    },
            ),
        ),
        ConditionModel::And(parts) => InquiryModel::Several(
            Seq::new(
                parts.len(),
                |i: int|
                    if 0 <= i < parts.len() {
                        inquiry_of(parts[i], trip)
                    } else {
                        InquiryModel::Nothing
                    },
            ),
        ),
        ConditionModel::EntryAndExit(entry_exit) => entry_exit.asks(trip),
        ConditionModel::EntryAndSnappedExit(entry_exit) => entry_exit.asks(trip),
        ConditionModel::UTurnConfirmation(confirmation) => {
            let uturn = confirmation.at_uturn(trip);
            if !confirmation.evaluates(trip) {
                InquiryModel::Nothing
            } else if confirmation.confirmation_active {
                if confirmation.judges(trip) {
                    InquiryModel::Movement {
                        from: confirmation.movement_anchor->0,
                        to: trip.location()->0,
                    }
                } else {
                    InquiryModel::Nothing
                }
            } else if confirmation.keeps_candidate(uturn) {
                inquiry_of(*confirmation.candidate_successor->0, trip)
            } else if uturn {
                confirmation.snapped().asks(trip)
            } else {
                confirmation.ordinary().asks(trip)
            }
        },
    }
}

/// What the parts of a condition decide, each on its part of the evidence.
pub open spec fn part_decisions(
    parts: Seq<ConditionModel>,
    trip: TripModel,
    evidence: EvidenceModel,
) -> Seq<(bool, ConditionModel)>
    decreases parts,
{
    Seq::new(
        parts.len(),
        |i: int|
            if 0 <= i < parts.len() {
                decision(parts[i], trip, evidence.part(i))
            } else {
                (false, ConditionModel::Manual)
            },
    )
}

/// Whether any part advances.
pub open spec fn any_advances(results: Seq<(bool, ConditionModel)>) -> bool {
    exists|i: int| 0 <= i < results.len() && (#[trigger] results[i]).0
}

/// Whether all parts advance.
pub open spec fn all_advance(results: Seq<(bool, ConditionModel)>) -> bool {
    forall|i: int| 0 <= i < results.len() ==> (#[trigger] results[i]).0
}

/// The parts after they decided.
pub open spec fn successors(results: Seq<(bool, ConditionModel)>) -> Seq<ConditionModel> {
    Seq::new(results.len(), |i: int| results[i].1)
}

/// Whether to advance, and the condition after that.
pub open spec fn decision(
    condition: ConditionModel,
    trip: TripModel,
    evidence: EvidenceModel,
) -> (bool, ConditionModel)
    decreases condition,
{
    match condition {
        ConditionModel::Manual => (false, condition),
        ConditionModel::DistanceToEndOfStep(distance) => (
            distance.met(trip, evidence),
            condition,
        ),
        ConditionModel::DistanceFromStep(distance) => (distance.met(trip, evidence), condition),
        ConditionModel::Or(parts) => {
            let results = part_decisions(parts, trip, evidence);
            if any_advances(results) {
                (true, renewed(condition))
            } else {
                (false, ConditionModel::Or(successors(results)))
            }
        },
        ConditionModel::And(parts) => {
            let results = part_decisions(parts, trip, evidence);
            if all_advance(results) {
                (true, renewed(condition))
            } else {
                (false, ConditionModel::And(successors(results)))
            }
        },
        ConditionModel::EntryAndExit(entry_exit) => {
            let (advances, next) = entry_exit.decided(trip, evidence);
            (advances, ConditionModel::EntryAndExit(next))
        },
        ConditionModel::EntryAndSnappedExit(entry_exit) => {
            let (advances, next) = entry_exit.decided(trip, evidence);
            (advances, ConditionModel::EntryAndSnappedExit(next))
        },
        ConditionModel::UTurnConfirmation(confirmation) => {
            let seeing = confirmation.seeing(trip);
            let uturn = confirmation.at_uturn(trip);
            let (advances, next) = if confirmation.has_seen(trip) {
                (false, confirmation)
            } else if confirmation.required_confirmations == 0 {
                (false, seeing.fresh())
            } else if confirmation.confirmation_active {
                seeing.confirmed(trip, evidence.movement())
            } else {
                let (candidate_advances, successor) = if confirmation.keeps_candidate(uturn) {
                    decision(*confirmation.candidate_successor->0, trip, evidence)
                } else if uturn {
                    let (exits, after) = confirmation.snapped().decided(trip, evidence);
                    (exits, ConditionModel::EntryAndSnappedExit(after))
                } else {
                    let (exits, after) = confirmation.ordinary().decided(trip, evidence);
                    (exits, ConditionModel::EntryAndExit(after))
                };
                seeing.watched(trip, uturn, candidate_advances, successor)
            };
            (advances, ConditionModel::UTurnConfirmation(next))
        },
    }
}

/// Whether a fix is less accurate than so many metres.
fn is_too_inaccurate(location: &UserLocation, minimum: u16) -> (r: bool)
    ensures
        r == too_inaccurate(*location, minimum),
{
    Binary64::from_integer(minimum as u128).less(location.horizontal_accuracy)
}

/// What a condition decides.
#[derive(Debug)]
pub struct StepAdvanceResult {
    /// Whether to advance.
    pub should_advance: bool,
    /// The condition after that.
    pub next_iteration: Arc<StepCondition>,
}

impl View for StepAdvanceResult {
    type V = (bool, ConditionModel);

    open spec fn view(&self) -> (bool, ConditionModel) {
        (self.should_advance, self.next_iteration.model())
    }
}

impl StepAdvanceResult {
    /// Whether to advance.
    pub fn should_advance(&self) -> (r: bool)
        ensures
            r == self.should_advance,
    {
        self.should_advance
    }
}

impl ManualStepCondition {
    /// What the condition needs to know: nothing.
    pub fn inquiry(&self, trip_state: &TripState) -> (r: Inquiry)
        ensures
            r.model() == inquiry_of(ConditionModel::Manual, trip_state@),
    {
        Inquiry::Nothing
    }

    /// Never advances.
    pub fn should_advance_step(
        &self,
        trip_state: &TripState,
        evidence: &Evidence,
    ) -> (r: StepAdvanceResult)
        ensures
            r@ == decision(ConditionModel::Manual, trip_state@, evidence.model()),
            !r.should_advance,
    {
        StepAdvanceResult { should_advance: false, next_iteration: self.new_instance() }
    }

    /// The same condition.
    pub fn new_instance(&self) -> (r: Arc<StepCondition>)
        ensures
            r.model() == renewed(ConditionModel::Manual),
    {
        Arc::new(StepCondition::Manual(ManualStepCondition))
    }
}

impl DistanceToEndOfStepCondition {
    fn can_decide(&self, trip_state: &TripState) -> (r: bool)
        ensures
            r == self.applies(trip_state@),
    {
        match trip_state.user_location() {
            Some(location) => trip_state.current_step().is_some() && !is_too_inaccurate(
                &location,
                self.minimum_horizontal_accuracy,
            ),
            None => false,
        }
    }

    fn is_met(&self, trip_state: &TripState, evidence: &Evidence) -> (r: bool)
        ensures
            r == self.met(trip_state@, evidence.model()),
    {
        match evidence {
            Evidence::Within(close) => *close && self.can_decide(trip_state),
            _ => false,
        }
    }

    /// What the condition needs to know.
    pub fn inquiry(&self, trip_state: &TripState) -> (r: Inquiry)
        ensures
            r.model() == inquiry_of(ConditionModel::DistanceToEndOfStep(*self), trip_state@),
    {
        if self.can_decide(trip_state) {
            if let Some(position) = trip_state.position() {
                return Inquiry::WithinEndOfStep { position, threshold: self.distance };
            }
        }
        Inquiry::Nothing
    }

    /// Whether to advance: the fix is accurate and close enough to the end of the
    /// step.
    pub fn should_advance_step(
        &self,
        trip_state: &TripState,
        evidence: &Evidence,
    ) -> (r: StepAdvanceResult)
        ensures
            r@ == decision(
                ConditionModel::DistanceToEndOfStep(*self),
                trip_state@,
                evidence.model(),
            ),
    {
        StepAdvanceResult {
            should_advance: self.is_met(trip_state, evidence),
            next_iteration: self.new_instance(),
        }
    }

    /// The same condition.
    pub fn new_instance(&self) -> (r: Arc<StepCondition>)
        ensures
            r.model() == renewed(ConditionModel::DistanceToEndOfStep(*self)),
    {
        Arc::new(StepCondition::DistanceToEndOfStep(*self))
    }
}

impl DistanceFromStepCondition {
    fn can_decide(&self, trip_state: &TripState) -> (r: bool)
        ensures
            r == self.applies(trip_state@),
    {
        let permitted: bool = match trip_state.deviation() {
            Some(deviation) => match self.calculation_policy {
                DeviationCalculationPolicy::Always => true,
                DeviationCalculationPolicy::WhileOnRoute => !deviation.is_completely_off_route(),
                DeviationCalculationPolicy::WhileOnCurrentStep => {
                    !deviation.is_deviated_from_current_step()
                },
            },
            None => false,
        };
        match trip_state.user_location() {
            Some(location) => permitted && trip_state.current_step().is_some()
                && !is_too_inaccurate(&location, self.minimum_horizontal_accuracy),
            None => false,
        }
    }

    fn is_met(&self, trip_state: &TripState, evidence: &Evidence) -> (r: bool)
        ensures
            r == self.met(trip_state@, evidence.model()),
    {
        match evidence {
            Evidence::Deviation(Some(deviation)) => self.can_decide(trip_state)
                && Binary64::from_integer(self.distance as u128).at_most(*deviation),
            _ => false,
        }
    }

    /// What the condition needs to know.
    pub fn inquiry(&self, trip_state: &TripState) -> (r: Inquiry)
        ensures
            r.model() == inquiry_of(ConditionModel::DistanceFromStep(*self), trip_state@),
    {
        if self.can_decide(trip_state) {
            if let Some(position) = trip_state.position() {
                return Inquiry::DeviationFromStep { position };
            }
        }
        Inquiry::Nothing
    }

    /// Whether to advance: the condition may decide, and the fix is accurate and far
    /// enough from the line of the step.
    pub fn should_advance_step(
        &self,
        trip_state: &TripState,
        evidence: &Evidence,
    ) -> (r: StepAdvanceResult)
        ensures
            r@ == decision(
                ConditionModel::DistanceFromStep(*self),
                trip_state@,
                evidence.model(),
            ),
    {
        StepAdvanceResult {
            should_advance: self.is_met(trip_state, evidence),
            next_iteration: self.new_instance(),
        }
    }

    /// The same condition.
    pub fn new_instance(&self) -> (r: Arc<StepCondition>)
        ensures
            r.model() == renewed(ConditionModel::DistanceFromStep(*self)),
    {
        Arc::new(StepCondition::DistanceFromStep(*self))
    }
}

impl OrAdvanceConditions {
    /// What the condition needs to know.
    pub fn inquiry(&self, trip_state: &TripState) -> (r: Inquiry)
        ensures
            r.model() == inquiry_of(ConditionModel::Or(models(self.conditions@)), trip_state@),
        decreases self,
    {
        let ghost parts = models(self.conditions@);
        let mut inquiries: Vec<Inquiry> = Vec::new();
        let mut i: usize = 0;
        while i < self.conditions.len()
            invariant
                i <= self.conditions.len(),
                parts == models(self.conditions@),
                inquiries.len() == i,
                forall|k: int|
                    0 <= k < i ==> (#[trigger] inquiries@[k]).model() == inquiry_of(
                        parts[k],
                        trip_state@,
                    ),
            decreases self.conditions.len() - i,
        {
            assert(decreases_to!(self => self.conditions@[i as int]));
            inquiries.push(self.conditions[i].inquiry(trip_state));
            i = i + 1;
        }
        let result: Inquiry = Inquiry::Several(inquiries);
        assert(result.model()->Several_0 =~= inquiry_of(
            ConditionModel::Or(parts),
            trip_state@,
        )->Several_0);
        result
    }

    /// Whether to advance: any of the conditions advance. All conditions start
    /// anew when it does, and keep what they have seen when it does not.
    pub fn should_advance_step(
        &self,
        trip_state: &TripState,
        evidence: &Evidence,
    ) -> (r: StepAdvanceResult)
        ensures
            r@ == decision(
                ConditionModel::Or(models(self.conditions@)),
                trip_state@,
                evidence.model(),
            ),
        decreases self,
    {
        let ghost parts = models(self.conditions@);
        let ghost trip = trip_state@;
        let ghost given = evidence.model();
        let nothing: Evidence = Evidence::Nothing;
        let mut should_advance: bool = false;
        let mut next_conditions: Vec<Arc<StepCondition>> = Vec::new();
        let mut i: usize = 0;
        while i < self.conditions.len()
            invariant
                i <= self.conditions.len(),
                parts == models(self.conditions@),
                trip == trip_state@,
                given == evidence.model(),
                nothing.model() == EvidenceModel::Nothing,
                next_conditions.len() == i,
                forall|k: int|
                    0 <= k < i ==> (#[trigger] next_conditions@[k]).model() == decision(
                        parts[k],
                        trip,
                        given.part(k),
                    ).1,
                should_advance == (exists|k: int| 0 <= k < i && (#[trigger] decision(
                    parts[k],
                    trip,
                    given.part(k),
                )).0),
            decreases self.conditions.len() - i,
        {
            let part: &Evidence = match evidence {
                Evidence::Several(list) => if i < list.len() {
                    &list[i]
                } else {
                    &nothing
                },
                _ => &nothing,
            };
            assert(part.model() == given.part(i as int));
            assert(decreases_to!(self => self.conditions@[i as int]));
            let result: StepAdvanceResult = self.conditions[i].should_advance_step(
                trip_state,
                part,
            );
            assert(result@ == decision(parts[i as int], trip, given.part(i as int)));
            should_advance = should_advance || result.should_advance;
            next_conditions.push(result.next_iteration);
            i = i + 1;
        }
        let ghost results = part_decisions(parts, trip, given);
        proof {
            assert forall|k: int| 0 <= k < parts.len() implies #[trigger] results[k] == decision(
                parts[k],
                trip,
                given.part(k),
            ) by {
            }
            assert(should_advance == (exists|k: int| 0 <= k < results.len() && (
            #[trigger] results[k]).0)) by {
                if exists|k: int| 0 <= k < results.len() && (#[trigger] results[k]).0 {
                    let k = choose|k: int| 0 <= k < results.len() && (#[trigger] results[k]).0;
                    assert(decision(parts[k], trip, given.part(k)).0);
                }
                if should_advance {
                    let k = choose|k: int|
                        0 <= k < i && (#[trigger] decision(parts[k], trip, given.part(k))).0;
                    assert(results[k].0);
                }
            }
        }
        if should_advance {
            StepAdvanceResult { should_advance: true, next_iteration: self.new_instance() }
        } else {
            proof {
                assert(models(next_conditions@) =~= successors(results));
            }
            StepAdvanceResult {
                should_advance: false,
                next_iteration: Arc::new(
                    StepCondition::Or(OrAdvanceConditions { conditions: next_conditions }),
                ),
            }
        }
    }

    /// The conditions without what they have seen.
    pub fn new_instance(&self) -> (r: Arc<StepCondition>)
        ensures
            r.model() == renewed(ConditionModel::Or(models(self.conditions@))),
        decreases self,
    {
        let ghost parts = models(self.conditions@);
        let mut conditions: Vec<Arc<StepCondition>> = Vec::new();
        let mut i: usize = 0;
        while i < self.conditions.len()
            invariant
                i <= self.conditions.len(),
                parts == models(self.conditions@),
                conditions.len() == i,
                forall|k: int|
                    0 <= k < i ==> (#[trigger] conditions@[k]).model() == renewed(parts[k]),
            decreases self.conditions.len() - i,
        {
            assert(decreases_to!(self => self.conditions@[i as int]));
            conditions.push(self.conditions[i].new_instance());
            i = i + 1;
        }
        assert(models(conditions@) =~= renewed(ConditionModel::Or(parts))->Or_0);
        Arc::new(StepCondition::Or(OrAdvanceConditions { conditions }))
    }
}

impl AndAdvanceConditions {
    /// What the condition needs to know.
    pub fn inquiry(&self, trip_state: &TripState) -> (r: Inquiry)
        ensures
            r.model() == inquiry_of(ConditionModel::And(models(self.conditions@)), trip_state@),
        decreases self,
    {
        let ghost parts = models(self.conditions@);
        let mut inquiries: Vec<Inquiry> = Vec::new();
        let mut i: usize = 0;
        while i < self.conditions.len()
            invariant
                i <= self.conditions.len(),
                parts == models(self.conditions@),
                inquiries.len() == i,
                forall|k: int|
                    0 <= k < i ==> (#[trigger] inquiries@[k]).model() == inquiry_of(
                        parts[k],
                        trip_state@,
                    ),
            decreases self.conditions.len() - i,
        {
            assert(decreases_to!(self => self.conditions@[i as int]));
            inquiries.push(self.conditions[i].inquiry(trip_state));
            i = i + 1;
        }
        let result: Inquiry = Inquiry::Several(inquiries);
        assert(result.model()->Several_0 =~= inquiry_of(
            ConditionModel::And(parts),
            trip_state@,
        )->Several_0);
        result
    }

    /// Whether to advance: all of the conditions advance. All conditions start
    /// anew when it does, and keep what they have seen when it does not.
    pub fn should_advance_step(
        &self,
        trip_state: &TripState,
        evidence: &Evidence,
    ) -> (r: StepAdvanceResult)
        ensures
            r@ == decision(
                ConditionModel::And(models(self.conditions@)),
                trip_state@,
                evidence.model(),
            ),
        decreases self,
    {
        let ghost parts = models(self.conditions@);
        let ghost trip = trip_state@;
        let ghost given = evidence.model();
        let nothing: Evidence = Evidence::Nothing;
        let mut should_advance: bool = true;
        let mut next_conditions: Vec<Arc<StepCondition>> = Vec::new();
        let mut i: usize = 0;
        while i < self.conditions.len()
            invariant
                i <= self.conditions.len(),
                parts == models(self.conditions@),
                trip == trip_state@,
                given == evidence.model(),
                nothing.model() == EvidenceModel::Nothing,
                next_conditions.len() == i,
                forall|k: int|
                    0 <= k < i ==> (#[trigger] next_conditions@[k]).model() == decision(
                        parts[k],
                        trip,
                        given.part(k),
                    ).1,
                should_advance == (forall|k: int| 0 <= k < i ==> (#[trigger] decision(
                    parts[k],
                    trip,
                    given.part(k),
                )).0),
            decreases self.conditions.len() - i,
        {
            let part: &Evidence = match evidence {
                Evidence::Several(list) => if i < list.len() {
                    &list[i]
                } else {
                    &nothing
                },
                _ => &nothing,
            };
            assert(part.model() == given.part(i as int));
            assert(decreases_to!(self => self.conditions@[i as int]));
            let result: StepAdvanceResult = self.conditions[i].should_advance_step(
                trip_state,
                part,
            );
            assert(result@ == decision(parts[i as int], trip, given.part(i as int)));
            should_advance = should_advance && result.should_advance;
            next_conditions.push(result.next_iteration);
            i = i + 1;
        }
        let ghost results = part_decisions(parts, trip, given);
        proof {
            assert forall|k: int| 0 <= k < parts.len() implies #[trigger] results[k] == decision(
                parts[k],
                trip,
                given.part(k),
            ) by {
            }
            assert(should_advance == (forall|k: int| 0 <= k < results.len() ==> (
            #[trigger] results[k]).0)) by {
                if forall|k: int| 0 <= k < results.len() ==> (#[trigger] results[k]).0 {
                    assert forall|k: int| 0 <= k < i implies (#[trigger] decision(
                        parts[k],
                        trip,
                        given.part(k),
                    )).0 by {
                        assert(results[k].0);
                    }
                }
            }
        }
        if should_advance {
            StepAdvanceResult { should_advance: true, next_iteration: self.new_instance() }
        } else {
            proof {
                assert(models(next_conditions@) =~= successors(results));
            }
            StepAdvanceResult {
                should_advance: false,
                next_iteration: Arc::new(
                    StepCondition::And(AndAdvanceConditions { conditions: next_conditions }),
                ),
            }
        }
    }

    /// The conditions without what they have seen.
    pub fn new_instance(&self) -> (r: Arc<StepCondition>)
        ensures
            r.model() == renewed(ConditionModel::And(models(self.conditions@))),
        decreases self,
    {
        let ghost parts = models(self.conditions@);
        let mut conditions: Vec<Arc<StepCondition>> = Vec::new();
        let mut i: usize = 0;
        while i < self.conditions.len()
            invariant
                i <= self.conditions.len(),
                parts == models(self.conditions@),
                conditions.len() == i,
                forall|k: int|
                    0 <= k < i ==> (#[trigger] conditions@[k]).model() == renewed(parts[k]),
            decreases self.conditions.len() - i,
        {
            assert(decreases_to!(self => self.conditions@[i as int]));
            conditions.push(self.conditions[i].new_instance());
            i = i + 1;
        }
        assert(models(conditions@) =~= renewed(ConditionModel::And(parts))->And_0);
        Arc::new(StepCondition::And(AndAdvanceConditions { conditions }))
    }
}

impl Default for DistanceEntryAndExitCondition {
    /// Reached within twenty metres, left at five.
    fn default() -> (r: Self)
        ensures
            r == (DistanceEntryAndExitCondition {
                distance_to_end_of_step: 20,
                distance_after_end_of_step: 5,
                minimum_horizontal_accuracy: 25,
                has_reached_end_of_current_step: false,
            }),
    {
        DistanceEntryAndExitCondition {
            distance_to_end_of_step: 20,
            distance_after_end_of_step: 5,
            minimum_horizontal_accuracy: 25,
            has_reached_end_of_current_step: false,
        }
    }
}

impl DistanceEntryAndExitCondition {
    /// Reached and left at the end itself, by exact fixes only.
    pub fn exact() -> (r: Self)
        ensures
            r == (DistanceEntryAndExitCondition {
                distance_to_end_of_step: 0,
                distance_after_end_of_step: 0,
                minimum_horizontal_accuracy: 0,
                has_reached_end_of_current_step: false,
            }),
    {
        DistanceEntryAndExitCondition {
            distance_to_end_of_step: 0,
            distance_after_end_of_step: 0,
            minimum_horizontal_accuracy: 0,
            has_reached_end_of_current_step: false,
        }
    }

    fn entry_condition(&self) -> (r: DistanceToEndOfStepCondition)
        ensures
            r == self.entry(),
    {
        DistanceToEndOfStepCondition {
            distance: self.distance_to_end_of_step,
            minimum_horizontal_accuracy: self.minimum_horizontal_accuracy,
        }
    }

    fn exit_condition(&self) -> (r: DistanceFromStepCondition)
        ensures
            r == self.exit(),
    {
        DistanceFromStepCondition {
            distance: self.distance_after_end_of_step,
            minimum_horizontal_accuracy: self.minimum_horizontal_accuracy,
            calculation_policy: DeviationCalculationPolicy::WhileOnRoute,
        }
    }

    fn with_reached(&self, has_reached_end_of_current_step: bool) -> (r: Arc<StepCondition>)
        ensures
            r.model() == ConditionModel::EntryAndExit(
                self.reached(has_reached_end_of_current_step),
            ),
    {
        Arc::new(
            StepCondition::EntryAndExit(
                DistanceEntryAndExitCondition {
                    distance_to_end_of_step: self.distance_to_end_of_step,
                    distance_after_end_of_step: self.distance_after_end_of_step,
                    minimum_horizontal_accuracy: self.minimum_horizontal_accuracy,
                    has_reached_end_of_current_step,
                },
            ),
        )
    }

    /// What the condition needs to know.
    pub fn inquiry(&self, trip_state: &TripState) -> (r: Inquiry)
        ensures
            r.model() == self.asks(trip_state@),
    {
        if self.has_reached_end_of_current_step {
            self.exit_condition().inquiry(trip_state)
        } else {
            self.entry_condition().inquiry(trip_state)
        }
    }

    /// Whether to advance: the end of the step was reached before and is left now.
    pub fn should_advance_step(
        &self,
        trip_state: &TripState,
        evidence: &Evidence,
    ) -> (r: StepAdvanceResult)
        ensures
            r@ == decision(
                ConditionModel::EntryAndExit(*self),
                trip_state@,
                evidence.model(),
            ),
    {
        if self.has_reached_end_of_current_step {
            let left: bool = self.exit_condition().is_met(trip_state, evidence);
            StepAdvanceResult { should_advance: left, next_iteration: self.with_reached(!left) }
        } else {
            let reached: bool = self.entry_condition().is_met(trip_state, evidence);
            StepAdvanceResult { should_advance: false, next_iteration: self.with_reached(reached) }
        }
    }

    /// The condition with its end not yet reached.
    pub fn new_instance(&self) -> (r: Arc<StepCondition>)
        ensures
            r.model() == renewed(ConditionModel::EntryAndExit(*self)),
    {
        self.with_reached(false)
    }
}

impl Default for DistanceEntryAndSnappedExitCondition {
    /// Reached within twenty metres, left at two.
    fn default() -> (r: Self)
        ensures
            r == (DistanceEntryAndSnappedExitCondition {
                distance_to_end_of_step: 20,
                distance_after_end_of_step: 2,
                minimum_horizontal_accuracy: 25,
                has_reached_end_of_current_step: false,
            }),
    {
        DistanceEntryAndSnappedExitCondition {
            distance_to_end_of_step: 20,
            distance_after_end_of_step: 2,
            minimum_horizontal_accuracy: 25,
            has_reached_end_of_current_step: false,
        }
    }
}

/// Adds the positions of a line to the end of another.
fn extend_line(line: &mut Vec<GeographicCoordinate>, more: &Vec<GeographicCoordinate>)
    ensures
        final(line)@ == old(line)@ + more@,
{
    let ghost start = line@;
    let mut i: usize = 0;
    while i < more.len()
        invariant
            i <= more.len(),
            line@ == start + more@.subrange(0, i as int),
        decreases more.len() - i,
    {
        line.push(more[i]);
        i = i + 1;
        assert(line@ =~= start + more@.subrange(0, i as int));
    }
    assert(more@.subrange(0, i as int) =~= more@);
}

impl DistanceEntryAndSnappedExitCondition {
    /// Reached and left at the end itself, by exact fixes only.
    pub fn exact() -> (r: Self)
        ensures
            r == (DistanceEntryAndSnappedExitCondition {
                distance_to_end_of_step: 0,
                distance_after_end_of_step: 0,
                minimum_horizontal_accuracy: 0,
                has_reached_end_of_current_step: false,
            }),
    {
        DistanceEntryAndSnappedExitCondition {
            distance_to_end_of_step: 0,
            distance_after_end_of_step: 0,
            minimum_horizontal_accuracy: 0,
            has_reached_end_of_current_step: false,
        }
    }

    fn entry_condition(&self) -> (r: DistanceToEndOfStepCondition)
        ensures
            r == self.entry(),
    {
        DistanceToEndOfStepCondition {
            distance: self.distance_to_end_of_step,
            minimum_horizontal_accuracy: self.minimum_horizontal_accuracy,
        }
    }

    fn with_reached(&self, has_reached_end_of_current_step: bool) -> (r: Arc<StepCondition>)
        ensures
            r.model() == ConditionModel::EntryAndSnappedExit(
                self.reached(has_reached_end_of_current_step),
            ),
    {
        Arc::new(
            StepCondition::EntryAndSnappedExit(
                DistanceEntryAndSnappedExitCondition {
                    distance_to_end_of_step: self.distance_to_end_of_step,
                    distance_after_end_of_step: self.distance_after_end_of_step,
                    minimum_horizontal_accuracy: self.minimum_horizontal_accuracy,
                    has_reached_end_of_current_step,
                },
            ),
        )
    }

    fn exit_can_decide(&self, trip_state: &TripState) -> (r: bool)
        ensures
            r == self.exit_applies(trip_state@),
    {
        match trip_state.user_location() {
            Some(location) => trip_state.current_step().is_some() && !is_too_inaccurate(
                &location,
                self.minimum_horizontal_accuracy,
            ),
            None => false,
        }
    }

    /// The line on which the end of the step is left, and the metres of it after the
    /// step.
    fn exit_line(
        &self,
        trip_state: &TripState,
        current_step: &RouteStep,
        next_step: &RouteStep,
    ) -> (r: (Vec<GeographicCoordinate>, Binary64))
        requires
            trip_state@.steps().len() > 1,
            *current_step == *trip_state@.steps()[0],
            *next_step == *trip_state@.steps()[1],
        ensures
            r.0@ == joined_line(trip_state@.steps(), self.reach(trip_state@).0 + 1),
            r.1 == self.reach(trip_state@).1,
    {
        let ghost steps = trip_state@.steps();
        let mut line: Vec<GeographicCoordinate> = Vec::new();
        extend_line(&mut line, &current_step.geometry);
        extend_line(&mut line, &next_step.geometry);
        let mut length: Binary64 = next_step.distance;
        let mut last: usize = 1;
        let target: Binary64 = Binary64::from_integer(
            self.distance_after_end_of_step as u128,
        ).times(number(TWO));
        proof {
            reveal_with_fuel(joined_line, 3);
            if let TripState::Navigating(navigation) = trip_state {
                assert(navigation.remaining_steps@.len() == navigation.remaining_steps.len());
            }
        }
        while length.less(target)
            invariant_except_break
                1 <= last < steps.len() <= usize::MAX,
                steps == trip_state@.steps(),
                line@ == joined_line(steps, (last + 1) as nat),
                self.reach(trip_state@) == reach_of(steps, target, last as nat, length),
            ensures
                line@ == joined_line(steps, self.reach(trip_state@).0 + 1),
                length == self.reach(trip_state@).1,
            decreases steps.len() - last,
        {
            let step: Arc<RouteStep> = match trip_state.get_step(last + 1) {
                Some(step) => step,
                None => break,
            };
            extend_line(&mut line, &step.geometry);
            length = length.plus(step.distance);
            last = last + 1;
        }
        (line, length)
    }

    /// What the condition needs to know.
    pub fn inquiry(&self, trip_state: &TripState) -> (r: Inquiry)
        ensures
            r.model() == self.asks(trip_state@),
    {
        if !self.has_reached_end_of_current_step {
            return self.entry_condition().inquiry(trip_state);
        }
        if !self.exit_can_decide(trip_state) {
            return Inquiry::Nothing;
        }
        let position: GeographicCoordinate = match trip_state.position() {
            Some(position) => position,
            None => return Inquiry::Nothing,
        };
        if let Some(current_step) = trip_state.current_step() {
            if let Some(next_step) = trip_state.next_step() {
                let (line, _): (Vec<GeographicCoordinate>, Binary64) = self.exit_line(
                    trip_state,
                    &current_step,
                    &next_step,
                );
                return Inquiry::SnappedDeviation { position, line };
            }
        }
        Inquiry::Nothing
    }

    fn check_exit_result(&self, trip_state: &TripState, evidence: &Evidence) -> (r: bool)
        ensures
            r == self.exits(trip_state@, evidence.model()),
    {
        if !self.exit_can_decide(trip_state) {
            return false;
        }
        if let Some(current_step) = trip_state.current_step() {
            if let Some(next_step) = trip_state.next_step() {
                let (_, length): (Vec<GeographicCoordinate>, Binary64) = self.exit_line(
                    trip_state,
                    &current_step,
                    &next_step,
                );
                let deviation: Binary64 = match evidence {
                    Evidence::Deviation(Some(deviation)) => *deviation,
                    _ => number(ZERO),
                };
                let needed: Binary64 = Binary64::from_integer(
                    self.distance_after_end_of_step as u128,
                ).min(length);
                return needed.at_most(deviation);
            }
        }
        true
    }

    /// Whether to advance: the end of the step was reached before, and the snapped
    /// fix has left it now.
    pub fn should_advance_step(
        &self,
        trip_state: &TripState,
        evidence: &Evidence,
    ) -> (r: StepAdvanceResult)
        ensures
            r@ == decision(
                ConditionModel::EntryAndSnappedExit(*self),
                trip_state@,
                evidence.model(),
            ),
    {
        if self.has_reached_end_of_current_step {
            let left: bool = self.check_exit_result(trip_state, evidence);
            StepAdvanceResult { should_advance: left, next_iteration: self.with_reached(false) }
        } else {
            let reached: bool = self.entry_condition().is_met(trip_state, evidence);
            StepAdvanceResult { should_advance: false, next_iteration: self.with_reached(reached) }
        }
    }

    /// The condition with its end not yet reached.
    pub fn new_instance(&self) -> (r: Arc<StepCondition>)
        ensures
            r.model() == renewed(ConditionModel::EntryAndSnappedExit(*self)),
    {
        self.with_reached(false)
    }
}

impl StepCondition {
    /// What the condition needs to know.
    pub fn inquiry(&self, trip_state: &TripState) -> (r: Inquiry)
        ensures
            r.model() == inquiry_of(self.model(), trip_state@),
        decreases self,
    {
        match self {
            StepCondition::Manual(condition) => condition.inquiry(trip_state),
            StepCondition::DistanceToEndOfStep(condition) => condition.inquiry(trip_state),
            StepCondition::DistanceFromStep(condition) => condition.inquiry(trip_state),
            StepCondition::Or(conditions) => conditions.inquiry(trip_state),
            StepCondition::And(conditions) => conditions.inquiry(trip_state),
            StepCondition::EntryAndExit(condition) => condition.inquiry(trip_state),
            StepCondition::EntryAndSnappedExit(condition) => condition.inquiry(trip_state),
            StepCondition::UTurnConfirmation(condition) => condition.inquiry(trip_state),
        }
    }

    /// Whether to advance, and the condition after that.
    pub fn should_advance_step(
        &self,
        trip_state: &TripState,
        evidence: &Evidence,
    ) -> (r: StepAdvanceResult)
        ensures
            r@ == decision(self.model(), trip_state@, evidence.model()),
        decreases self,
    {
        match self {
            StepCondition::Manual(condition) => condition.should_advance_step(trip_state, evidence),
            StepCondition::DistanceToEndOfStep(condition) => condition.should_advance_step(
                trip_state,
                evidence,
            ),
            StepCondition::DistanceFromStep(condition) => condition.should_advance_step(
                trip_state,
                evidence,
            ),
            StepCondition::Or(conditions) => conditions.should_advance_step(trip_state, evidence),
            StepCondition::And(conditions) => conditions.should_advance_step(trip_state, evidence),
            StepCondition::EntryAndExit(condition) => condition.should_advance_step(
                trip_state,
                evidence,
            ),
            StepCondition::EntryAndSnappedExit(condition) => condition.should_advance_step(
                trip_state,
                evidence,
            ),
            StepCondition::UTurnConfirmation(condition) => condition.should_advance_step(
                trip_state,
                evidence,
            ),
        }
    }

    /// The condition without what it has seen, for the next step.
    pub fn new_instance(&self) -> (r: Arc<StepCondition>)
        ensures
            r.model() == renewed(self.model()),
        decreases self,
    {
        match self {
            StepCondition::Manual(condition) => condition.new_instance(),
            StepCondition::DistanceToEndOfStep(condition) => condition.new_instance(),
            StepCondition::DistanceFromStep(condition) => condition.new_instance(),
            StepCondition::Or(conditions) => conditions.new_instance(),
            StepCondition::And(conditions) => conditions.new_instance(),
            StepCondition::EntryAndExit(condition) => condition.new_instance(),
            StepCondition::EntryAndSnappedExit(condition) => condition.new_instance(),
            StepCondition::UTurnConfirmation(condition) => condition.new_instance(),
        }
    }
}

/// Whether a position is one on the globe.
pub fn is_valid_coordinate(coordinate: GeographicCoordinate) -> (r: bool)
    ensures
        r == on_globe(coordinate),
{
    coordinate.lat.is_finite() && number(SOUTH_POLE).at_most(coordinate.lat)
        && coordinate.lat.at_most(number(NORTH_POLE)) && coordinate.lng.is_finite() && number(
        WEST_END,
    ).at_most(coordinate.lng) && coordinate.lng.at_most(number(HALF_TURN))
}

fn valid_segment(line: &Vec<GeographicCoordinate>, legs: &Vec<Leg>, i: usize) -> (r: bool)
    requires
        i < usize::MAX,
    ensures
        r == has_direction(line@, legs@, i as int),
{
    i < legs.len() && i + 1 < line.len() && is_valid_coordinate(line[i]) && is_valid_coordinate(
        line[i + 1],
    ) && legs[i].distance_metres.is_finite() && number(ZERO).less(legs[i].distance_metres)
}

/// The last segment of a step that has a direction, given the legs of its segments.
pub fn last_valid_segment(step: &RouteStep, legs: &Vec<Leg>) -> (r: Option<Leg>)
    ensures
        r == last_direction(step.geometry@, legs@, legs@.len()),
{
    let mut n: usize = legs.len();
    while n > 0
        invariant
            n <= legs.len(),
            last_direction(step.geometry@, legs@, legs@.len()) == last_direction(
                step.geometry@,
                legs@,
                n as nat,
            ),
        decreases n,
    {
        if valid_segment(&step.geometry, legs, n - 1) {
            return Some(legs[n - 1]);
        }
        n = n - 1;
    }
    None
}

/// The first segment of a step that has a direction, given the legs of its segments.
pub fn first_valid_segment(step: &RouteStep, legs: &Vec<Leg>) -> (r: Option<Leg>)
    ensures
        r == first_direction(step.geometry@, legs@, 0),
{
    let mut i: usize = 0;
    while i < legs.len()
        invariant
            i <= legs.len(),
            first_direction(step.geometry@, legs@, 0) == first_direction(
                step.geometry@,
                legs@,
                i as nat,
            ),
        decreases legs.len() - i,
    {
        if valid_segment(&step.geometry, legs, i) {
            return Some(legs[i]);
        }
        i = i + 1;
    }
    None
}

/// The bearing of a way from zero up to a full turn, where it has one.
pub fn normalized_bearing(leg: Leg) -> (r: Option<Binary64>)
    ensures
        r == turned_bearing(leg),
{
    if leg.bearing_degrees.is_finite() {
        Some(leg.bearing_degrees.plus(number(FULL_TURN)).remainder(number(FULL_TURN)))
    } else {
        None
    }
}

/// The angle between two bearings.
pub fn angular_distance(a: Binary64, b: Binary64) -> (r: Binary64)
    ensures
        r == angle(a, b),
{
    a.minus(b).plus(number(TURN_AND_A_HALF)).remainder(number(FULL_TURN)).minus(
        number(HALF_TURN),
    ).absolute()
}

/// Whether the shown instruction announces a U-turn.
pub fn is_uturn(trip_state: &TripState) -> (r: bool)
    ensures
        r == announces_uturn(trip_state@),
{
    match trip_state {
        TripState::Navigating(navigation) => match navigation.visual_instruction {
            Some(instruction) => match instruction.maneuver_modifier {
                Some(modifier) => modifier == ManeuverModifier::UTurn,
                None => false,
            },
            None => false,
        },
        _ => false,
    }
}

impl DistanceEntryAndExitWithUTurnConfirmationCondition {
    /// A condition that has seen nothing.
    pub fn new(
        distance_to_end_of_step: u16,
        distance_after_end_of_step: u16,
        minimum_horizontal_accuracy: u16,
        minimum_significant_movement: u16,
        maximum_plausible_speed: u16,
        plausibility_distance_allowance: u16,
        required_confirmations: u8,
        uturn_confirmation_enabled: bool,
    ) -> (r: Self)
        ensures
            r.model() == (ConfirmationModel {
                distance_to_end_of_step,
                distance_after_end_of_step,
                minimum_horizontal_accuracy,
                minimum_significant_movement,
                maximum_plausible_speed,
                plausibility_distance_allowance,
                required_confirmations,
                uturn_confirmation_enabled,
                candidate_is_uturn: None,
                candidate_successor: None,
                confirmation_active: false,
                movement_anchor: None,
                confirmation_count: 0,
                last_evaluated_timestamp: None,
            }),
    {
        DistanceEntryAndExitWithUTurnConfirmationCondition {
            distance_to_end_of_step,
            distance_after_end_of_step,
            minimum_horizontal_accuracy,
            minimum_significant_movement,
            maximum_plausible_speed,
            plausibility_distance_allowance,
            required_confirmations,
            uturn_confirmation_enabled,
            candidate_is_uturn: None,
            candidate_successor: None,
            confirmation_active: false,
            movement_anchor: None,
            confirmation_count: 0,
            last_evaluated_timestamp: None,
        }
    }

    /// The same condition.
    pub fn duplicate(&self) -> (r: Self)
        ensures
            r == *self,
    {
        let candidate_successor: Option<Arc<StepCondition>> = match &self.candidate_successor {
            Some(candidate) => Some(candidate.clone()),
            None => None,
        };
        DistanceEntryAndExitWithUTurnConfirmationCondition {
            distance_to_end_of_step: self.distance_to_end_of_step,
            distance_after_end_of_step: self.distance_after_end_of_step,
            minimum_horizontal_accuracy: self.minimum_horizontal_accuracy,
            minimum_significant_movement: self.minimum_significant_movement,
            maximum_plausible_speed: self.maximum_plausible_speed,
            plausibility_distance_allowance: self.plausibility_distance_allowance,
            required_confirmations: self.required_confirmations,
            uturn_confirmation_enabled: self.uturn_confirmation_enabled,
            candidate_is_uturn: self.candidate_is_uturn,
            candidate_successor,
            confirmation_active: self.confirmation_active,
            movement_anchor: self.movement_anchor,
            confirmation_count: self.confirmation_count,
            last_evaluated_timestamp: self.last_evaluated_timestamp,
        }
    }

    /// Whether a fix is good enough to judge a movement by.
    pub fn is_valid_fix(&self, location: &UserLocation) -> (r: bool)
        ensures
            r == self.model().accepts(*location),
    {
        is_valid_coordinate(location.coordinates) && location.horizontal_accuracy.is_finite()
            && number(ZERO).at_most(location.horizontal_accuracy)
            && location.horizontal_accuracy.at_most(
            Binary64::from_integer(self.minimum_horizontal_accuracy as u128),
        )
    }

    fn continue_with(next: Self) -> (r: StepAdvanceResult)
        ensures
            r@ == (false, ConditionModel::UTurnConfirmation(next.model())),
    {
        StepAdvanceResult {
            should_advance: false,
            next_iteration: Arc::new(StepCondition::UTurnConfirmation(next)),
        }
    }

    fn cleared_movement_progress(&self) -> (r: Self)
        ensures
            r.model() == self.model().without_movement(),
    {
        let mut next: Self = self.duplicate();
        next.movement_anchor = None;
        next.confirmation_count = 0;
        next
    }

    fn ordinary_candidate(&self) -> (r: DistanceEntryAndExitCondition)
        ensures
            r == self.model().ordinary(),
    {
        DistanceEntryAndExitCondition {
            distance_to_end_of_step: self.distance_to_end_of_step,
            distance_after_end_of_step: self.distance_after_end_of_step,
            minimum_horizontal_accuracy: self.minimum_horizontal_accuracy,
            has_reached_end_of_current_step: false,
        }
    }

    fn snapped_candidate(&self) -> (r: DistanceEntryAndSnappedExitCondition)
        ensures
            r == self.model().snapped(),
    {
        DistanceEntryAndSnappedExitCondition {
            distance_to_end_of_step: self.distance_to_end_of_step,
            distance_after_end_of_step: self.distance_after_end_of_step,
            minimum_horizontal_accuracy: self.minimum_horizontal_accuracy,
            has_reached_end_of_current_step: false,
        }
    }

    fn was_evaluated(&self, trip_state: &TripState) -> (r: bool)
        ensures
            r == self.model().has_seen(trip_state@),
    {
        match trip_state.user_location() {
            Some(location) => match self.last_evaluated_timestamp {
                Some(last) => location.timestamp.nanoseconds() == last.nanoseconds(),
                None => false,
            },
            None => false,
        }
    }

    fn can_judge(&self, trip_state: &TripState) -> (r: bool)
        ensures
            r == self.model().judges(trip_state@),
    {
        match trip_state.user_location() {
            Some(location) => match self.movement_anchor {
                Some(anchor) => self.is_valid_fix(&anchor) && self.is_valid_fix(&location)
                    && anchor.timestamp.before(location.timestamp),
                None => false,
            },
            None => false,
        }
    }

    /// What the condition needs to know.
    pub fn inquiry(&self, trip_state: &TripState) -> (r: Inquiry)
        ensures
            r.model() == inquiry_of(
                ConditionModel::UTurnConfirmation(self.model()),
                trip_state@,
            ),
        decreases self,
    {
        if self.was_evaluated(trip_state) || self.required_confirmations == 0 {
            return Inquiry::Nothing;
        }
        if self.confirmation_active {
            if self.can_judge(trip_state) {
                if let Some(from) = self.movement_anchor {
                    if let Some(to) = trip_state.user_location() {
                        return Inquiry::Movement { from, to };
                    }
                }
            }
            return Inquiry::Nothing;
        }
        let uturn: bool = self.uturn_confirmation_enabled && is_uturn(trip_state);
        if let Some(candidate) = &self.candidate_successor {
            if let Some(kind) = self.candidate_is_uturn {
                if kind == uturn {
                    return candidate.inquiry(trip_state);
                }
            }
        }
        if uturn {
            self.snapped_candidate().inquiry(trip_state)
        } else {
            self.ordinary_candidate().inquiry(trip_state)
        }
    }

    fn compare_movement(&self, trip_state: &TripState, evidence: &Evidence) -> (r: Agreement)
        ensures
            r.comparison() == self.model().compared(trip_state@, evidence.model().movement()),
    {
        if !self.can_judge(trip_state) {
            return Agreement::Unknown;
        }
        let measured: &Movement = match evidence {
            Evidence::Movement(measured) => measured,
            _ => return Agreement::Unknown,
        };
        let (from, to): (UserLocation, UserLocation) = match (
            self.movement_anchor,
            trip_state.user_location(),
        ) {
            (Some(from), Some(to)) => (from, to),
            _ => return Agreement::Unknown,
        };
        let elapsed: Span = match to.timestamp.since(from.timestamp) {
            Some(elapsed) => elapsed,
            None => return Agreement::Unknown,
        };
        let distance: Binary64 = measured.movement.distance_metres;
        let plausible: Binary64 = Binary64::from_integer(
            self.maximum_plausible_speed as u128,
        ).times(elapsed.as_seconds()).plus(
            Binary64::from_integer(self.plausibility_distance_allowance as u128),
        );
        if !distance.is_finite() || !plausible.is_finite() || plausible.less(distance) {
            return Agreement::Unknown;
        }
        if distance.less(Binary64::from_integer(self.minimum_significant_movement as u128)) {
            return Agreement::TooShort;
        }
        let (current_step, next_step): (Arc<RouteStep>, Arc<RouteStep>) = match (
            trip_state.current_step(),
            trip_state.next_step(),
        ) {
            (Some(current_step), Some(next_step)) => (current_step, next_step),
            _ => return Agreement::Unknown,
        };
        let (current, next): (Leg, Leg) = match (
            last_valid_segment(&current_step, &measured.current_step),
            first_valid_segment(&next_step, &measured.next_step),
        ) {
            (Some(current), Some(next)) => (current, next),
            _ => return Agreement::Unknown,
        };
        let heading: Binary64 = match normalized_bearing(measured.movement) {
            Some(heading) => heading,
            None => return Agreement::Unknown,
        };
        match (normalized_bearing(current), normalized_bearing(next)) {
            (Some(current_bearing), Some(next_bearing)) => {
                let current_delta: Binary64 = angular_distance(heading, current_bearing);
                let next_delta: Binary64 = angular_distance(heading, next_bearing);
                if next_delta.less(current_delta) {
                    Agreement::NextStep
                } else if current_delta.less(next_delta) {
                    Agreement::CurrentStep
                } else {
                    Agreement::Neither
                }
            },
            _ => Agreement::Unknown,
        }
    }

    fn evaluate_confirmation(&self, trip_state: &TripState, evidence: &Evidence) -> (r:
        StepAdvanceResult)
        ensures
            ({
                let (advances, next) = self.model().confirmed(
                    trip_state@,
                    evidence.model().movement(),
                );
                r@ == (advances, ConditionModel::UTurnConfirmation(next))
            }),
    {
        let location: UserLocation = match trip_state.user_location() {
            Some(location) => location,
            None => return Self::continue_with(self.cleared_movement_progress()),
        };
        if self.movement_anchor.is_none() {
            let mut next: Self = self.cleared_movement_progress();
            if self.is_valid_fix(&location) {
                next.movement_anchor = Some(location);
            }
            return Self::continue_with(next);
        }
        let mut next: Self = self.duplicate();
        next.movement_anchor = Some(location);
        match self.compare_movement(trip_state, evidence) {
            Agreement::Unknown => Self::continue_with(self.cleared_movement_progress()),
            Agreement::TooShort => Self::continue_with(self.duplicate()),
            Agreement::NextStep => {
                let count: u8 = if self.confirmation_count < 255 {
                    self.confirmation_count + 1
                } else {
                    255
                };
                if count >= self.required_confirmations {
                    return StepAdvanceResult {
                        should_advance: true,
                        next_iteration: self.new_instance(),
                    };
                }
                next.confirmation_count = count;
                Self::continue_with(next)
            },
            Agreement::CurrentStep => {
                next.confirmation_count = 0;
                Self::continue_with(next)
            },
            Agreement::Neither => Self::continue_with(next),
        }
    }

    /// Whether to advance, and the condition after that. A fix that was evaluated
    /// before changes nothing.
    pub fn should_advance_step(
        &self,
        trip_state: &TripState,
        evidence: &Evidence,
    ) -> (r: StepAdvanceResult)
        ensures
            r@ == decision(
                ConditionModel::UTurnConfirmation(self.model()),
                trip_state@,
                evidence.model(),
            ),
        decreases self,
    {
        if self.was_evaluated(trip_state) {
            return Self::continue_with(self.duplicate());
        }
        let mut evaluated: Self = self.duplicate();
        evaluated.last_evaluated_timestamp = match trip_state.user_location() {
            Some(location) => Some(location.timestamp),
            None => None,
        };
        assert(evaluated.model() == self.model().seeing(trip_state@));
        if self.required_confirmations == 0 {
            return StepAdvanceResult {
                should_advance: false,
                next_iteration: evaluated.new_instance(),
            };
        }
        if self.confirmation_active {
            return evaluated.evaluate_confirmation(trip_state, evidence);
        }
        let uturn: bool = self.uturn_confirmation_enabled && is_uturn(trip_state);
        let keeps: bool = self.candidate_successor.is_some() && match self.candidate_is_uturn {
            Some(kind) => kind == uturn,
            None => false,
        };
        assert(keeps == self.model().keeps_candidate(uturn));
        let fresh: StepAdvanceResult = if uturn {
            self.snapped_candidate().should_advance_step(trip_state, evidence)
        } else {
            self.ordinary_candidate().should_advance_step(trip_state, evidence)
        };
        let result: StepAdvanceResult = match &self.candidate_successor {
            Some(candidate) => if keeps {
                candidate.should_advance_step(trip_state, evidence)
            } else {
                fresh
            },
            None => fresh,
        };
        if result.should_advance && !uturn {
            return StepAdvanceResult {
                should_advance: true,
                next_iteration: evaluated.new_instance(),
            };
        }
        let mut next: Self = evaluated;
        let mut movement_anchor: Option<UserLocation> = None;
        if result.should_advance {
            if let Some(location) = trip_state.user_location() {
                if self.is_valid_fix(&location) {
                    movement_anchor = Some(location);
                }
            }
        }
        next.candidate_is_uturn = Some(uturn);
        next.candidate_successor = Some(result.next_iteration);
        next.confirmation_active = result.should_advance;
        next.movement_anchor = movement_anchor;
        next.confirmation_count = 0;
        Self::continue_with(next)
    }

    /// The condition without what it has seen but for the last fix.
    pub fn new_instance(&self) -> (r: Arc<StepCondition>)
        ensures
            r.model() == renewed(ConditionModel::UTurnConfirmation(self.model())),
    {
        let mut next: Self = self.duplicate();
        next.candidate_is_uturn = None;
        next.candidate_successor = None;
        next.confirmation_active = false;
        next.movement_anchor = None;
        next.confirmation_count = 0;
        Arc::new(StepCondition::UTurnConfirmation(next))
    }
}

/// How a movement compares with the steps that it may belong to.
enum Agreement {
    Unknown,
    TooShort,
    NextStep,
    CurrentStep,
    Neither,
}

impl Agreement {
    /// The comparison that it stands for.
    spec fn comparison(self) -> Comparison {
        match self {
            Agreement::Unknown => Comparison::Unknown,
            Agreement::TooShort => Comparison::TooShort,
            Agreement::NextStep => Comparison::NextStep,
            Agreement::CurrentStep => Comparison::CurrentStep,
            Agreement::Neither => Comparison::Neither,
        }
    }
}

} // verus!
