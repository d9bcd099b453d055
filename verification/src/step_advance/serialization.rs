//! Conditions as plain data that can be stored and handed over.
use std::sync::Arc;

use vstd::prelude::*;

use crate::models::UserLocation;
use crate::step_advance::conditions::{
    decision, models, part_decisions, renewed, successors, AndAdvanceConditions, ConditionModel, ConfirmationModel,
    DeviationCalculationPolicy, DistanceEntryAndExitCondition,
    DistanceEntryAndExitWithUTurnConfirmationCondition, DistanceEntryAndSnappedExitCondition,
    DistanceFromStepCondition, DistanceToEndOfStepCondition, EvidenceModel, ManualStepCondition,
    OrAdvanceConditions, StepCondition,
};
use crate::time::Timestamp;
use crate::trip::TripModel;

verus! {

/// A condition as plain data.
#[derive(PartialEq, Debug)]
pub enum SerializableStepAdvanceCondition {
    /// See `ManualStepCondition`.
    Manual,
    /// See `DistanceToEndOfStepCondition`.
    DistanceToEndOfStep {
        /// The metres to the end of the step.
        distance: u16,
        /// The accuracy that a fix must have.
        minimum_horizontal_accuracy: u16,
    },
    /// See `DistanceFromStepCondition`.
    DistanceFromStep {
        /// The metres from the line of the step.
        distance: u16,
        /// The accuracy that a fix must have.
        minimum_horizontal_accuracy: u16,
        /// When the condition may decide.
        calculation_policy: DeviationCalculationPolicy,
    },
    /// See `OrAdvanceConditions`.
    OrAdvanceConditions {
        /// The conditions.
        conditions: Vec<SerializableStepAdvanceCondition>,
    },
    /// See `AndAdvanceConditions`.
    AndAdvanceConditions {
        /// The conditions.
        conditions: Vec<SerializableStepAdvanceCondition>,
    },
    /// See `DistanceEntryAndExitCondition`.
    DistanceEntryExit {
        /// The metres within which the end is reached.
        distance_to_end_of_step: u16,
        /// The metres at which the end is left.
        distance_after_end_step: u16,
        /// The accuracy that a fix must have.
        minimum_horizontal_accuracy: u16,
        /// Whether the end has been reached.
        has_reached_end_of_current_step: bool,
    },
    /// See `DistanceEntryAndSnappedExitCondition`.
    DistanceEntryAndSnappedExit {
        /// The metres within which the end is reached.
        distance_to_end_of_step: u16,
        /// The metres at which the end is left.
        distance_after_end_step: u16,
        /// The accuracy that a fix must have.
        minimum_horizontal_accuracy: u16,
        /// Whether the end has been reached.
        has_reached_end_of_current_step: bool,
    },
    /// See `DistanceEntryAndExitWithUTurnConfirmationCondition`.
    DistanceEntryAndExitWithUTurnConfirmation {
        /// The metres within which the end is reached.
        distance_to_end_of_step: u16,
        /// The metres at which the end is left.
        distance_after_end_step: u16,
        /// The accuracy that a fix must have.
        minimum_horizontal_accuracy: u16,
        /// The metres of a movement that is judged.
        minimum_significant_movement: u16,
        /// The speed of a movement that is believed.
        maximum_plausible_speed: u16,
        /// The metres that a movement may be longer.
        plausibility_distance_allowance: u16,
        /// The number of movements that must agree.
        required_confirmations: u8,
        /// Whether U-turns are confirmed.
        uturn_confirmation_enabled: bool,
        /// Whether the candidate was chosen for a U-turn.
        candidate_is_uturn: Option<bool>,
        /// The condition that is being watched, where there is one.
        candidate_successor: Vec<SerializableStepAdvanceCondition>,
        /// Whether the movement is being watched.
        confirmation_active: bool,
        /// The fix from which the movement is judged.
        movement_anchor: Option<UserLocation>,
        /// The number of movements that have agreed.
        confirmation_count: u8,
        /// The last fix that was evaluated.
        last_evaluated_timestamp: Option<Timestamp>,
    },
}

/// What plain data of a condition holds.
pub enum SerialModel {
    /// See `ManualStepCondition`.
    Manual,
    /// See `DistanceToEndOfStepCondition`.
    DistanceToEndOfStep(DistanceToEndOfStepCondition),
    /// See `DistanceFromStepCondition`.
    DistanceFromStep(DistanceFromStepCondition),
    /// See `OrAdvanceConditions`.
    Or(Seq<SerialModel>),
    /// See `AndAdvanceConditions`.
    And(Seq<SerialModel>),
    /// See `DistanceEntryAndExitCondition`.
    EntryAndExit(DistanceEntryAndExitCondition),
    /// See `DistanceEntryAndSnappedExitCondition`.
    EntryAndSnappedExit(DistanceEntryAndSnappedExitCondition),
    /// The condition with U-turn confirmation without its candidate, and the
    /// candidates that are listed for it.
    UTurnConfirmation(ConfirmationModel, Seq<SerialModel>),
}

/// What a list of plain data holds.
pub open spec fn serial_models(list: Seq<SerializableStepAdvanceCondition>) -> Seq<SerialModel>
    decreases list,
{
    Seq::new(
        list.len(),
        |i: int|
            if 0 <= i < list.len() {
                list[i].model()
            } else {
                SerialModel::Manual
            },
    )
}

impl SerializableStepAdvanceCondition {
    /// What the data holds.
    pub open spec fn model(&self) -> SerialModel
        decreases self,
    {
        match self {
            SerializableStepAdvanceCondition::Manual => SerialModel::Manual,
            SerializableStepAdvanceCondition::DistanceToEndOfStep {
                distance,
                minimum_horizontal_accuracy,
            } => SerialModel::DistanceToEndOfStep(
                DistanceToEndOfStepCondition {
                    distance: *distance,
                    minimum_horizontal_accuracy: *minimum_horizontal_accuracy,
                },
            ),
            SerializableStepAdvanceCondition::DistanceFromStep {
                distance,
                minimum_horizontal_accuracy,
                calculation_policy,
            } => SerialModel::DistanceFromStep(
                DistanceFromStepCondition {
                    distance: *distance,
                    minimum_horizontal_accuracy: *minimum_horizontal_accuracy,
                    calculation_policy: *calculation_policy,
                },
            ),
            SerializableStepAdvanceCondition::OrAdvanceConditions { conditions } => SerialModel::Or(
                serial_models(conditions@),
            ),
            SerializableStepAdvanceCondition::AndAdvanceConditions { conditions } => {
                SerialModel::And(serial_models(conditions@))
            },
            SerializableStepAdvanceCondition::DistanceEntryExit {
                distance_to_end_of_step,
                distance_after_end_step,
                minimum_horizontal_accuracy,
                has_reached_end_of_current_step,
            } => SerialModel::EntryAndExit(
                DistanceEntryAndExitCondition {
                    distance_to_end_of_step: *distance_to_end_of_step,
                    distance_after_end_of_step: *distance_after_end_step,
                    minimum_horizontal_accuracy: *minimum_horizontal_accuracy,
                    has_reached_end_of_current_step: *has_reached_end_of_current_step,
                },
            ),
            SerializableStepAdvanceCondition::DistanceEntryAndSnappedExit {
                distance_to_end_of_step,
                distance_after_end_step,
                minimum_horizontal_accuracy,
                has_reached_end_of_current_step,
            } => SerialModel::EntryAndSnappedExit(
                DistanceEntryAndSnappedExitCondition {
                    distance_to_end_of_step: *distance_to_end_of_step,
                    distance_after_end_of_step: *distance_after_end_step,
                    minimum_horizontal_accuracy: *minimum_horizontal_accuracy,
                    has_reached_end_of_current_step: *has_reached_end_of_current_step,
                },
            ),
            SerializableStepAdvanceCondition::DistanceEntryAndExitWithUTurnConfirmation {
                distance_to_end_of_step,
                distance_after_end_step,
                minimum_horizontal_accuracy,
                minimum_significant_movement,
                maximum_plausible_speed,
                plausibility_distance_allowance,
                required_confirmations,
                uturn_confirmation_enabled,
                candidate_is_uturn,
                candidate_successor,
                confirmation_active,
                movement_anchor,
                confirmation_count,
                last_evaluated_timestamp,
            } => SerialModel::UTurnConfirmation(
                ConfirmationModel {
                    distance_to_end_of_step: *distance_to_end_of_step,
                    distance_after_end_of_step: *distance_after_end_step,
                    minimum_horizontal_accuracy: *minimum_horizontal_accuracy,
                    minimum_significant_movement: *minimum_significant_movement,
                    maximum_plausible_speed: *maximum_plausible_speed,
                    plausibility_distance_allowance: *plausibility_distance_allowance,
                    required_confirmations: *required_confirmations,
                    uturn_confirmation_enabled: *uturn_confirmation_enabled,
                    candidate_is_uturn: *candidate_is_uturn,
                    candidate_successor: None,
                    confirmation_active: *confirmation_active,
                    movement_anchor: *movement_anchor,
                    confirmation_count: *confirmation_count,
                    last_evaluated_timestamp: *last_evaluated_timestamp,
                },
                serial_models(candidate_successor@),
            ),
        }
    }
}

/// The plain data of conditions.
pub open spec fn all_serialized(conditions: Seq<ConditionModel>) -> Seq<SerialModel>
    decreases conditions,
{
    Seq::new(
        conditions.len(),
        |i: int|
            if 0 <= i < conditions.len() {
                serialized(conditions[i])
            } else {
                SerialModel::Manual
            },
    )
}

/// The plain data of a condition.
pub open spec fn serialized(condition: ConditionModel) -> SerialModel
    decreases condition,
{
    match condition {
        ConditionModel::Manual => SerialModel::Manual,
        ConditionModel::DistanceToEndOfStep(distance) => SerialModel::DistanceToEndOfStep(distance),
        ConditionModel::DistanceFromStep(distance) => SerialModel::DistanceFromStep(distance),
        ConditionModel::Or(parts) => SerialModel::Or(all_serialized(parts)),
        ConditionModel::And(parts) => SerialModel::And(all_serialized(parts)),
        ConditionModel::EntryAndExit(entry_exit) => SerialModel::EntryAndExit(entry_exit),
        ConditionModel::EntryAndSnappedExit(entry_exit) => SerialModel::EntryAndSnappedExit(
            entry_exit,
        ),
        ConditionModel::UTurnConfirmation(confirmation) => SerialModel::UTurnConfirmation(
            ConfirmationModel { candidate_successor: None, ..confirmation },
            match confirmation.candidate_successor {
                Some(candidate) => seq![serialized(*candidate)],
                None => Seq::empty(),
            },
        ),
    }
}

/// Whether a listed candidate is the one that a condition with U-turn confirmation
/// watches in its current kind.
pub open spec fn is_candidate(confirmation: ConfirmationModel, candidate: SerialModel) -> bool {
    match (confirmation.candidate_is_uturn, candidate) {
        (Some(true), SerialModel::EntryAndSnappedExit(entry_exit)) => entry_exit
            == confirmation.snapped().reached(entry_exit.has_reached_end_of_current_step),
        (Some(false), SerialModel::EntryAndExit(entry_exit)) => entry_exit
            == confirmation.ordinary().reached(entry_exit.has_reached_end_of_current_step),
        _ => false,
    }
}

/// Whether what a condition with U-turn confirmation has seen fits together: a kind
/// with exactly one candidate of that kind, a U-turn only where those are confirmed,
/// a watched movement only at a U-turn, and a movement only while it is watched.
pub open spec fn fits_together(
    confirmation: ConfirmationModel,
    candidates: Seq<SerialModel>,
) -> bool {
    &&& match confirmation.candidate_is_uturn {
        Some(uturn) => candidates.len() == 1 && is_candidate(confirmation, candidates[0]) && (uturn
            ==> confirmation.uturn_confirmation_enabled),
        None => candidates.len() == 0,
    }
    &&& confirmation.confirmation_active ==> confirmation.candidate_is_uturn == Some(true)
    &&& !confirmation.confirmation_active ==> confirmation.movement_anchor is None
        && confirmation.confirmation_count == 0
}

/// The conditions of plain data.
pub open spec fn all_restored(list: Seq<SerialModel>) -> Seq<ConditionModel>
    decreases list,
{
    Seq::new(
        list.len(),
        |i: int|
            if 0 <= i < list.len() {
                restored(list[i])
            } else {
                ConditionModel::Manual
            },
    )
}

/// The condition of plain data. What a condition with U-turn confirmation has seen is
/// dropped where it does not fit together.
pub open spec fn restored(data: SerialModel) -> ConditionModel
    decreases data,
{
    match data {
        SerialModel::Manual => ConditionModel::Manual,
        SerialModel::DistanceToEndOfStep(distance) => ConditionModel::DistanceToEndOfStep(distance),
        SerialModel::DistanceFromStep(distance) => ConditionModel::DistanceFromStep(distance),
        SerialModel::Or(parts) => ConditionModel::Or(all_restored(parts)),
        SerialModel::And(parts) => ConditionModel::And(all_restored(parts)),
        SerialModel::EntryAndExit(entry_exit) => ConditionModel::EntryAndExit(entry_exit),
        SerialModel::EntryAndSnappedExit(entry_exit) => ConditionModel::EntryAndSnappedExit(
            entry_exit,
        ),
        SerialModel::UTurnConfirmation(confirmation, candidates) => {
            ConditionModel::UTurnConfirmation(
                if fits_together(confirmation, candidates) {
                    ConfirmationModel {
                        candidate_successor: if candidates.len() == 1 {
                            match candidates[0] {
                                SerialModel::EntryAndExit(entry_exit) => Some(
                                    Box::new(ConditionModel::EntryAndExit(entry_exit)),
                                ),
                                SerialModel::EntryAndSnappedExit(entry_exit) => Some(
                                    Box::new(ConditionModel::EntryAndSnappedExit(entry_exit)),
                                ),
                                _ => None,
                            }
                        } else {
                            None
                        },
                        ..confirmation
                    }
                } else {
                    confirmation.fresh()
                },
            )
        },
    }
}

impl ManualStepCondition {
    /// The condition as plain data.
    pub fn to_js(&self) -> (r: SerializableStepAdvanceCondition)
        ensures
            r.model() == serialized(ConditionModel::Manual),
    {
        SerializableStepAdvanceCondition::Manual
    }
}

impl DistanceToEndOfStepCondition {
    /// The condition as plain data.
    pub fn to_js(&self) -> (r: SerializableStepAdvanceCondition)
        ensures
            r.model() == serialized(ConditionModel::DistanceToEndOfStep(*self)),
    {
        SerializableStepAdvanceCondition::DistanceToEndOfStep {
            distance: self.distance,
            minimum_horizontal_accuracy: self.minimum_horizontal_accuracy,
        }
    }
}

impl DistanceFromStepCondition {
    /// The condition as plain data.
    pub fn to_js(&self) -> (r: SerializableStepAdvanceCondition)
        ensures
            r.model() == serialized(ConditionModel::DistanceFromStep(*self)),
    {
        SerializableStepAdvanceCondition::DistanceFromStep {
            distance: self.distance,
            minimum_horizontal_accuracy: self.minimum_horizontal_accuracy,
            calculation_policy: self.calculation_policy,
        }
    }
}

impl OrAdvanceConditions {
    /// The condition as plain data.
    pub fn to_js(&self) -> (r: SerializableStepAdvanceCondition)
        ensures
            r.model() == serialized(ConditionModel::Or(models(self.conditions@))),
        decreases self,
    {
        let mut conditions: Vec<SerializableStepAdvanceCondition> = Vec::new();
        let mut i: usize = 0;
        while i < self.conditions.len()
            invariant
                i <= self.conditions.len(),
                conditions.len() == i,
                forall|k: int|
                    0 <= k < i ==> (#[trigger] conditions@[k]).model() == serialized(
                        models(self.conditions@)[k],
                    ),
            decreases self.conditions.len() - i,
        {
            assert(decreases_to!(self => self.conditions@[i as int]));
            conditions.push(self.conditions[i].to_js());
            i = i + 1;
        }
        assert(serial_models(conditions@) =~= all_serialized(models(self.conditions@)));
        SerializableStepAdvanceCondition::OrAdvanceConditions { conditions }
    }
}

impl AndAdvanceConditions {
    /// The condition as plain data.
    pub fn to_js(&self) -> (r: SerializableStepAdvanceCondition)
        ensures
            r.model() == serialized(ConditionModel::And(models(self.conditions@))),
        decreases self,
    {
        let mut conditions: Vec<SerializableStepAdvanceCondition> = Vec::new();
        let mut i: usize = 0;
        while i < self.conditions.len()
            invariant
                i <= self.conditions.len(),
                conditions.len() == i,
                forall|k: int|
                    0 <= k < i ==> (#[trigger] conditions@[k]).model() == serialized(
                        models(self.conditions@)[k],
                    ),
            decreases self.conditions.len() - i,
        {
            assert(decreases_to!(self => self.conditions@[i as int]));
            conditions.push(self.conditions[i].to_js());
            i = i + 1;
        }
        assert(serial_models(conditions@) =~= all_serialized(models(self.conditions@)));
        SerializableStepAdvanceCondition::AndAdvanceConditions { conditions }
    }
}

impl DistanceEntryAndExitCondition {
    /// The condition as plain data.
    pub fn to_js(&self) -> (r: SerializableStepAdvanceCondition)
        ensures
            r.model() == serialized(ConditionModel::EntryAndExit(*self)),
    {
        SerializableStepAdvanceCondition::DistanceEntryExit {
            distance_to_end_of_step: self.distance_to_end_of_step,
            distance_after_end_step: self.distance_after_end_of_step,
            minimum_horizontal_accuracy: self.minimum_horizontal_accuracy,
            has_reached_end_of_current_step: self.has_reached_end_of_current_step,
        }
    }
}

impl DistanceEntryAndSnappedExitCondition {
    /// The condition as plain data.
    pub fn to_js(&self) -> (r: SerializableStepAdvanceCondition)
        ensures
            r.model() == serialized(ConditionModel::EntryAndSnappedExit(*self)),
    {
        SerializableStepAdvanceCondition::DistanceEntryAndSnappedExit {
            distance_to_end_of_step: self.distance_to_end_of_step,
            distance_after_end_step: self.distance_after_end_of_step,
            minimum_horizontal_accuracy: self.minimum_horizontal_accuracy,
            has_reached_end_of_current_step: self.has_reached_end_of_current_step,
        }
    }
}

impl DistanceEntryAndExitWithUTurnConfirmationCondition {
    /// The condition as plain data.
    pub fn to_js(&self) -> (r: SerializableStepAdvanceCondition)
        ensures
            r.model() == serialized(ConditionModel::UTurnConfirmation(self.model())),
        decreases self,
    {
        let mut candidate_successor: Vec<SerializableStepAdvanceCondition> = Vec::new();
        if let Some(candidate) = &self.candidate_successor {
            candidate_successor.push(candidate.to_js());
        }
        let ghost listed = serialized(
            ConditionModel::UTurnConfirmation(self.model()),
        )->UTurnConfirmation_1;
        assert(serial_models(candidate_successor@) =~= listed);
        SerializableStepAdvanceCondition::DistanceEntryAndExitWithUTurnConfirmation {
            distance_to_end_of_step: self.distance_to_end_of_step,
            distance_after_end_step: self.distance_after_end_of_step,
            minimum_horizontal_accuracy: self.minimum_horizontal_accuracy,
            minimum_significant_movement: self.minimum_significant_movement,
            maximum_plausible_speed: self.maximum_plausible_speed,
            plausibility_distance_allowance: self.plausibility_distance_allowance,
            required_confirmations: self.required_confirmations,
            uturn_confirmation_enabled: self.uturn_confirmation_enabled,
            candidate_is_uturn: self.candidate_is_uturn,
            candidate_successor,
            confirmation_active: self.confirmation_active,
            movement_anchor: self.movement_anchor,
            confirmation_count: self.confirmation_count,
            last_evaluated_timestamp: self.last_evaluated_timestamp,
        }
    }
}

impl StepCondition {
    /// The condition as plain data.
    pub fn to_js(&self) -> (r: SerializableStepAdvanceCondition)
        ensures
            r.model() == serialized(self.model()),
        decreases self,
    {
        match self {
            StepCondition::Manual(condition) => condition.to_js(),
            StepCondition::DistanceToEndOfStep(condition) => condition.to_js(),
            StepCondition::DistanceFromStep(condition) => condition.to_js(),
            StepCondition::Or(condition) => condition.to_js(),
            StepCondition::And(condition) => condition.to_js(),
            StepCondition::EntryAndExit(condition) => condition.to_js(),
            StepCondition::EntryAndSnappedExit(condition) => condition.to_js(),
            StepCondition::UTurnConfirmation(condition) => condition.to_js(),
        }
    }
}

/// The conditions of a list of plain data.
fn restored_list(list: &Vec<SerializableStepAdvanceCondition>) -> (r: Vec<Arc<StepCondition>>)
    ensures
        models(r@) == all_restored(serial_models(list@)),
    decreases list,
{
    let mut conditions: Vec<Arc<StepCondition>> = Vec::new();
    let mut i: usize = 0;
    while i < list.len()
        invariant
            i <= list.len(),
            conditions.len() == i,
            forall|k: int|
                0 <= k < i ==> (#[trigger] conditions@[k]).model() == restored(
                    serial_models(list@)[k],
                ),
        decreases list.len() - i,
    {
        assert(decreases_to!(list => list@[i as int]));
        conditions.push(list[i].restore());
        i = i + 1;
    }
    assert(models(conditions@) =~= all_restored(serial_models(list@)));
    conditions
}

impl SerializableStepAdvanceCondition {
    /// The candidate that a condition with U-turn confirmation watches in its current
    /// kind, where the data is one.
    fn candidate_of(
        &self,
        condition: &DistanceEntryAndExitWithUTurnConfirmationCondition,
    ) -> (r: Option<Arc<StepCondition>>)
        ensures
            r is Some <==> is_candidate(condition.model(), self.model()),
            r is Some ==> match self.model() {
                SerialModel::EntryAndExit(entry_exit) => r->0.model()
                    == ConditionModel::EntryAndExit(entry_exit),
                SerialModel::EntryAndSnappedExit(entry_exit) => r->0.model()
                    == ConditionModel::EntryAndSnappedExit(entry_exit),
                _ => false,
            },
    {
        match self {
            SerializableStepAdvanceCondition::DistanceEntryExit {
                distance_to_end_of_step,
                distance_after_end_step,
                minimum_horizontal_accuracy,
                has_reached_end_of_current_step,
            } => {
                let entry_exit: DistanceEntryAndExitCondition = DistanceEntryAndExitCondition {
                    distance_to_end_of_step: *distance_to_end_of_step,
                    distance_after_end_of_step: *distance_after_end_step,
                    minimum_horizontal_accuracy: *minimum_horizontal_accuracy,
                    has_reached_end_of_current_step: *has_reached_end_of_current_step,
                };
                let expected: DistanceEntryAndExitCondition = DistanceEntryAndExitCondition {
                    distance_to_end_of_step: condition.distance_to_end_of_step,
                    distance_after_end_of_step: condition.distance_after_end_of_step,
                    minimum_horizontal_accuracy: condition.minimum_horizontal_accuracy,
                    has_reached_end_of_current_step: *has_reached_end_of_current_step,
                };
                match condition.candidate_is_uturn {
                    Some(uturn) => if !uturn && entry_exit == expected {
                        Some(Arc::new(StepCondition::EntryAndExit(entry_exit)))
                    } else {
                        None
                    },
                    None => None,
                }
            },
            SerializableStepAdvanceCondition::DistanceEntryAndSnappedExit {
                distance_to_end_of_step,
                distance_after_end_step,
                minimum_horizontal_accuracy,
                has_reached_end_of_current_step,
            } => {
                let entry_exit: DistanceEntryAndSnappedExitCondition =
                    DistanceEntryAndSnappedExitCondition {
                    distance_to_end_of_step: *distance_to_end_of_step,
                    distance_after_end_of_step: *distance_after_end_step,
                    minimum_horizontal_accuracy: *minimum_horizontal_accuracy,
                    has_reached_end_of_current_step: *has_reached_end_of_current_step,
                };
                let expected: DistanceEntryAndSnappedExitCondition =
                    DistanceEntryAndSnappedExitCondition {
                    distance_to_end_of_step: condition.distance_to_end_of_step,
                    distance_after_end_of_step: condition.distance_after_end_of_step,
                    minimum_horizontal_accuracy: condition.minimum_horizontal_accuracy,
                    has_reached_end_of_current_step: *has_reached_end_of_current_step,
                };
                match condition.candidate_is_uturn {
                    Some(uturn) => if uturn && entry_exit == expected {
                        Some(Arc::new(StepCondition::EntryAndSnappedExit(entry_exit)))
                    } else {
                        None
                    },
                    None => None,
                }
            },
            _ => None,
        }
    }

    /// The condition of the data. What a condition with U-turn confirmation has seen is
    /// dropped where it does not fit together.
    pub fn restore(&self) -> (r: Arc<StepCondition>)
        ensures
            r.model() == restored(self.model()),
        decreases self,
    {
        match self {
            SerializableStepAdvanceCondition::Manual => Arc::new(
                StepCondition::Manual(ManualStepCondition),
            ),
            SerializableStepAdvanceCondition::DistanceToEndOfStep {
                distance,
                minimum_horizontal_accuracy,
            } => Arc::new(
                StepCondition::DistanceToEndOfStep(
                    DistanceToEndOfStepCondition {
                        distance: *distance,
                        minimum_horizontal_accuracy: *minimum_horizontal_accuracy,
                    },
                ),
            ),
            SerializableStepAdvanceCondition::DistanceFromStep {
                distance,
                minimum_horizontal_accuracy,
                calculation_policy,
            } => Arc::new(
                StepCondition::DistanceFromStep(
                    DistanceFromStepCondition {
                        distance: *distance,
                        minimum_horizontal_accuracy: *minimum_horizontal_accuracy,
                        calculation_policy: *calculation_policy,
                    },
                ),
            ),
            SerializableStepAdvanceCondition::OrAdvanceConditions { conditions } => Arc::new(
                StepCondition::Or(OrAdvanceConditions { conditions: restored_list(conditions) }),
            ),
            SerializableStepAdvanceCondition::AndAdvanceConditions { conditions } => Arc::new(
                StepCondition::And(AndAdvanceConditions { conditions: restored_list(conditions) }),
            ),
            SerializableStepAdvanceCondition::DistanceEntryExit {
                distance_to_end_of_step,
                distance_after_end_step,
                minimum_horizontal_accuracy,
                has_reached_end_of_current_step,
            } => Arc::new(
                StepCondition::EntryAndExit(
                    DistanceEntryAndExitCondition {
                        distance_to_end_of_step: *distance_to_end_of_step,
                        distance_after_end_of_step: *distance_after_end_step,
                        minimum_horizontal_accuracy: *minimum_horizontal_accuracy,
                        has_reached_end_of_current_step: *has_reached_end_of_current_step,
                    },
                ),
            ),
            SerializableStepAdvanceCondition::DistanceEntryAndSnappedExit {
                distance_to_end_of_step,
                distance_after_end_step,
                minimum_horizontal_accuracy,
                has_reached_end_of_current_step,
            } => Arc::new(
                StepCondition::EntryAndSnappedExit(
                    DistanceEntryAndSnappedExitCondition {
                        distance_to_end_of_step: *distance_to_end_of_step,
                        distance_after_end_of_step: *distance_after_end_step,
                        minimum_horizontal_accuracy: *minimum_horizontal_accuracy,
                        has_reached_end_of_current_step: *has_reached_end_of_current_step,
                    },
                ),
            ),
            SerializableStepAdvanceCondition::DistanceEntryAndExitWithUTurnConfirmation {
                distance_to_end_of_step,
                distance_after_end_step,
                minimum_horizontal_accuracy,
                minimum_significant_movement,
                maximum_plausible_speed,
                plausibility_distance_allowance,
                required_confirmations,
                uturn_confirmation_enabled,
                candidate_is_uturn,
                candidate_successor,
                confirmation_active,
                movement_anchor,
                confirmation_count,
                last_evaluated_timestamp,
            } => {
                let mut condition: DistanceEntryAndExitWithUTurnConfirmationCondition =
                    DistanceEntryAndExitWithUTurnConfirmationCondition {
                    distance_to_end_of_step: *distance_to_end_of_step,
                    distance_after_end_of_step: *distance_after_end_step,
                    minimum_horizontal_accuracy: *minimum_horizontal_accuracy,
                    minimum_significant_movement: *minimum_significant_movement,
                    maximum_plausible_speed: *maximum_plausible_speed,
                    plausibility_distance_allowance: *plausibility_distance_allowance,
                    required_confirmations: *required_confirmations,
                    uturn_confirmation_enabled: *uturn_confirmation_enabled,
                    candidate_is_uturn: *candidate_is_uturn,
                    candidate_successor: None,
                    confirmation_active: *confirmation_active,
                    movement_anchor: *movement_anchor,
                    confirmation_count: *confirmation_count,
                    last_evaluated_timestamp: *last_evaluated_timestamp,
                };
                let candidate: Option<Arc<StepCondition>> = if candidate_successor.len() == 1 {
                    candidate_successor[0].candidate_of(&condition)
                } else {
                    None
                };
                let at_uturn: bool = match condition.candidate_is_uturn {
                    Some(uturn) => uturn,
                    None => false,
                };
                let kind_fits: bool = match condition.candidate_is_uturn {
                    Some(uturn) => candidate.is_some() && (!uturn
                        || condition.uturn_confirmation_enabled),
                    None => candidate_successor.len() == 0,
                };
                let movement_fits: bool = if condition.confirmation_active {
                    at_uturn
                } else {
                    condition.movement_anchor.is_none() && condition.confirmation_count == 0
                };
                assert((kind_fits && movement_fits) == fits_together(
                    condition.model(),
                    serial_models(candidate_successor@),
                ));
                if kind_fits && movement_fits {
                    condition.candidate_successor = candidate;
                    Arc::new(StepCondition::UTurnConfirmation(condition))
                } else {
                    condition.new_instance()
                }
            },
        }
    }
}

/// Whether all that a condition and its parts have seen fits together.
pub open spec fn sound(condition: ConditionModel) -> bool
    decreases condition,
{
    match condition {
        ConditionModel::Or(parts) => forall|i: int|
            0 <= i < parts.len() ==> sound(#[trigger] parts[i]),
        ConditionModel::And(parts) => forall|i: int|
            0 <= i < parts.len() ==> sound(#[trigger] parts[i]),
        ConditionModel::UTurnConfirmation(confirmation) => fits_together(
            confirmation,
            match confirmation.candidate_successor {
                Some(candidate) => seq![serialized(*candidate)],
                None => Seq::empty(),
            },
        ),
        _ => true,
    }
}

/// A sound condition comes back as it was from its plain data.
pub proof fn law_restoring_gives_back(condition: ConditionModel)
    requires
        sound(condition),
    ensures
        restored(serialized(condition)) == condition,
    decreases condition,
{
    match condition {
        ConditionModel::Or(parts) => {
            assert forall|i: int| 0 <= i < parts.len() implies restored(serialized(parts[i]))
                == parts[i] by {
                law_restoring_gives_back(parts[i]);
            }
            assert(all_restored(all_serialized(parts)) =~= parts);
        },
        ConditionModel::And(parts) => {
            assert forall|i: int| 0 <= i < parts.len() implies restored(serialized(parts[i]))
                == parts[i] by {
                law_restoring_gives_back(parts[i]);
            }
            assert(all_restored(all_serialized(parts)) =~= parts);
        },
        ConditionModel::UTurnConfirmation(confirmation) => {
            match confirmation.candidate_successor {
                Some(candidate) => {
                    let listed = seq![serialized(*candidate)];
                    assert(listed[0] == serialized(*candidate));
                },
                None => {},
            }
        },
        _ => {},
    }
}

/// Whatever data is restored, the condition is sound.
pub proof fn law_restored_is_sound(data: SerialModel)
    ensures
        sound(restored(data)),
    decreases data,
{
    match data {
        SerialModel::Or(parts) => {
            assert forall|i: int| 0 <= i < parts.len() implies sound(
                #[trigger] all_restored(parts)[i],
            ) by {
                law_restored_is_sound(parts[i]);
            }
            assert(restored(data) == ConditionModel::Or(all_restored(parts)));
        },
        SerialModel::And(parts) => {
            assert forall|i: int| 0 <= i < parts.len() implies sound(
                #[trigger] all_restored(parts)[i],
            ) by {
                law_restored_is_sound(parts[i]);
            }
            assert(restored(data) == ConditionModel::And(all_restored(parts)));
        },
        SerialModel::UTurnConfirmation(confirmation, candidates) => {
            if fits_together(confirmation, candidates) && candidates.len() == 1 {
                let after = restored(data)->UTurnConfirmation_0;
                let listed = seq![serialized(*after.candidate_successor->0)];
                assert(listed[0] == candidates[0]);
            }
        },
        _ => {},
    }
}

/// A renewed condition is sound.
pub proof fn law_renewed_is_sound(condition: ConditionModel)
    ensures
        sound(renewed(condition)),
    decreases condition,
{
    match condition {
        ConditionModel::Or(parts) => {
            assert forall|i: int| 0 <= i < parts.len() implies sound(
                #[trigger] renewed(condition)->Or_0[i],
            ) by {
                law_renewed_is_sound(parts[i]);
            }
        },
        ConditionModel::And(parts) => {
            assert forall|i: int| 0 <= i < parts.len() implies sound(
                #[trigger] renewed(condition)->And_0[i],
            ) by {
                law_renewed_is_sound(parts[i]);
            }
        },
        _ => {},
    }
}

/// A sound condition stays sound whatever it decides, so that every condition that a
/// trip leads to comes back from its plain data.
pub proof fn law_deciding_keeps_sound(
    condition: ConditionModel,
    trip: TripModel,
    evidence: EvidenceModel,
)
    requires
        sound(condition),
    ensures
        sound(decision(condition, trip, evidence).1),
    decreases condition,
{
    let after = decision(condition, trip, evidence).1;
    match condition {
        ConditionModel::Or(parts) => {
            law_renewed_is_sound(condition);
            if !decision(condition, trip, evidence).0 {
                let results = part_decisions(parts, trip, evidence);
                assert forall|i: int| 0 <= i < parts.len() implies sound(
                    #[trigger] successors(results)[i],
                ) by {
                    law_deciding_keeps_sound(parts[i], trip, evidence.part(i));
                    assert(results[i] == decision(parts[i], trip, evidence.part(i)));
                }
                assert(after == ConditionModel::Or(successors(results)));
            }
        },
        ConditionModel::And(parts) => {
            law_renewed_is_sound(condition);
            if !decision(condition, trip, evidence).0 {
                let results = part_decisions(parts, trip, evidence);
                assert forall|i: int| 0 <= i < parts.len() implies sound(
                    #[trigger] successors(results)[i],
                ) by {
                    law_deciding_keeps_sound(parts[i], trip, evidence.part(i));
                    assert(results[i] == decision(parts[i], trip, evidence.part(i)));
                }
                assert(after == ConditionModel::And(successors(results)));
            }
        },
        ConditionModel::UTurnConfirmation(confirmation) => {
            let next = after->UTurnConfirmation_0;
            if confirmation.candidate_successor is Some {
                let candidate = *confirmation.candidate_successor->0;
                let before = seq![serialized(candidate)];
                assert(before[0] == serialized(candidate));
                match candidate {
                    ConditionModel::EntryAndExit(entry_exit) => {
                        assert(decision(candidate, trip, evidence).1
                            == ConditionModel::EntryAndExit(entry_exit.decided(trip, evidence).1));
                    },
                    ConditionModel::EntryAndSnappedExit(entry_exit) => {
                        assert(decision(candidate, trip, evidence).1
                            == ConditionModel::EntryAndSnappedExit(
                            entry_exit.decided(trip, evidence).1,
                        ));
                    },
                    _ => {},
                }
            }
            if next.candidate_successor is Some {
                let listed = seq![serialized(*next.candidate_successor->0)];
                assert(listed[0] == serialized(*next.candidate_successor->0));
            }
        },
        _ => {},
    }
}

} // verus!
