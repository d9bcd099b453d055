//! What holds of conditions as plain data and of what conditions are seen to hold.
use vstd::prelude::*;

use crate::step_advance::conditions::{
    ConditionModel, ConfirmationModel, DistanceEntryAndExitWithUTurnConfirmationCondition, Evidence,
    EvidenceModel, Inquiry, InquiryModel, StepCondition,
};
use crate::step_advance::serialization::{
    all_serialized, fits_together, restored, serialized, SerialModel,
    SerializableStepAdvanceCondition,
};

verus! {

/// Whether a condition with U-turn confirmation has the settings of another.
pub open spec fn has_settings_of(a: ConfirmationModel, b: ConfirmationModel) -> bool {
    &&& a.distance_to_end_of_step == b.distance_to_end_of_step
    &&& a.distance_after_end_of_step == b.distance_after_end_of_step
    &&& a.minimum_horizontal_accuracy == b.minimum_horizontal_accuracy
    &&& a.minimum_significant_movement == b.minimum_significant_movement
    &&& a.maximum_plausible_speed == b.maximum_plausible_speed
    &&& a.plausibility_distance_allowance == b.plausibility_distance_allowance
    &&& a.required_confirmations == b.required_confirmations
    &&& a.uturn_confirmation_enabled == b.uturn_confirmation_enabled
}

/// Plain data of a condition on distances holds its metres, its accuracy, its policy and
/// whether the end was reached, each as its own.
pub proof fn law_plain_data_holds_its_fields(data: SerializableStepAdvanceCondition)
    ensures
        match data {
            SerializableStepAdvanceCondition::Manual => data.model() == SerialModel::Manual,
            SerializableStepAdvanceCondition::DistanceToEndOfStep {
                distance,
                minimum_horizontal_accuracy,
            } => {
                &&& data.model() is DistanceToEndOfStep
                &&& data.model()->DistanceToEndOfStep_0.distance == distance
                &&& data.model()->DistanceToEndOfStep_0.minimum_horizontal_accuracy
                    == minimum_horizontal_accuracy
            },
            SerializableStepAdvanceCondition::DistanceFromStep {
                distance,
                minimum_horizontal_accuracy,
                calculation_policy,
            } => {
                &&& data.model() is DistanceFromStep
                &&& data.model()->DistanceFromStep_0.distance == distance
                &&& data.model()->DistanceFromStep_0.minimum_horizontal_accuracy
                    == minimum_horizontal_accuracy
                &&& data.model()->DistanceFromStep_0.calculation_policy == calculation_policy
            },
            SerializableStepAdvanceCondition::DistanceEntryExit {
                distance_to_end_of_step,
                distance_after_end_step,
                minimum_horizontal_accuracy,
                has_reached_end_of_current_step,
            } => {
                let held = data.model()->EntryAndExit_0;
                &&& data.model() is EntryAndExit
                &&& held.distance_to_end_of_step == distance_to_end_of_step
                &&& held.distance_after_end_of_step == distance_after_end_step
                &&& held.minimum_horizontal_accuracy == minimum_horizontal_accuracy
                &&& held.has_reached_end_of_current_step == has_reached_end_of_current_step
            },
            SerializableStepAdvanceCondition::DistanceEntryAndSnappedExit {
                distance_to_end_of_step,
                distance_after_end_step,
                minimum_horizontal_accuracy,
                has_reached_end_of_current_step,
            } => {
                let held = data.model()->EntryAndSnappedExit_0;
                &&& data.model() is EntryAndSnappedExit
                &&& held.distance_to_end_of_step == distance_to_end_of_step
                &&& held.distance_after_end_of_step == distance_after_end_step
                &&& held.minimum_horizontal_accuracy == minimum_horizontal_accuracy
                &&& held.has_reached_end_of_current_step == has_reached_end_of_current_step
            },
            SerializableStepAdvanceCondition::OrAdvanceConditions { conditions } => {
                &&& data.model() is Or
                &&& data.model()->Or_0.len() == conditions@.len()
                &&& forall|i: int|
                    0 <= i < conditions@.len() ==> #[trigger] data.model()->Or_0[i]
                        == conditions@[i].model()
            },
            SerializableStepAdvanceCondition::AndAdvanceConditions { conditions } => {
                &&& data.model() is And
                &&& data.model()->And_0.len() == conditions@.len()
                &&& forall|i: int|
                    0 <= i < conditions@.len() ==> #[trigger] data.model()->And_0[i]
                        == conditions@[i].model()
            },
            _ => true,
        },
{
}

/// Plain data of a condition with U-turn confirmation holds its settings and what it has seen,
/// each as its own, beside its listed candidates.
pub proof fn law_plain_data_holds_a_confirmation(data: SerializableStepAdvanceCondition)
    ensures
        data matches SerializableStepAdvanceCondition::DistanceEntryAndExitWithUTurnConfirmation {
            distance_to_end_of_step,
            distance_after_end_step,
            minimum_horizontal_accuracy,
            minimum_significant_movement,
            maximum_plausible_speed,
            plausibility_distance_allowance,
            required_confirmations,
            uturn_confirmation_enabled,
            candidate_is_uturn,
            candidate_successor,
            confirmation_active,
            movement_anchor,
            confirmation_count,
            last_evaluated_timestamp,
        } ==> {
            let held = data.model()->UTurnConfirmation_0;
            let listed = data.model()->UTurnConfirmation_1;
            &&& data.model() is UTurnConfirmation
            &&& held.distance_to_end_of_step == distance_to_end_of_step
            &&& held.distance_after_end_of_step == distance_after_end_step
            &&& held.minimum_horizontal_accuracy == minimum_horizontal_accuracy
            &&& held.minimum_significant_movement == minimum_significant_movement
            &&& held.maximum_plausible_speed == maximum_plausible_speed
            &&& held.plausibility_distance_allowance == plausibility_distance_allowance
            &&& held.required_confirmations == required_confirmations
            &&& held.uturn_confirmation_enabled == uturn_confirmation_enabled
            &&& held.candidate_is_uturn == candidate_is_uturn
            &&& held.confirmation_active == confirmation_active
            &&& held.movement_anchor == movement_anchor
            &&& held.confirmation_count == confirmation_count
            &&& held.last_evaluated_timestamp == last_evaluated_timestamp
            &&& listed.len() == candidate_successor@.len()
            &&& forall|i: int|
                0 <= i < listed.len() ==> #[trigger] listed[i] == candidate_successor@[i].model()
        },
{
}

/// A condition is stored as data of its own kind with its own settings, a composite one part
/// by part, and one with U-turn confirmation with the watched condition listed beside it.
pub proof fn law_conditions_are_stored_as_they_are(condition: ConditionModel)
    ensures
        match condition {
            ConditionModel::Manual => serialized(condition) == SerialModel::Manual,
            ConditionModel::DistanceToEndOfStep(it) => serialized(condition)
                == SerialModel::DistanceToEndOfStep(it),
            ConditionModel::DistanceFromStep(it) => serialized(condition)
                == SerialModel::DistanceFromStep(it),
            ConditionModel::EntryAndExit(it) => serialized(condition) == SerialModel::EntryAndExit(
                it,
            ),
            ConditionModel::EntryAndSnappedExit(it) => serialized(condition)
                == SerialModel::EntryAndSnappedExit(it),
            ConditionModel::Or(parts) => {
                &&& serialized(condition) is Or
                &&& serialized(condition)->Or_0.len() == parts.len()
                &&& forall|i: int|
                    0 <= i < parts.len() ==> #[trigger] serialized(condition)->Or_0[i]
                        == serialized(parts[i])
            },
            ConditionModel::And(parts) => {
                &&& serialized(condition) is And
                &&& serialized(condition)->And_0.len() == parts.len()
                &&& forall|i: int|
                    0 <= i < parts.len() ==> #[trigger] serialized(condition)->And_0[i]
                        == serialized(parts[i])
            },
            ConditionModel::UTurnConfirmation(it) => {
                let held = serialized(condition)->UTurnConfirmation_0;
                let listed = serialized(condition)->UTurnConfirmation_1;
                &&& serialized(condition) is UTurnConfirmation
                &&& has_settings_of(held, it)
                &&& held.candidate_is_uturn == it.candidate_is_uturn
                &&& held.confirmation_active == it.confirmation_active
                &&& held.movement_anchor == it.movement_anchor
                &&& held.confirmation_count == it.confirmation_count
                &&& held.last_evaluated_timestamp == it.last_evaluated_timestamp
                &&& it.candidate_successor is None ==> listed.len() == 0
                &&& it.candidate_successor is Some ==> listed.len() == 1 && listed[0] == serialized(
                    *it.candidate_successor->0,
                )
            },
        },
{
    match condition {
        ConditionModel::Or(parts) => {
            assert(serialized(condition)->Or_0 == all_serialized(parts));
        },
        ConditionModel::And(parts) => {
            assert(serialized(condition)->And_0 == all_serialized(parts));
        },
        _ => {},
    }
}

/// What a condition with U-turn confirmation has seen fits together where it watches nothing,
/// or watches exactly one condition with its own metres and accuracy: outside a U-turn one
/// that is left by the step, and at a U-turn, where those are confirmed, one that is left on
/// the line. Only at a U-turn is a movement watched, and only then is one known.
pub proof fn law_what_was_seen_fits_together(
    confirmation: ConfirmationModel,
    listed: Seq<SerialModel>,
)
    ensures
        ({
            let metres = confirmation.distance_to_end_of_step;
            let after = confirmation.distance_after_end_of_step;
            let accuracy = confirmation.minimum_horizontal_accuracy;
            fits_together(confirmation, listed) <==> {
                &&& match confirmation.candidate_is_uturn {
                    None => listed.len() == 0,
                    Some(uturn) => {
                        &&& listed.len() == 1
                        &&& match listed[0] {
                            SerialModel::EntryAndExit(it) => {
                                &&& !uturn
                                &&& it.distance_to_end_of_step == metres
                                &&& it.distance_after_end_of_step == after
                                &&& it.minimum_horizontal_accuracy == accuracy
                            },
                            SerialModel::EntryAndSnappedExit(it) => {
                                &&& uturn
                                &&& confirmation.uturn_confirmation_enabled
                                &&& it.distance_to_end_of_step == metres
                                &&& it.distance_after_end_of_step == after
                                &&& it.minimum_horizontal_accuracy == accuracy
                            },
                            _ => false,
                        }
                    },
                }
                &&& confirmation.confirmation_active ==> confirmation.candidate_is_uturn == Some(
                    true,
                )
                &&& confirmation.confirmation_active || (confirmation.movement_anchor is None
                    && confirmation.confirmation_count == 0)
            }
        }),
{
}

/// Restoring keeps the settings of a condition with U-turn confirmation and the last fix that
/// it evaluated. What else it has seen is kept where it fits together, and forgotten as a
/// whole where it does not.
pub proof fn law_what_does_not_fit_is_forgotten(
    confirmation: ConfirmationModel,
    listed: Seq<SerialModel>,
)
    ensures
        ({
            let condition = restored(SerialModel::UTurnConfirmation(confirmation, listed));
            let held = condition->UTurnConfirmation_0;
            &&& condition is UTurnConfirmation
            &&& has_settings_of(held, confirmation)
            &&& held.last_evaluated_timestamp == confirmation.last_evaluated_timestamp
            &&& fits_together(confirmation, listed) ==> {
                &&& held.candidate_is_uturn == confirmation.candidate_is_uturn
                &&& held.confirmation_active == confirmation.confirmation_active
                &&& held.movement_anchor == confirmation.movement_anchor
                &&& held.confirmation_count == confirmation.confirmation_count
                &&& listed.len() == 0 ==> held.candidate_successor is None
                &&& listed.len() == 1 ==> held.candidate_successor is Some && *(
                held.candidate_successor->0) == restored(listed[0])
            }
            &&& !fits_together(confirmation, listed) ==> {
                &&& held.candidate_is_uturn is None
                &&& held.candidate_successor is None
                &&& !held.confirmation_active
                &&& held.movement_anchor is None
                &&& held.confirmation_count == 0
            }
        }),
{
}

/// Data of any other kind is restored as a condition of that kind with its settings.
pub proof fn law_conditions_are_restored_as_they_were(data: SerialModel)
    ensures
        match data {
            SerialModel::Manual => restored(data) == ConditionModel::Manual,
            SerialModel::DistanceToEndOfStep(it) => restored(data)
                == ConditionModel::DistanceToEndOfStep(it),
            SerialModel::DistanceFromStep(it) => restored(data) == ConditionModel::DistanceFromStep(
                it,
            ),
            SerialModel::EntryAndExit(it) => restored(data) == ConditionModel::EntryAndExit(it),
            SerialModel::EntryAndSnappedExit(it) => restored(data)
                == ConditionModel::EntryAndSnappedExit(it),
            SerialModel::Or(parts) => {
                &&& restored(data) is Or
                &&& restored(data)->Or_0.len() == parts.len()
                &&& forall|i: int|
                    0 <= i < parts.len() ==> #[trigger] restored(data)->Or_0[i] == restored(
                        parts[i],
                    )
            },
            SerialModel::And(parts) => {
                &&& restored(data) is And
                &&& restored(data)->And_0.len() == parts.len()
                &&& forall|i: int|
                    0 <= i < parts.len() ==> #[trigger] restored(data)->And_0[i] == restored(
                        parts[i],
                    )
            },
            SerialModel::UTurnConfirmation(_, _) => restored(data) is UTurnConfirmation,
        },
{
}

/// A condition holds what its parts hold, each as a condition of its own kind.
pub proof fn law_conditions_hold_their_parts(condition: StepCondition)
    ensures
        match condition {
            StepCondition::Manual(_) => condition.model() == ConditionModel::Manual,
            StepCondition::DistanceToEndOfStep(it) => condition.model()
                == ConditionModel::DistanceToEndOfStep(it),
            StepCondition::DistanceFromStep(it) => condition.model()
                == ConditionModel::DistanceFromStep(it),
            StepCondition::EntryAndExit(it) => condition.model() == ConditionModel::EntryAndExit(
                it,
            ),
            StepCondition::EntryAndSnappedExit(it) => condition.model()
                == ConditionModel::EntryAndSnappedExit(it),
            StepCondition::UTurnConfirmation(it) => condition.model()
                == ConditionModel::UTurnConfirmation(it.model()),
            StepCondition::Or(either) => {
                let parts = condition.model()->Or_0;
                &&& condition.model() is Or
                &&& parts.len() == either.conditions@.len()
                &&& forall|i: int|
                    0 <= i < parts.len() ==> #[trigger] parts[i] == either.conditions@[i].model()
            },
            StepCondition::And(all) => {
                let parts = condition.model()->And_0;
                &&& condition.model() is And
                &&& parts.len() == all.conditions@.len()
                &&& forall|i: int|
                    0 <= i < parts.len() ==> #[trigger] parts[i] == all.conditions@[i].model()
            },
        },
{
}

/// A condition with U-turn confirmation holds its settings and what it has seen, each as its
/// own.
pub proof fn law_a_confirmation_holds_its_fields(
    condition: DistanceEntryAndExitWithUTurnConfirmationCondition,
)
    ensures
        ({
            let held = condition.model();
            &&& held.distance_to_end_of_step == condition.distance_to_end_of_step
            &&& held.distance_after_end_of_step == condition.distance_after_end_of_step
            &&& held.minimum_horizontal_accuracy == condition.minimum_horizontal_accuracy
            &&& held.minimum_significant_movement == condition.minimum_significant_movement
            &&& held.maximum_plausible_speed == condition.maximum_plausible_speed
            &&& held.plausibility_distance_allowance == condition.plausibility_distance_allowance
            &&& held.required_confirmations == condition.required_confirmations
            &&& held.uturn_confirmation_enabled == condition.uturn_confirmation_enabled
            &&& held.candidate_is_uturn == condition.candidate_is_uturn
            &&& held.confirmation_active == condition.confirmation_active
            &&& held.movement_anchor == condition.movement_anchor
            &&& held.confirmation_count == condition.confirmation_count
            &&& held.last_evaluated_timestamp == condition.last_evaluated_timestamp
            &&& held.candidate_successor is Some <==> condition.candidate_successor is Some
            &&& condition.candidate_successor is Some ==> *(held.candidate_successor->0)
                == condition.candidate_successor->0.model()
        }),
{
}

/// An inquiry asks for what it says, and evidence shows what was measured; several at once
/// one by one.
pub proof fn law_inquiries_and_evidence_hold_what_they_say(inquiry: Inquiry, evidence: Evidence)
    ensures
        match inquiry {
            Inquiry::Nothing => inquiry.model() == InquiryModel::Nothing,
            Inquiry::WithinEndOfStep { position, threshold } => inquiry.model()
                == (InquiryModel::WithinEndOfStep { position, threshold }),
            Inquiry::DeviationFromStep { position } => inquiry.model()
                == (InquiryModel::DeviationFromStep { position }),
            Inquiry::SnappedDeviation { position, line } => inquiry.model()
                == (InquiryModel::SnappedDeviation { position, line: line@ }),
            Inquiry::Movement { from, to } => inquiry.model() == (InquiryModel::Movement {
                from,
                to,
            }),
            Inquiry::Several(parts) => {
                &&& inquiry.model() is Several
                &&& inquiry.model()->Several_0.len() == parts@.len()
                &&& forall|i: int|
                    0 <= i < parts@.len() ==> #[trigger] inquiry.model()->Several_0[i]
                        == parts@[i].model()
            },
        },
        match evidence {
            Evidence::Nothing => evidence.model() == EvidenceModel::Nothing,
            Evidence::Within(close) => evidence.model() == EvidenceModel::Within(close),
            Evidence::Deviation(distance) => evidence.model() == EvidenceModel::Deviation(distance),
            Evidence::Movement(it) => {
                &&& evidence.model() is Movement
                &&& evidence.model()->Movement_0.movement == it.movement
                &&& evidence.model()->Movement_0.current_step == it.current_step@
                &&& evidence.model()->Movement_0.next_step == it.next_step@
            },
            Evidence::Several(parts) => {
                &&& evidence.model() is Several
                &&& evidence.model()->Several_0.len() == parts@.len()
                &&& forall|i: int|
                    0 <= i < parts@.len() ==> #[trigger] evidence.model()->Several_0[i]
                        == parts@[i].model()
            },
        },
{
}

} // verus!
