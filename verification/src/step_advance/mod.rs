//! Decides when the current step is done.
//!
//! A condition asks for what it needs to know of the globe (see `Inquiry`), the
//! caller measures it (see `Evidence`), and the condition decides. Where a distance
//! cannot be measured, a condition does not advance; only the exit of
//! `DistanceEntryAndSnappedExitCondition` takes it for zero, which is far enough where
//! its distance is zero or the steps ahead have no length.
pub mod conditions;
pub mod decision_laws;
pub mod laws;
pub mod serialization;
pub mod storage_laws;
