//! The decision that follows the run of an instrumented task.

use crate::ambient::WorldGuard;
use crate::registry::SnapshotRegistry;
use crate::snapshot::SystemSnapshot;
use vstd::prelude::*;

verus! {

/// The threshold of a task that names none, in milliseconds.
pub const DEFAULT_THRESHOLD_MS: u64 = 1;

/// A task is captured where it ran strictly longer than its threshold.
pub open spec fn exceeds(elapsed_ms: u64, threshold_ms: u64) -> bool {
    elapsed_ms > threshold_ms
}

/// Whether a task that ran for `elapsed_ms` is captured under
/// `threshold_ms`. With a threshold of zero every run that took measurable
/// time is captured.
#[verifier::when_used_as_spec(exceeds)]
pub fn exceeds_threshold(elapsed_ms: u64, threshold_ms: u64) -> (exceeded: bool)
    ensures
        exceeded == exceeds(elapsed_ms, threshold_ms),
{
    elapsed_ms > threshold_ms
}

/// A run that took exactly its threshold is not captured; a run that took
/// one millisecond more is.
pub proof fn lemma_threshold_boundary(threshold_ms: u64)
    ensures
        !exceeds(threshold_ms, threshold_ms),
        threshold_ms < u64::MAX ==> exceeds((threshold_ms + 1) as u64, threshold_ms),
{
}

/// What the trigger found when a task had run.
#[derive(Debug)]
pub enum TriggerDecision {
    /// The task stayed within its threshold: nothing is captured.
    BelowThreshold,
    /// The task ran too long and no store is entered: the capture is
    /// skipped.
    NoAmbientStore,
    /// The task ran too long: the snapshot that was captured, to be saved.
    Captured(SystemSnapshot),
}

/// The step that follows a task's run. Where the task ran longer than its
/// threshold and the slot holds a store, the store is captured under the
/// task's name, with the run's duration and `timestamp`; the caller saves
/// the snapshot. In the two other cases there is nothing to save, and of no
/// case an error can come.
pub fn snapshot_system(
    registry: &SnapshotRegistry,
    guard: &WorldGuard<'_>,
    task_name: &str,
    threshold_ms: u64,
    elapsed_ms: u64,
    timestamp: u64,
) -> (decision: TriggerDecision)
    requires
        registry.wf(),
    ensures
        match decision {
            TriggerDecision::BelowThreshold => !exceeds(elapsed_ms, threshold_ms),
            TriggerDecision::NoAmbientStore => exceeds(elapsed_ms, threshold_ms)
                && guard.current() is None,
            TriggerDecision::Captured(snapshot) => {
                &&& exceeds(elapsed_ms, threshold_ms)
                &&& guard.current() matches Some(world)
                &&& snapshot.wf()
                &&& snapshot.system_name@ == task_name@
                &&& snapshot.execution_time_ms == elapsed_ms
                &&& snapshot.timestamp == timestamp
                &&& registry.captures(world, &snapshot.component_data)
            },
        },
        guard.current() is None ==> !(decision is Captured),
{
    if !exceeds_threshold(elapsed_ms, threshold_ms) {
        return TriggerDecision::BelowThreshold;
    }
    match guard.store() {
        Some(world) => {
            match SystemSnapshot::capture_world(
                registry,
                world,
                task_name,
                elapsed_ms,
                timestamp,
            ) {
                Some(snapshot) => TriggerDecision::Captured(snapshot),
                None => TriggerDecision::NoAmbientStore,
            }
        },
        None => TriggerDecision::NoAmbientStore,
    }
}

} // verus!
