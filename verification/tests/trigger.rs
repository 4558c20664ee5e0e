use anchor_yard::{
    exceeds_threshold, snapshot_system, BoxedCodec, Buffer, ComponentCodec, Reported, SnapshotFile,
    SnapshotRegistry, TriggerDecision, WorldGuard, DEFAULT_THRESHOLD_MS,
};
use shipyard::World;

struct Fixed;

impl ComponentCodec for Fixed {
    fn reported(&self, _world: &World) -> Reported {
        unreachable!()
    }

    fn accepts(&self, _bytes: Buffer) -> bool {
        unreachable!()
    }

    fn encode_all(&self, _world: &World) -> Vec<(u64, Option<Vec<u8>>)> {
        vec![(0, Some(vec![1, 2])), (1, None), (2, Some(vec![3]))]
    }

    fn decode_and_insert(&self, _world: &mut World, _bytes: &[u8]) -> bool {
        false
    }
}

fn registry() -> SnapshotRegistry {
    let mut registry = SnapshotRegistry::new();
    registry.register("Fixed", BoxedCodec { codec: Box::new(Fixed) });
    registry
}

#[test]
fn duration_equal_to_threshold_is_not_captured() {
    assert!(!exceeds_threshold(10, 10));
    assert!(exceeds_threshold(11, 10));
    assert!(!exceeds_threshold(9, 10));
    assert!(!exceeds_threshold(u64::MAX, u64::MAX));
    assert!(exceeds_threshold(u64::MAX, u64::MAX - 1));
}

#[test]
fn threshold_of_zero_captures_every_measurable_run() {
    assert!(!exceeds_threshold(0, 0));
    assert!(exceeds_threshold(1, 0));
}

#[test]
fn default_threshold_is_one_millisecond() {
    assert_eq!(DEFAULT_THRESHOLD_MS, 1);
}

#[test]
fn run_on_the_threshold_decides_below_threshold() {
    let world = World::new();
    let guard = WorldGuard::new(&world);
    let decision = snapshot_system(&registry(), &guard, "task", 10, 10, 7);
    assert!(matches!(decision, TriggerDecision::BelowThreshold));
    let decision = snapshot_system(&registry(), &guard, "task", 10, 11, 7);
    assert!(matches!(decision, TriggerDecision::Captured(_)));
}

#[test]
fn without_ambient_store_nothing_is_captured() {
    let guard = WorldGuard::vacant();
    let slow = snapshot_system(&registry(), &guard, "task", 10, 5000, 7);
    assert!(matches!(slow, TriggerDecision::NoAmbientStore));
    let fast = snapshot_system(&registry(), &guard, "task", 10, 1, 7);
    assert!(matches!(fast, TriggerDecision::BelowThreshold));
}

#[test]
fn after_release_nothing_is_captured() {
    let world = World::new();
    let mut guard = WorldGuard::new(&world);
    assert!(guard.is_active());
    guard.release();
    assert!(!guard.is_active());
    let decision = snapshot_system(&registry(), &guard, "task", 0, 1, 7);
    assert!(matches!(decision, TriggerDecision::NoAmbientStore));
}

#[test]
fn slow_task_writes_one_file_and_fast_task_none() {
    let world = World::new();
    let guard = WorldGuard::new(&world);
    let registry = registry();
    let mut written: Vec<SnapshotFile> = Vec::new();

    for (elapsed_ms, timestamp) in [(5u64, 1_700_000_000u64), (15, 1_700_000_001)] {
        match snapshot_system(&registry, &guard, "heavy_ai_system", 10, elapsed_ms, timestamp) {
            TriggerDecision::Captured(snapshot) => {
                assert_eq!(snapshot.system_name, "heavy_ai_system");
                assert_eq!(snapshot.execution_time_ms, 15);
                assert_eq!(snapshot.timestamp, 1_700_000_001);
                let fixed = snapshot.component_data.get("Fixed").unwrap();
                assert_eq!(fixed.len(), 2);
                assert_eq!(fixed.get(0), Some(&vec![1u8, 2]));
                assert_eq!(fixed.get(2), Some(&vec![3u8]));
                let saved = snapshot.save_to_file(|file| {
                    written.push(file);
                    true
                });
                assert_eq!(saved, Ok(()));
            }
            TriggerDecision::BelowThreshold => assert_eq!(elapsed_ms, 5),
            TriggerDecision::NoAmbientStore => panic!("a store is entered"),
        }
    }

    assert_eq!(written.len(), 1);
    assert_eq!(written[0].directory, "snapshots");
    assert_eq!(written[0].path, "snapshots/heavy_ai_system_1700000001.snapshot");
}
