//! Snapshot capture, persistence and restore for instrumented tasks.
//!
//! A task is timed by its caller; when it ran longer than its threshold, the
//! state store it worked on is serialized through the registered component
//! codecs into a [`SystemSnapshot`], which can be written to a file, read
//! back and restored into a fresh store.

pub mod ambient;
pub mod assoc;
pub mod attribute;
pub mod decimal;
pub mod error;
pub mod fidelity;
pub mod payload;
pub mod registry;
pub mod snapshot;
pub mod store;
pub mod trigger;
pub mod type_map;
pub mod wire;

pub use ambient::{with_current_world, WorldGuard};
pub use attribute::{extract_component_types, ArgToken, ArgsError, SnapshotArgs, TaskParam};
pub use error::SnapshotError;
pub use payload::{ComponentData, EntityData};
pub use registry::{
    count_inserted, instance_id, keep_encoded, Buffer, ComponentCodec, BoxedCodec, Reported,
    SnapshotRegistry,
};
pub use snapshot::{ReadOutcome, SnapshotFile, SystemSnapshot};
pub use trigger::{exceeds_threshold, snapshot_system, TriggerDecision, DEFAULT_THRESHOLD_MS};
pub use type_map::TypeMap;
pub use wire::RawSnapshot;
