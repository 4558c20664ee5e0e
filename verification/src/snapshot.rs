//! The snapshot: capture, restore, and the file it is kept in.

use crate::decimal::{decimal, decimal_string};
use crate::error::SnapshotError;
use crate::assoc::assoc_map;
use crate::payload::{distinct_layout, layout_map, ComponentData};
use crate::registry::SnapshotRegistry;
use crate::store::{fresh_world, world_entities};
use crate::wire::{bincode_decode, bincode_decoding, bincode_encode, bincode_encoding, RawSnapshot};
use shipyard::World;
use vstd::prelude::*;

verus! {

/// The directory that snapshot files are written to: `snapshots`.
pub open spec fn snapshot_directory() -> Seq<char> {
    seq!['s', 'n', 'a', 'p', 's', 'h', 'o', 't', 's']
}

/// The name of a snapshot's file: the task's name, an underscore, the
/// capture time in decimal, and the extension `.snapshot`.
pub open spec fn file_name_of(system_name: Seq<char>, timestamp: u64) -> Seq<char> {
    system_name + seq!['_'] + decimal(timestamp as nat) + seq![
        '.',
        's',
        'n',
        'a',
        'p',
        's',
        'h',
        'o',
        't',
    ]
}

/// The path of a snapshot's file, relative to the working directory.
pub open spec fn file_path_of(system_name: Seq<char>, timestamp: u64) -> Seq<char> {
    snapshot_directory() + seq!['/'] + file_name_of(system_name, timestamp)
}

/// A file to write: the directory that has to exist, the path of the file
/// and its content.
#[derive(Debug)]
pub struct SnapshotFile {
    pub directory: String,
    pub path: String,
    pub bytes: Vec<u8>,
}

/// What came of reading a file.
#[derive(Debug)]
pub enum ReadOutcome {
    /// The content of the file.
    Bytes(Vec<u8>),
    /// There is no file at the path.
    NotFound,
    /// The file is there and could not be read.
    Failed,
}

/// One captured moment: the task that ran, how long it ran, when it was
/// captured, and the serialized state of every registered component type.
#[derive(Debug)]
pub struct SystemSnapshot {
    pub system_name: String,
    pub execution_time_ms: u64,
    pub timestamp: u64,
    pub component_data: ComponentData,
}

impl Clone for SystemSnapshot {
    /// A copy with the same header and a payload that describes the same
    /// mapping; where the snapshot is well-formed, with the same layout.
    fn clone(&self) -> (copy: Self)
        ensures
            copy.wf(),
            copy.system_name@ == self.system_name@,
            copy.execution_time_ms == self.execution_time_ms,
            copy.timestamp == self.timestamp,
            copy.component_data@ == self.component_data@,
            self.wf() ==> copy.component_data.layout() == self.component_data.layout(),
    {
        SystemSnapshot {
            system_name: self.system_name.clone(),
            execution_time_ms: self.execution_time_ms,
            timestamp: self.timestamp,
            component_data: self.component_data.clone(),
        }
    }
}

impl SystemSnapshot {
    /// The payload holds no identifier twice.
    pub open spec fn wf(&self) -> bool {
        self.component_data.wf()
    }

    /// The bytes that the snapshot is written as, if it can be encoded.
    pub open spec fn encoding(&self) -> Option<Seq<u8>> {
        bincode_encoding(
            self.system_name@,
            self.execution_time_ms,
            self.timestamp,
            self.component_data.layout(),
        )
    }

    /// `file` is the file that the snapshot is saved as.
    pub open spec fn saved_as(&self, file: SnapshotFile) -> bool {
        &&& file.directory@ == snapshot_directory()
        &&& file.path@ == file_path_of(self.system_name@, self.timestamp)
        &&& self.encoding() == Some(file.bytes@)
    }

    /// `loaded` is what decoding `bytes` gives: the snapshot that the bytes
    /// hold, with the payload collected entry by entry, or a decode error.
    pub open spec fn decoded_from(bytes: Seq<u8>, loaded: Result<Self, SnapshotError>) -> bool {
        match bincode_decoding(bytes) {
            Some(parts) => {
                &&& loaded matches Ok(snapshot)
                &&& snapshot.wf()
                &&& snapshot.system_name@ == parts.0
                &&& snapshot.execution_time_ms == parts.1
                &&& snapshot.timestamp == parts.2
                &&& snapshot.component_data@ == layout_map(parts.3)
                &&& distinct_layout(parts.3) ==> snapshot.component_data.layout() == parts.3
            },
            None => loaded == Err::<Self, SnapshotError>(SnapshotError::Decode),
        }
    }

    /// `loaded` is what loading gives where reading the file gave `outcome`.
    pub open spec fn loaded_from(
        outcome: ReadOutcome,
        loaded: Result<Self, SnapshotError>,
    ) -> bool {
        match outcome {
            ReadOutcome::Bytes(bytes) => Self::decoded_from(bytes@, loaded),
            ReadOutcome::NotFound => loaded == Err::<Self, SnapshotError>(SnapshotError::NotFound),
            ReadOutcome::Failed => loaded == Err::<Self, SnapshotError>(SnapshotError::Io),
        }
    }

    /// Captures `world` at `timestamp`, in seconds since the epoch: the
    /// snapshot carries the task's name and duration as given, and one
    /// payload entry per registered type, with the records of the instances
    /// that the type's codec reports with an encoded value. Always succeeds;
    /// with an empty registry the payload is empty.
    pub fn capture_world(
        registry: &SnapshotRegistry,
        world: &World,
        system_name: &str,
        execution_time_ms: u64,
        timestamp: u64,
    ) -> (captured: Option<Self>)
        requires
            registry.wf(),
        ensures
            captured matches Some(snapshot) && {
                &&& snapshot.wf()
                &&& snapshot.system_name@ == system_name@
                &&& snapshot.execution_time_ms == execution_time_ms
                &&& snapshot.timestamp == timestamp
                &&& registry.captures(world, &snapshot.component_data)
                &&& forall|type_id: Seq<char>|
                    snapshot.component_data@.contains_key(type_id) <==> registry@.contains_key(
                        type_id,
                    )
                &&& forall|type_id: Seq<char>|
                    registry@.contains_key(type_id) ==> #[trigger] snapshot.component_data@[type_id]
                        == assoc_map(registry.captured(world, type_id))
            },
    {
        let component_data = registry.serialize_all(world);
        Some(
            SystemSnapshot {
                system_name: system_name.to_owned(),
                execution_time_ms,
                timestamp,
                component_data,
            },
        )
    }

    /// Restores the snapshot into a fresh store: what stands under a
    /// registered type identifier is decoded and inserted by that type's
    /// codec, the rest is left out. Always succeeds; the store holds one
    /// entity for each record that its type's codec could decode, and so
    /// none where no record stands under a registered type identifier.
    pub fn restore_world(&self, registry: &SnapshotRegistry) -> (restored: Result<
        World,
        SnapshotError,
    >)
        requires
            self.wf(),
            registry.wf(),
        ensures
            restored matches Ok(world) && world_entities(world).finite() && world_entities(
                world,
            ).len() == registry.restored_total(self.component_data.layout()),
    {
        let mut world = fresh_world();
        let _ = registry.deserialize_into(&mut world, &self.component_data);
        Ok(world)
    }

    /// The name of the snapshot's file.
    pub fn file_name(&self) -> (name: String)
        ensures
            name@ == file_name_of(self.system_name@, self.timestamp),
    {
        proof {
            reveal_strlit("_");
            reveal_strlit(".snapshot");
        }
        let mut name = self.system_name.clone();
        name.append("_");
        name.append(decimal_string(self.timestamp).as_str());
        name.append(".snapshot");
        assert(name@ =~= file_name_of(self.system_name@, self.timestamp));
        name
    }

    /// The snapshot in the plain form that is encoded.
    pub fn to_raw(&self) -> (raw: RawSnapshot)
        ensures
            raw.system_name@ == self.system_name@,
            raw.execution_time_ms == self.execution_time_ms,
            raw.timestamp == self.timestamp,
            raw.component_data.deep_view() == self.component_data.layout(),
    {
        RawSnapshot {
            system_name: self.system_name.clone(),
            execution_time_ms: self.execution_time_ms,
            timestamp: self.timestamp,
            component_data: self.component_data.to_layout(),
        }
    }

    /// Collects a snapshot from its plain form: of two payload entries with
    /// the same type identifier, and of two records with the same instance
    /// identifier, the later one stays.
    pub fn from_raw(raw: RawSnapshot) -> (snapshot: Self)
        ensures
            snapshot.wf(),
            snapshot.system_name@ == raw.system_name@,
            snapshot.execution_time_ms == raw.execution_time_ms,
            snapshot.timestamp == raw.timestamp,
            snapshot.component_data@ == layout_map(raw.component_data.deep_view()),
            distinct_layout(raw.component_data.deep_view()) ==> snapshot.component_data.layout()
                == raw.component_data.deep_view(),
    {
        SystemSnapshot {
            system_name: raw.system_name,
            execution_time_ms: raw.execution_time_ms,
            timestamp: raw.timestamp,
            component_data: ComponentData::from_layout(raw.component_data),
        }
    }

    /// Encodes the snapshot, header and payload, as one binary record.
    pub fn to_bytes(&self) -> (encoded: Result<Vec<u8>, SnapshotError>)
        ensures
            match self.encoding() {
                Some(bytes) => encoded matches Ok(b) && b@ == bytes,
                None => encoded == Err::<Vec<u8>, SnapshotError>(SnapshotError::Encode),
            },
    {
        let raw = self.to_raw();
        match bincode_encode(&raw) {
            Ok(bytes) => Ok(bytes),
            Err(_) => Err(SnapshotError::Encode),
        }
    }

    /// Decodes a snapshot from the front of `bytes`.
    pub fn from_bytes(bytes: &[u8]) -> (decoded: Result<Self, SnapshotError>)
        ensures
            Self::decoded_from(bytes@, decoded),
    {
        match bincode_decode(bytes) {
            Ok(raw) => Ok(Self::from_raw(raw)),
            Err(_) => Err(SnapshotError::Decode),
        }
    }

    /// The file that the snapshot is saved as: its place follows from the
    /// task's name and the capture time alone, so that a later snapshot of
    /// the same task in the same second takes the place of an earlier one.
    pub fn prepare_file(&self) -> (prepared: Result<SnapshotFile, SnapshotError>)
        ensures
            match self.encoding() {
                Some(_) => prepared matches Ok(file) && self.saved_as(file),
                None => prepared == Err::<SnapshotFile, SnapshotError>(SnapshotError::Encode),
            },
    {
        match self.to_bytes() {
            Ok(bytes) => {
                proof {
                    reveal_strlit("snapshots");
                    reveal_strlit("/");
                }
                let directory = "snapshots".to_owned();
                let mut path = "snapshots".to_owned();
                path.append("/");
                path.append(self.file_name().as_str());
                assert(directory@ =~= snapshot_directory());
                assert(path@ =~= file_path_of(self.system_name@, self.timestamp));
                Ok(SnapshotFile { directory, path, bytes })
            },
            Err(error) => Err(error),
        }
    }

    /// Saves the snapshot through `write`, which makes the directory, writes
    /// the file and answers whether it did. The snapshot is encoded first;
    /// where that fails, the error is an encoding error. Where `write`
    /// answers `false`, it is an I/O error.
    pub fn save_to_file<W: FnOnce(SnapshotFile) -> bool>(&self, write: W) -> (saved: Result<
        (),
        SnapshotError,
    >)
        requires
            forall|file: SnapshotFile| self.saved_as(file) ==> write.requires((file,)),
        ensures
            match saved {
                Ok(_) => exists|file: SnapshotFile|
                    self.saved_as(file) && write.ensures((file,), true),
                Err(error) => if self.encoding() is None {
                    error == SnapshotError::Encode
                } else {
                    error == SnapshotError::Io && exists|file: SnapshotFile|
                        self.saved_as(file) && write.ensures((file,), false)
                },
            },
    {
        match self.prepare_file() {
            Ok(file) => {
                if write(file) {
                    Ok(())
                } else {
                    Err(SnapshotError::Io)
                }
            },
            Err(error) => Err(error),
        }
    }

    /// Loads the snapshot at `path` through `read`, which reads the file.
    /// Where there is no file, the error is `NotFound`; where the file
    /// cannot be read, an I/O error; where its bytes hold no snapshot, a
    /// decode error.
    pub fn load_from_file<R: FnOnce(&str) -> ReadOutcome>(path: &str, read: R) -> (loaded: Result<
        Self,
        SnapshotError,
    >)
        requires
            read.requires((path,)),
        ensures
            exists|outcome: ReadOutcome|
                read.ensures((path,), outcome) && Self::loaded_from(outcome, loaded),
    {
        let outcome = read(path);
        let loaded = match &outcome {
            ReadOutcome::Bytes(bytes) => Self::from_bytes(bytes.as_slice()),
            ReadOutcome::NotFound => Err(SnapshotError::NotFound),
            ReadOutcome::Failed => Err(SnapshotError::Io),
        };
        assert(Self::loaded_from(outcome, loaded));
        loaded
    }
}

} // verus!
