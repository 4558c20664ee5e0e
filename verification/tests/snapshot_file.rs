use anchor_yard::{
    ComponentData, EntityData, RawSnapshot, SnapshotError, SystemSnapshot,
};

fn sample() -> SystemSnapshot {
    let mut counter = EntityData::new();
    counter.insert(0, vec![2]);
    counter.insert(300, vec![]);
    let mut component_data = ComponentData::new();
    component_data.insert("Counter".to_string(), counter);
    component_data.insert("é".to_string(), EntityData::new());
    SystemSnapshot {
        system_name: "task_x".to_string(),
        execution_time_ms: 50,
        timestamp: 1_700_000_000,
        component_data,
    }
}

fn sample_bytes() -> Vec<u8> {
    let mut bytes = vec![6];
    bytes.extend_from_slice(b"task_x");
    bytes.push(50);
    bytes.extend_from_slice(&[252, 0x00, 0xF1, 0x53, 0x65]);
    bytes.push(2);
    bytes.push(7);
    bytes.extend_from_slice(b"Counter");
    bytes.push(2);
    bytes.extend_from_slice(&[0, 1, 2]);
    bytes.extend_from_slice(&[251, 0x2C, 0x01, 0]);
    bytes.push(2);
    bytes.extend_from_slice("é".as_bytes());
    bytes.push(0);
    bytes
}

#[test]
fn file_name_is_task_name_underscore_timestamp() {
    assert_eq!(sample().file_name(), "task_x_1700000000.snapshot");
}

#[test]
fn file_name_writes_timestamp_without_leading_zeros() {
    let mut snapshot = sample();
    snapshot.system_name = String::new();
    snapshot.timestamp = 0;
    assert_eq!(snapshot.file_name(), "_0.snapshot");
    snapshot.timestamp = 10;
    assert_eq!(snapshot.file_name(), "_10.snapshot");
    snapshot.timestamp = 909;
    assert_eq!(snapshot.file_name(), "_909.snapshot");
    snapshot.timestamp = u64::MAX;
    assert_eq!(snapshot.file_name(), "_18446744073709551615.snapshot");
}

#[test]
fn prepared_file_lies_in_the_snapshot_directory() {
    let file = sample().prepare_file().unwrap();
    assert_eq!(file.directory, "snapshots");
    assert_eq!(file.path, "snapshots/task_x_1700000000.snapshot");
    assert_eq!(file.bytes, sample_bytes());
}

#[test]
fn snapshots_of_one_task_in_one_second_share_a_file() {
    let first = sample();
    let mut second = sample();
    second.execution_time_ms = 99;
    second.component_data = ComponentData::new();
    assert_eq!(
        first.prepare_file().unwrap().path,
        second.prepare_file().unwrap().path
    );
}

#[test]
fn encoding_is_header_then_payload() {
    assert_eq!(sample().to_bytes(), Ok(sample_bytes()));
}

#[test]
fn encoding_of_empty_snapshot() {
    let snapshot = SystemSnapshot {
        system_name: String::new(),
        execution_time_ms: 0,
        timestamp: 0,
        component_data: ComponentData::new(),
    };
    assert_eq!(snapshot.to_bytes(), Ok(vec![0, 0, 0, 0]));
}

#[test]
fn decoding_reads_back_what_was_encoded() {
    let decoded = SystemSnapshot::from_bytes(&sample_bytes()).unwrap();
    assert_eq!(decoded.system_name, "task_x");
    assert_eq!(decoded.execution_time_ms, 50);
    assert_eq!(decoded.timestamp, 1_700_000_000);
    assert_eq!(decoded.component_data.len(), 2);
    assert_eq!(decoded.component_data.type_id_at(0), "Counter");
    assert_eq!(decoded.component_data.type_id_at(1), "é");
    let counter = decoded.component_data.get("Counter").unwrap();
    assert_eq!(counter.len(), 2);
    assert_eq!(counter.get(0), Some(&vec![2u8]));
    assert_eq!(counter.get(300), Some(&vec![]));
    assert_eq!(decoded.component_data.get("é").unwrap().len(), 0);
    assert_eq!(decoded.to_bytes(), Ok(sample_bytes()));
}

#[test]
fn decoding_ignores_bytes_behind_the_snapshot() {
    let mut bytes = sample_bytes();
    bytes.extend_from_slice(&[9, 9, 9]);
    let decoded = SystemSnapshot::from_bytes(&bytes).unwrap();
    assert_eq!(decoded.to_bytes(), Ok(sample_bytes()));
}

#[test]
fn decoding_refuses_truncated_and_malformed_bytes() {
    let bytes = sample_bytes();
    for cut in 0..bytes.len() {
        assert_eq!(
            SystemSnapshot::from_bytes(&bytes[..cut]).err(),
            Some(SnapshotError::Decode)
        );
    }
    assert_eq!(
        SystemSnapshot::from_bytes(&[1, 0xFF, 0, 0, 0]).err(),
        Some(SnapshotError::Decode)
    );
}

#[test]
fn later_duplicates_replace_earlier_ones_when_collecting() {
    let raw = RawSnapshot {
        system_name: "t".to_string(),
        execution_time_ms: 1,
        timestamp: 2,
        component_data: vec![
            ("A".to_string(), vec![(1, vec![10]), (2, vec![20]), (1, vec![11])]),
            ("B".to_string(), vec![(5, vec![50])]),
            ("A".to_string(), vec![(3, vec![30])]),
        ],
    };
    let snapshot = SystemSnapshot::from_raw(raw);
    assert_eq!(snapshot.system_name, "t");
    assert_eq!(snapshot.execution_time_ms, 1);
    assert_eq!(snapshot.timestamp, 2);
    let data = &snapshot.component_data;
    assert_eq!(data.len(), 2);
    assert_eq!(data.type_id_at(0), "A");
    assert_eq!(data.type_id_at(1), "B");
    let a = data.get("A").unwrap();
    assert_eq!(a.len(), 1);
    assert_eq!(a.get(3), Some(&vec![30u8]));
    assert_eq!(a.get(1), None);
    assert_eq!(data.get("B").unwrap().get(5), Some(&vec![50u8]));
}

#[test]
fn raw_form_keeps_fields_and_order() {
    let raw = sample().to_raw();
    assert_eq!(raw.system_name, "task_x");
    assert_eq!(raw.execution_time_ms, 50);
    assert_eq!(raw.timestamp, 1_700_000_000);
    assert_eq!(
        raw.component_data,
        vec![
            ("Counter".to_string(), vec![(0u64, vec![2u8]), (300, vec![])]),
            ("é".to_string(), vec![]),
        ]
    );
}

#[test]
fn clone_keeps_header_and_payload() {
    let snapshot = sample();
    let copy = snapshot.clone();
    assert_eq!(copy.system_name, snapshot.system_name);
    assert_eq!(copy.execution_time_ms, snapshot.execution_time_ms);
    assert_eq!(copy.timestamp, snapshot.timestamp);
    assert_eq!(copy.component_data.to_layout(), snapshot.component_data.to_layout());
    assert_eq!(copy.to_bytes(), Ok(sample_bytes()));
}

#[test]
fn decoding_refuses_a_length_beyond_the_input() {
    let huge = [253, 255, 255, 255, 255, 255, 255, 255, 255];
    assert_eq!(SystemSnapshot::from_bytes(&huge).err(), Some(SnapshotError::Decode));
    let mut in_type_id = vec![0, 0, 0, 1];
    in_type_id.extend_from_slice(&huge);
    assert_eq!(SystemSnapshot::from_bytes(&in_type_id).err(), Some(SnapshotError::Decode));
    let mut in_records = vec![0, 0, 0, 1, 0];
    in_records.extend_from_slice(&huge);
    assert_eq!(SystemSnapshot::from_bytes(&in_records).err(), Some(SnapshotError::Decode));
    let mut in_buffer = vec![0, 0, 0, 1, 0, 1, 0];
    in_buffer.extend_from_slice(&huge);
    assert_eq!(SystemSnapshot::from_bytes(&in_buffer).err(), Some(SnapshotError::Decode));
    let mut in_types = vec![0, 0, 0];
    in_types.extend_from_slice(&huge);
    assert_eq!(SystemSnapshot::from_bytes(&in_types).err(), Some(SnapshotError::Decode));
}
