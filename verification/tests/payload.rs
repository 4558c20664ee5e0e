use anchor_yard::{ComponentData, EntityData, TypeMap};

#[test]
fn new_entity_data_is_empty() {
    let data = EntityData::new();
    assert_eq!(data.len(), 0);
    assert!(data.is_empty());
    assert!(!data.contains(0));
    assert_eq!(data.get(0), None);
}

#[test]
fn insert_stores_and_replaces_in_place() {
    let mut data = EntityData::new();
    assert_eq!(data.insert(7, vec![1]), None);
    assert_eq!(data.insert(3, vec![2, 2]), None);
    assert_eq!(data.insert(7, vec![9, 9, 9]), Some(vec![1]));
    assert_eq!(data.len(), 2);
    assert!(!data.is_empty());
    assert!(data.contains(7));
    assert!(data.contains(3));
    assert!(!data.contains(4));
    assert_eq!(data.get(7), Some(&vec![9u8, 9, 9]));
    assert_eq!(data.get(3), Some(&vec![2u8, 2]));
    assert_eq!(data.id_at(0), 7);
    assert_eq!(data.bytes_at(0), &vec![9u8, 9, 9]);
    assert_eq!(data.id_at(1), 3);
    assert_eq!(data.bytes_at(1), &vec![2u8, 2]);
}

#[test]
fn from_records_lets_the_later_record_win() {
    let data = EntityData::from_records(vec![(1, vec![1]), (2, vec![2]), (1, vec![3])]);
    assert_eq!(data.len(), 2);
    assert_eq!(data.get(1), Some(&vec![3u8]));
    assert_eq!(data.get(2), Some(&vec![2u8]));
    assert_eq!(data.to_records(), vec![(1u64, vec![3u8]), (2, vec![2])]);
}

#[test]
fn records_without_duplicates_are_stored_as_they_come() {
    let records = vec![(u64::MAX, vec![]), (0, vec![0]), (5, vec![5, 5])];
    let data = EntityData::from_records(records.clone());
    assert_eq!(data.to_records(), records);
}

#[test]
fn component_data_keeps_one_entry_per_type() {
    let mut data = ComponentData::new();
    assert_eq!(data.len(), 0);
    assert!(!data.contains("A"));
    assert!(data.get("A").is_none());

    data.insert("A".to_string(), EntityData::from_records(vec![(1, vec![1])]));
    data.insert("B".to_string(), EntityData::new());
    data.insert("A".to_string(), EntityData::from_records(vec![(2, vec![2]), (3, vec![3])]));

    assert_eq!(data.len(), 2);
    assert!(data.contains("A"));
    assert!(data.contains("B"));
    assert!(!data.contains("a"));
    assert_eq!(data.type_id_at(0), "A");
    assert_eq!(data.type_id_at(1), "B");
    assert_eq!(data.data_at(0).len(), 2);
    assert_eq!(data.get("A").unwrap().get(1), None);
    assert_eq!(data.get("A").unwrap().get(3), Some(&vec![3u8]));
    assert_eq!(data.get("B").unwrap().len(), 0);
    assert_eq!(
        data.to_layout(),
        vec![
            ("A".to_string(), vec![(2u64, vec![2u8]), (3, vec![3])]),
            ("B".to_string(), vec![]),
        ]
    );
}

#[test]
fn layout_round_trips_through_component_data() {
    let layout = vec![
        ("Position".to_string(), vec![(0u64, vec![1u8, 2]), (1, vec![3, 4])]),
        ("Velocity".to_string(), vec![]),
        ("Health".to_string(), vec![(1, vec![100])]),
    ];
    assert_eq!(ComponentData::from_layout(layout.clone()).to_layout(), layout);
}

#[test]
fn type_map_replaces_in_place_and_hands_back_the_old_value() {
    let mut table: TypeMap<u32> = TypeMap::new();
    assert_eq!(table.len(), 0);
    assert_eq!(table.insert("x".to_string(), 1), None);
    assert_eq!(table.insert("y".to_string(), 2), None);
    assert_eq!(table.insert("x".to_string(), 3), Some(1));
    assert_eq!(table.len(), 2);
    assert_eq!(table.get("x"), Some(&3));
    assert_eq!(table.get("y"), Some(&2));
    assert_eq!(table.get("z"), None);
    assert!(table.contains("y"));
    assert!(!table.contains(""));
    assert_eq!(table.type_id_at(0), "x");
    assert_eq!(table.value_at(0), &3);
    assert_eq!(table.type_id_at(1), "y");
    assert_eq!(table.value_at(1), &2);
}

#[test]
fn clone_of_entity_data_keeps_records_and_order() {
    let data = EntityData::from_records(vec![(9, vec![1]), (2, vec![]), (5, vec![7, 7])]);
    let copy = data.clone();
    assert_eq!(copy.to_records(), data.to_records());
    assert_eq!(copy.len(), 3);
}

#[test]
fn instance_identifier_is_one_less_than_the_number_of_the_handle() {
    assert_eq!(anchor_yard::instance_id(1), 0);
    assert_eq!(anchor_yard::instance_id(11 + (2 << 48)), 10 + (2 << 48));
    assert_eq!(anchor_yard::instance_id(u64::MAX), u64::MAX - 1);
}

#[test]
fn only_encoded_instances_are_kept_and_counted() {
    let kept = anchor_yard::keep_encoded(vec![
        (4, Some(vec![1])),
        (5, None),
        (6, Some(vec![])),
        (4, Some(vec![9])),
    ]);
    assert_eq!(kept.to_records(), vec![(4u64, vec![9u8]), (6, vec![])]);
    assert_eq!(anchor_yard::count_inserted(&vec![true, false, true, true]), 3);
    assert_eq!(anchor_yard::count_inserted(&vec![]), 0);
}
