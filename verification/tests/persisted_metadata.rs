use local_hnsw::error::LocalHnswSegmentWriterError;
use local_hnsw::id_map::{
    persistable_index_dimensionality, persistable_log_offset, validate_current_seq_id_state,
    validate_persisted_id_map, IdMap, ValidatedIdMap,
};
use local_hnsw::id_table::IdTable;
use std::collections::HashMap;

fn table(entries: &[(&str, u32)]) -> IdTable {
    let mut table = IdTable::new();
    for (id, value) in entries {
        table.insert(String::from(*id), *value);
    }
    table
}

fn populated_id_map(dimensionality: Option<usize>) -> IdMap {
    IdMap {
        dimensionality,
        total_elements_added: 1,
        max_seq_id: None,
        id_to_label: table(&[("a", 1)]),
        label_to_id: HashMap::from([(1, String::from("a"))]),
        id_to_seq_id: table(&[("a", 1)]),
    }
}

fn refusal(result: Result<ValidatedIdMap, String>) -> String {
    match result {
        Err(reason) => reason,
        Ok(_) => panic!("id map should be refused"),
    }
}

#[test]
fn persisted_id_map_accepts_legacy_metadata_without_dimensionality() {
    let id_map = populated_id_map(None);

    match validate_persisted_id_map(id_map, 3).unwrap() {
        ValidatedIdMap::Initialized { dimensionality, .. } => {
            assert_eq!(dimensionality.get(), 3)
        }
        ValidatedIdMap::Uninitialized => panic!("id map should be initialized"),
    }
}

#[test]
fn persisted_id_map_rejects_dimensionality_mismatch() {
    let id_map = populated_id_map(Some(8));

    let err = refusal(validate_persisted_id_map(id_map, 3));
    assert!(err.contains("does not match"));
    assert_eq!(
        err,
        "persisted dimensionality 8 does not match collection dimensionality 3"
    );
}

#[test]
fn persisted_id_map_rejects_zero_dimensionality_when_labels_exist() {
    let id_map = populated_id_map(Some(0));

    let err = refusal(validate_persisted_id_map(id_map, 3));
    assert!(err.contains("dimensionality is 0"));
}

#[test]
fn persisted_id_map_rejects_dimensionality_outside_hnsw_range() {
    let id_map = populated_id_map(Some(i32::MAX as usize + 1));

    let err = refusal(validate_persisted_id_map(id_map, i32::MAX as usize + 1));
    assert!(err.contains("exceeds the range"));
}

#[test]
fn persisted_id_map_accepts_matching_dimensionality() {
    let id_map = populated_id_map(Some(3));

    match validate_persisted_id_map(id_map, 3).unwrap() {
        ValidatedIdMap::Initialized { dimensionality, .. } => {
            assert_eq!(dimensionality.get(), 3)
        }
        ValidatedIdMap::Uninitialized => panic!("id map should be initialized"),
    }
}

#[test]
fn empty_persisted_id_map_can_stay_uninitialized() {
    let mut id_map = IdMap::default();
    id_map.total_elements_added = 9;

    match validate_persisted_id_map(id_map, 3).unwrap() {
        ValidatedIdMap::Uninitialized => {}
        ValidatedIdMap::Initialized { .. } => panic!("id map should be uninitialized"),
    }
}

#[test]
fn persisted_id_map_rejects_partially_populated_metadata() {
    let id_map = IdMap {
        dimensionality: None,
        total_elements_added: 4,
        max_seq_id: None,
        id_to_label: IdTable::new(),
        label_to_id: HashMap::from([(1, String::from("a"))]),
        id_to_seq_id: IdTable::new(),
    };

    let err = refusal(validate_persisted_id_map(id_map, 3));
    assert!(err.contains("partially populated"));
}

#[test]
fn persisted_id_map_rejects_inconsistent_label_maps() {
    let id_map = IdMap {
        dimensionality: Some(3),
        total_elements_added: 2,
        max_seq_id: None,
        id_to_label: table(&[("a", 1)]),
        label_to_id: HashMap::from([(2, String::from("a"))]),
        id_to_seq_id: table(&[("a", 1)]),
    };

    let err = refusal(validate_persisted_id_map(id_map, 3));
    assert!(err.contains("label maps are inconsistent"));
}

#[test]
fn persisted_id_map_rejects_missing_seq_id_entries() {
    let id_map = IdMap {
        dimensionality: Some(3),
        total_elements_added: 2,
        max_seq_id: None,
        id_to_label: table(&[("a", 1), ("b", 2)]),
        label_to_id: HashMap::from([(1, String::from("a")), (2, String::from("b"))]),
        id_to_seq_id: table(&[("a", 1)]),
    };

    let err = refusal(validate_persisted_id_map(id_map, 3));
    assert!(err.contains("seq id map does not match labels"));
}

#[test]
fn persisted_id_map_rejects_total_smaller_than_max_label() {
    let id_map = IdMap {
        dimensionality: Some(3),
        total_elements_added: 1,
        max_seq_id: None,
        id_to_label: table(&[("a", 2)]),
        label_to_id: HashMap::from([(2, String::from("a"))]),
        id_to_seq_id: table(&[("a", 1)]),
    };

    let err = refusal(validate_persisted_id_map(id_map, 3));
    assert!(err.contains("total_elements_added is smaller"));
}

#[test]
fn persisted_id_map_accepts_empty_metadata_with_historical_total() {
    let id_map = IdMap {
        dimensionality: None,
        total_elements_added: 4,
        max_seq_id: None,
        id_to_label: IdTable::new(),
        label_to_id: HashMap::new(),
        id_to_seq_id: IdTable::new(),
    };

    match validate_persisted_id_map(id_map, 3).unwrap() {
        ValidatedIdMap::Uninitialized => {}
        ValidatedIdMap::Initialized { .. } => panic!("id map should be uninitialized"),
    }
}

#[test]
fn persisted_id_map_rejects_zero_labels() {
    let id_map = IdMap {
        dimensionality: Some(3),
        total_elements_added: 1,
        max_seq_id: None,
        id_to_label: table(&[("a", 0)]),
        label_to_id: HashMap::from([(0, String::from("a"))]),
        id_to_seq_id: table(&[("a", 1)]),
    };

    let err = refusal(validate_persisted_id_map(id_map, 3));
    assert!(err.contains("labels must be positive"));
}

#[test]
fn persisted_id_map_rejects_extra_seq_id_entries() {
    let id_map = IdMap {
        dimensionality: Some(3),
        total_elements_added: 1,
        max_seq_id: None,
        id_to_label: table(&[("a", 1)]),
        label_to_id: HashMap::from([(1, String::from("a"))]),
        id_to_seq_id: table(&[("b", 1)]),
    };

    let err = refusal(validate_persisted_id_map(id_map, 3));
    assert!(err.contains("seq id map does not match labels"));
}

#[test]
fn persisted_id_map_accepts_max_seq_id_covering_seq_ids() {
    let id_map = IdMap {
        dimensionality: Some(3),
        total_elements_added: 1,
        max_seq_id: Some(5),
        id_to_label: table(&[("a", 1)]),
        label_to_id: HashMap::from([(1, String::from("a"))]),
        id_to_seq_id: table(&[("a", 3)]),
    };

    match validate_persisted_id_map(id_map, 3).unwrap() {
        ValidatedIdMap::Initialized { .. } => {}
        ValidatedIdMap::Uninitialized => panic!("id map should be initialized"),
    }
}

#[test]
fn persisted_id_map_rejects_max_seq_id_smaller_than_seq_ids() {
    let id_map = IdMap {
        dimensionality: Some(3),
        total_elements_added: 1,
        max_seq_id: Some(2),
        id_to_label: table(&[("a", 1)]),
        label_to_id: HashMap::from([(1, String::from("a"))]),
        id_to_seq_id: table(&[("a", 3)]),
    };

    let err = refusal(validate_persisted_id_map(id_map, 3));
    assert!(err.contains("max_seq_id is smaller"));
}

#[test]
fn current_seq_id_state_rejects_missing_sqlite_state_for_populated_metadata() {
    let err = validate_current_seq_id_state(None, &populated_id_map(Some(3))).unwrap_err();
    assert!(err.contains("SQLite max_seq_id is missing"));
}

#[test]
fn current_seq_id_state_rejects_stale_sqlite_state_for_populated_metadata() {
    let err = validate_current_seq_id_state(Some(0), &populated_id_map(Some(3))).unwrap_err();
    assert!(err.contains("SQLite max_seq_id is smaller"));
}

#[test]
fn current_seq_id_state_accepts_sqlite_state_covering_persisted_seq_ids() {
    assert_eq!(
        validate_current_seq_id_state(Some(3), &populated_id_map(Some(3))).unwrap(),
        3
    );
}

#[test]
fn current_seq_id_state_of_an_empty_map_without_sqlite_state_is_zero() {
    assert_eq!(
        validate_current_seq_id_state(None, &IdMap::default()).unwrap(),
        0
    );
}

#[test]
fn persistable_index_dimensionality_rejects_non_positive_values() {
    assert!(persistable_index_dimensionality(0).is_err());
    assert!(persistable_index_dimensionality(-1).is_err());
    assert!(matches!(
        persistable_index_dimensionality(-12),
        Err(LocalHnswSegmentWriterError::InvalidPersistedMetadata(reason))
            if reason == "index dimensionality must be positive, got -12"
    ));
}

#[test]
fn persistable_index_dimensionality_accepts_positive_values() {
    assert_eq!(persistable_index_dimensionality(384).unwrap(), 384);
}

#[test]
fn persistable_log_offset_rejects_negative_values() {
    assert!(matches!(
        persistable_log_offset(-1),
        Err(LocalHnswSegmentWriterError::InvalidLogOffset(-1))
    ));
}

#[test]
fn persistable_log_offset_keeps_what_fits_32_bits() {
    assert_eq!(persistable_log_offset(0).unwrap(), 0);
    assert_eq!(persistable_log_offset(u32::MAX as i64).unwrap(), u32::MAX);
    assert!(matches!(
        persistable_log_offset(u32::MAX as i64 + 1),
        Err(LocalHnswSegmentWriterError::InvalidLogOffset(4294967296))
    ));
}
