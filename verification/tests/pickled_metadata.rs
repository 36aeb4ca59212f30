use local_hnsw::error::{
    ErrorCodes, LocalHnswSegmentReaderError, LocalHnswSegmentWriterError,
};
use local_hnsw::id_map::{validate_persisted_id_map, IdMap, PersistedFields, ValidatedIdMap};
use local_hnsw::id_table::IdTable;
use local_hnsw::opening::{Access, OpenFailure, OpenStep, SegmentOpening};
use local_hnsw::segment::{HnswConfiguration, HnswSpace};
use serde_pickle::{DeOptions, HashableValue, SerOptions, Value};
use std::collections::{BTreeMap, HashMap};

fn key(name: &str) -> HashableValue {
    HashableValue::String(String::from(name))
}

fn ids_to_numbers(entries: &[(&str, i64)]) -> Value {
    let mut dict = BTreeMap::new();
    for (id, number) in entries {
        dict.insert(key(id), Value::I64(*number));
    }
    Value::Dict(dict)
}

fn labels_to_ids(entries: &[(i64, &str)]) -> Value {
    let mut dict = BTreeMap::new();
    for (label, id) in entries {
        dict.insert(HashableValue::I64(*label), Value::String(String::from(*id)));
    }
    Value::Dict(dict)
}

fn full_metadata(dimensionality: Value) -> BTreeMap<HashableValue, Value> {
    let mut fields = BTreeMap::new();
    fields.insert(key("dimensionality"), dimensionality);
    fields.insert(key("total_elements_added"), Value::I64(1));
    fields.insert(key("max_seq_id"), Value::None);
    fields.insert(key("id_to_label"), ids_to_numbers(&[("a", 1)]));
    fields.insert(key("label_to_id"), labels_to_ids(&[(1, "a")]));
    fields.insert(key("id_to_seq_id"), ids_to_numbers(&[("a", 1)]));
    fields
}

fn pickled(fields: BTreeMap<HashableValue, Value>) -> Vec<u8> {
    serde_pickle::value_to_vec(&Value::Dict(fields), SerOptions::new()).unwrap()
}

fn number(value: &Value) -> i64 {
    match value {
        Value::I64(number) => *number,
        other => panic!("expected a number, found {other}"),
    }
}

fn optional_number(value: Option<&Value>) -> Option<i64> {
    match value {
        None | Some(Value::None) => None,
        Some(value) => Some(number(value)),
    }
}

fn entries(value: &Value) -> &BTreeMap<HashableValue, Value> {
    match value {
        Value::Dict(dict) => dict,
        other => panic!("expected entries, found {other}"),
    }
}

fn table(value: &Value) -> IdTable {
    let mut table = IdTable::new();
    for (id, value) in entries(value) {
        match id {
            HashableValue::String(id) => table.insert(id.clone(), number(value) as u32),
            other => panic!("expected an id, found {other}"),
        }
    }
    table
}

fn labels(value: &Value) -> HashMap<u32, String> {
    let mut labels = HashMap::new();
    for (label, id) in entries(value) {
        match (label, id) {
            (HashableValue::I64(label), Value::String(id)) => {
                labels.insert(*label as u32, id.clone());
            }
            _ => panic!("expected a label and an id"),
        }
    }
    labels
}

/// Reads the fields that the metadata holds; the library makes a map of them.
fn unpickled(pickle: &[u8]) -> Result<IdMap, serde_pickle::Error> {
    let value = serde_pickle::value_from_slice(pickle, DeOptions::new())?;
    let fields = match value {
        Value::Dict(fields) => fields,
        other => panic!("expected fields, found {other}"),
    };
    Ok(IdMap::from_fields(PersistedFields {
        dimensionality: optional_number(fields.get(&key("dimensionality"))).map(|d| d as usize),
        total_elements_added: fields.get(&key("total_elements_added")).map(|t| number(t) as u32),
        max_seq_id: optional_number(fields.get(&key("max_seq_id"))).map(|s| s as u64),
        id_to_label: fields.get(&key("id_to_label")).map(table),
        label_to_id: fields.get(&key("label_to_id")).map(labels),
        id_to_seq_id: fields.get(&key("id_to_seq_id")).map(table),
    }))
}

fn refusal(result: Result<ValidatedIdMap, String>) -> String {
    match result {
        Err(reason) => reason,
        Ok(_) => panic!("id map should be refused"),
    }
}

#[test]
fn persisted_id_map_accepts_legacy_metadata_after_pickle_deserialization() {
    let pickle = pickled(full_metadata(Value::None));
    let id_map = unpickled(&pickle).expect("pickle should deserialize");

    match validate_persisted_id_map(id_map, 3).unwrap() {
        ValidatedIdMap::Initialized { dimensionality, .. } => {
            assert_eq!(dimensionality.get(), 3)
        }
        ValidatedIdMap::Uninitialized => panic!("id map should be initialized"),
    }
}

#[test]
fn persisted_id_map_defaults_missing_fields_before_validation() {
    let mut fields = full_metadata(Value::I64(3));
    fields.remove(&key("id_to_seq_id"));
    let id_map = unpickled(&pickled(fields)).expect("pickle should deserialize");

    let err = refusal(validate_persisted_id_map(id_map, 3));
    assert!(err.contains("partially populated"));
}

#[test]
fn persisted_id_map_defaults_missing_reverse_labels_before_validation() {
    let mut fields = full_metadata(Value::I64(3));
    fields.remove(&key("label_to_id"));
    let id_map = unpickled(&pickled(fields)).expect("pickle should deserialize");

    let err = refusal(validate_persisted_id_map(id_map, 3));
    assert!(err.contains("partially populated"));
}

#[test]
fn persisted_id_map_defaults_missing_total_before_validation() {
    let mut fields = full_metadata(Value::I64(3));
    fields.remove(&key("total_elements_added"));
    let id_map = unpickled(&pickled(fields)).expect("pickle should deserialize");

    let err = refusal(validate_persisted_id_map(id_map, 3));
    assert!(err.contains("total_elements_added is smaller"));
}

#[test]
fn persisted_id_map_defaults_missing_forward_labels_before_validation() {
    let mut fields = full_metadata(Value::I64(3));
    fields.remove(&key("id_to_label"));
    let id_map = unpickled(&pickled(fields)).expect("pickle should deserialize");

    let err = refusal(validate_persisted_id_map(id_map, 3));
    assert!(err.contains("partially populated"));
}

#[test]
fn fields_that_are_missing_are_empty() {
    let id_map = IdMap::from_fields(PersistedFields {
        dimensionality: None,
        total_elements_added: None,
        max_seq_id: None,
        id_to_label: None,
        label_to_id: None,
        id_to_seq_id: None,
    });
    assert_eq!(id_map.dimensionality, None);
    assert_eq!(id_map.total_elements_added, 0);
    assert_eq!(id_map.max_seq_id, None);
    assert!(id_map.id_to_label.is_empty());
    assert!(id_map.label_to_id.is_empty());
    assert!(id_map.id_to_seq_id.is_empty());

    let mut fields = full_metadata(Value::I64(3));
    fields.insert(key("total_elements_added"), Value::I64(6));
    fields.insert(key("max_seq_id"), Value::I64(8));
    fields.insert(key("id_to_seq_id"), ids_to_numbers(&[("a", 7)]));
    let id_map = unpickled(&pickled(fields)).expect("pickle should deserialize");
    assert_eq!(id_map.dimensionality, Some(3));
    assert_eq!(id_map.total_elements_added, 6);
    assert_eq!(id_map.max_seq_id, Some(8));
    assert_eq!(id_map.id_to_label.get("a"), Some(1));
    assert_eq!(id_map.label_to_id, HashMap::from([(1, String::from("a"))]));
    assert_eq!(id_map.id_to_seq_id.get("a"), Some(7));
}

const TRUNCATED: [u8; 3] = [0x80, 0x03, b'}'];

/// Opens a segment up to its metadata, which is the given pickle.
fn opened_on(access: Access, pickle: &[u8]) -> Result<SegmentOpening, OpenFailure> {
    let configuration = HnswConfiguration {
        space: HnswSpace::L2,
        max_neighbors: 16,
        ef_construction: 100,
        ef_search: 100,
        sync_threshold: 1000,
    };
    let opening = SegmentOpening::start(access, configuration, 3, true)
        .folder_probed(true, Some(String::from("/data/segment")))?
        .metadata_probed(true)?;
    assert_eq!(opening.step, OpenStep::ReadMetadata);
    match unpickled(pickle) {
        Ok(id_map) => opening.metadata_read(id_map),
        Err(err) => Err(OpenFailure::UnreadableMetadata(err.to_string())),
    }
}

#[test]
fn reader_reports_deserialize_error_for_truncated_pickle() {
    let err = match opened_on(Access::Read, &TRUNCATED) {
        Err(failure) => failure.reader_error(),
        Ok(_) => panic!("a truncated pickle should be refused"),
    };

    assert!(matches!(
        err,
        LocalHnswSegmentReaderError::PickleFileDeserializeError(_)
    ));
    assert_eq!(err.code(), ErrorCodes::Internal);
    assert!(err.message().starts_with("Error deserializing pickle file: eval error at offset"));
}

#[test]
fn writer_reports_deserialize_error_for_truncated_pickle() {
    let err = match opened_on(Access::Write, &TRUNCATED) {
        Err(failure) => failure.writer_error(),
        Ok(_) => panic!("a truncated pickle should be refused"),
    };

    assert!(matches!(
        err,
        LocalHnswSegmentWriterError::PickleFileDeserializeError(_)
    ));
    assert_eq!(err.message(), "Error deserializing pickle file");
}

#[test]
fn a_whole_pickle_leads_to_the_index() {
    for access in [Access::Read, Access::Write] {
        let pickle = pickled(full_metadata(Value::I64(3)));
        match opened_on(access, &pickle) {
            Ok(opening) => assert_eq!(opening.step, OpenStep::LoadIndex { dimensionality: 3 }),
            Err(_) => panic!("the metadata should be accepted"),
        }
    }
}
