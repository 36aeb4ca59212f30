use local_hnsw::atomic_write::AtomicWriteStep;
use local_hnsw::batch::{group_by_label, resize_target};
use local_hnsw::error::{
    ConfigurationError, ErrorCodes, LocalHnswSegmentReaderError, LocalHnswSegmentWriterError,
};
use local_hnsw::id_map::{Dimensionality, IdMap};
use local_hnsw::id_table::IdTable;
use local_hnsw::log::IndexWork;
use local_hnsw::opening::{
    get_or_migrate_current_seq_id, Access, OpenFailure, OpenStep, SegmentOpening, SeqIdSource,
};
use local_hnsw::reader::LocalHnswSegmentReader;
use local_hnsw::segment::{HnswConfiguration, HnswSpace};
use local_hnsw::statements::{
    insert_max_seq_id_if_absent, replace_max_seq_id, select_max_seq_id,
};
use local_hnsw::text::{decimal_text, signed_decimal_text};
use local_hnsw::writer::LocalHnswSegmentWriter;
use sea_query::Value;

fn configuration() -> HnswConfiguration {
    HnswConfiguration {
        space: HnswSpace::Cosine,
        max_neighbors: 16,
        ef_construction: 100,
        ef_search: 10,
        sync_threshold: 1000,
    }
}

#[test]
fn integers_are_rendered_in_decimal() {
    for n in [0, 7, 9, 10, 11, 99, 100, 384, 4294967296, u64::MAX] {
        assert_eq!(decimal_text(n), n.to_string());
    }
    for n in [0, -1, 5, -10, i64::MAX, i64::MIN] {
        assert_eq!(signed_decimal_text(n), n.to_string());
    }
}

#[test]
fn a_table_keeps_the_last_value_of_each_id() {
    let mut table = IdTable::new();
    assert!(table.is_empty());
    table.insert(String::from("a"), 1);
    table.insert(String::from("b"), 2);
    table.insert(String::from("c"), 3);
    table.insert(String::from("b"), 20);
    assert_eq!(table.len(), 3);
    assert_eq!(table.get("b"), Some(20));
    table.remove("a");
    table.remove("x");
    assert_eq!(table.len(), 2);
    assert_eq!(table.get("a"), None);
    assert!(!table.contains_key("a") && table.contains_key("c"));
    let mut entries: Vec<(String, u32)> = (0..table.len())
        .map(|position| {
            let (id, value) = table.entry(position);
            (id.clone(), value)
        })
        .collect();
    entries.sort();
    assert_eq!(entries, vec![(String::from("b"), 20), (String::from("c"), 3)]);
    table.remove("b");
    table.remove("c");
    assert!(table.is_empty());
}

#[test]
fn work_is_grouped_by_label_in_log_order() {
    let work: Vec<IndexWork> = [(4, 0), (7, 1), (4, 2), (9, 3), (7, 4), (4, 5)]
        .iter()
        .map(|(label, record)| IndexWork { label: *label, record: *record })
        .collect();
    let mut groups: Vec<(u32, Vec<usize>)> =
        group_by_label(&work).into_iter().map(|group| (group.label, group.records)).collect();
    groups.sort();
    assert_eq!(groups, vec![(4, vec![0, 2, 5]), (7, vec![1, 4]), (9, vec![3])]);
    assert!(group_by_label(&vec![]).is_empty());
}

#[test]
fn an_index_grows_to_the_next_power_of_two() {
    assert_eq!(resize_target(3, 2, 6), None);
    assert_eq!(resize_target(3, 2, 5), Some(8));
    assert_eq!(resize_target(6, 2, 8), Some(8));
    assert_eq!(resize_target(7, 2, 8), Some(16));
    assert_eq!(resize_target(0, 0, 0), Some(1));
    assert_eq!(resize_target(0, 1, 1), Some(1));
    assert_eq!(resize_target(usize::MAX - 1, 0, usize::MAX), None);
    let half = usize::MAX / 2 + 1;
    assert_eq!(resize_target(half, 0, 0), Some(half));
    for needed in 0..300usize {
        assert_eq!(resize_target(needed, 0, 0), Some(needed.next_power_of_two()));
    }
}

#[test]
fn statements_address_the_row_of_the_segment() {
    let statement = select_max_seq_id("segment-1");
    assert_eq!(
        statement.sql,
        "SELECT \"seq_id\" FROM \"max_seq_id\" WHERE \"segment_id\" = ?"
    );
    assert_eq!(statement.values.0, vec![Value::from("segment-1")]);

    let statement = insert_max_seq_id_if_absent("segment-1", 17);
    assert_eq!(
        statement.sql,
        "INSERT INTO \"max_seq_id\" (\"segment_id\", \"seq_id\") VALUES (?, ?) \
         ON CONFLICT (\"segment_id\") DO NOTHING"
    );
    assert_eq!(statement.values.0, vec![Value::from("segment-1"), Value::from(17u64)]);

    let statement = replace_max_seq_id("it's \"quoted\"?", u64::MAX);
    assert_eq!(
        statement.sql,
        "REPLACE INTO \"max_seq_id\" (\"segment_id\", \"seq_id\") VALUES (?, ?)"
    );
    assert_eq!(
        statement.values.0,
        vec![Value::from("it's \"quoted\"?"), Value::from(u64::MAX)]
    );
}

#[test]
fn the_database_wins_over_older_metadata() {
    assert_eq!(get_or_migrate_current_seq_id(Some(4), Some(9)), SeqIdSource::Database(Some(4)));
    assert_eq!(get_or_migrate_current_seq_id(Some(4), None), SeqIdSource::Database(Some(4)));
    assert_eq!(get_or_migrate_current_seq_id(None, Some(9)), SeqIdSource::Legacy(9));
    assert_eq!(get_or_migrate_current_seq_id(None, None), SeqIdSource::Database(None));
}

fn opening(access: Access, dimensionality: usize) -> SegmentOpening {
    SegmentOpening::start(access, configuration(), dimensionality, true)
}

fn folder() -> Option<String> {
    Some(String::from("/data/segment"))
}

fn at(result: Result<SegmentOpening, OpenFailure>) -> SegmentOpening {
    match result {
        Ok(opening) => opening,
        Err(_) => panic!("the opening should go on"),
    }
}

#[test]
fn a_folder_is_needed_to_read_and_made_to_write() {
    assert!(matches!(
        opening(Access::Read, 3).folder_probed(false, folder()),
        Err(OpenFailure::UninitializedSegment)
    ));
    let created = at(opening(Access::Write, 3).folder_probed(false, folder()));
    assert_eq!(created.step, OpenStep::CreateFolder);
    let created = at(created.folder_created());
    assert_eq!(created.step, OpenStep::FindMetadata);
    assert_eq!(created.folder, folder());
    let unnamed = at(opening(Access::Write, 3).folder_probed(false, None));
    assert!(matches!(unnamed.folder_created(), Err(OpenFailure::PersistPath)));
    for access in [Access::Read, Access::Write] {
        assert!(matches!(
            opening(access, 3).folder_probed(true, None),
            Err(OpenFailure::PersistPath)
        ));
    }
}

#[test]
fn missing_metadata_ends_a_reader_and_starts_a_writer_afresh() {
    let reading = at(opening(Access::Read, 3).folder_probed(true, folder()));
    assert!(matches!(reading.metadata_probed(false), Err(OpenFailure::UninitializedSegment)));
    let writing = at(opening(Access::Write, 3).folder_probed(true, folder()));
    let writing = at(writing.metadata_probed(false));
    assert_eq!(writing.step, OpenStep::InitIndex { dimensionality: 3 });
    assert_eq!(writing.folder, folder());
    assert!(matches!(writing.index_initialized(false), Err(OpenFailure::IndexInit)));
    let writing = at(opening(Access::Write, 3).folder_probed(true, folder()));
    let writing = at(writing.metadata_probed(true));
    assert_eq!(writing.step, OpenStep::ReadMetadata);
    let writing = at(writing.metadata_read(IdMap::default()));
    assert_eq!(writing.step, OpenStep::InitIndex { dimensionality: 3 });
}

#[test]
fn dimensionalities_wrap_where_an_index_is_created_unseen() {
    let opening = SegmentOpening::start(Access::Read, configuration(), (1 << 32) + 5, false);
    assert_eq!(opening.step, OpenStep::InitIndex { dimensionality: 5 });
    assert_eq!(at(opening.index_initialized(true)).step, OpenStep::Ready);
}

#[test]
fn failures_to_open_become_errors_of_readers_and_writers() {
    assert!(matches!(
        OpenFailure::UninitializedSegment.reader_error(),
        LocalHnswSegmentReaderError::UninitializedSegment
    ));
    assert!(matches!(
        OpenFailure::PersistPath.reader_error(),
        LocalHnswSegmentReaderError::PersistPathError
    ));
    assert!(matches!(
        OpenFailure::InvalidPersistedMetadata(String::from("r")).reader_error(),
        LocalHnswSegmentReaderError::InvalidPersistedMetadata(reason) if reason == "r"
    ));
    assert!(matches!(
        OpenFailure::IndexLoad.reader_error(),
        LocalHnswSegmentReaderError::HnswIndexLoadError
    ));
    assert!(matches!(
        OpenFailure::IndexInit.reader_error(),
        LocalHnswSegmentReaderError::HnswIndexLoadError
    ));
    assert!(matches!(
        OpenFailure::Disk(detail()).reader_error(),
        LocalHnswSegmentReaderError::PickleFileOpenError(text) if text == "detail"
    ));
    assert!(matches!(
        OpenFailure::UnreadableMetadata(detail()).reader_error(),
        LocalHnswSegmentReaderError::PickleFileDeserializeError(text) if text == "detail"
    ));
    assert!(matches!(
        OpenFailure::Database(detail()).reader_error(),
        LocalHnswSegmentReaderError::SqliteError(text) if text == "detail"
    ));
    assert!(matches!(
        OpenFailure::IndexConfiguration(configuration_error()).reader_error(),
        LocalHnswSegmentReaderError::HnswIndexLoadError
    ));
    assert!(matches!(
        OpenFailure::Disk(detail()).writer_error(),
        LocalHnswSegmentWriterError::PickleFileOpenError(text) if text == "detail"
    ));
    assert!(matches!(
        OpenFailure::UnreadableMetadata(detail()).writer_error(),
        LocalHnswSegmentWriterError::PickleFileDeserializeError(text) if text == "detail"
    ));
    assert!(matches!(
        OpenFailure::Database(detail()).writer_error(),
        LocalHnswSegmentWriterError::MaxSeqIdUpdateError(text) if text == "detail"
    ));
    assert!(matches!(
        OpenFailure::IndexConfiguration(configuration_error()).writer_error(),
        LocalHnswSegmentWriterError::HnswConfigError(err) if err.message == "detail"
    ));
    assert!(matches!(
        OpenFailure::UninitializedSegment.writer_error(),
        LocalHnswSegmentWriterError::UninitializedSegment
    ));
    assert!(matches!(
        OpenFailure::PersistPath.writer_error(),
        LocalHnswSegmentWriterError::PersistPathError
    ));
    assert!(matches!(
        OpenFailure::InvalidPersistedMetadata(String::from("w")).writer_error(),
        LocalHnswSegmentWriterError::InvalidPersistedMetadata(reason) if reason == "w"
    ));
    assert!(matches!(
        OpenFailure::IndexLoad.writer_error(),
        LocalHnswSegmentWriterError::HnswIndexLoadError
    ));
    assert!(matches!(
        OpenFailure::IndexInit.writer_error(),
        LocalHnswSegmentWriterError::HnswIndexInitError
    ));
}

#[test]
fn a_schema_has_to_yield_a_configuration() {
    let root = Some(String::from("/data"));
    let opening =
        LocalHnswSegmentReader::from_segment(Some(Ok(Some(configuration()))), 3, &root).unwrap();
    assert_eq!(opening.step, OpenStep::FindFolder);
    assert_eq!(opening.configuration, configuration());
    for schema in [None, Some(Ok(None))] {
        assert!(matches!(
            LocalHnswSegmentReader::from_segment(schema, 3, &root),
            Err(LocalHnswSegmentReaderError::MissingHnswConfiguration)
        ));
    }
    for schema in [None, Some(Ok(None))] {
        assert!(matches!(
            LocalHnswSegmentWriter::from_segment(schema, 3, &root),
            Err(LocalHnswSegmentWriterError::MissingHnswConfiguration)
        ));
    }
    let refused = || {
        Some(Err(ConfigurationError {
            code: ErrorCodes::InvalidArgument,
            message: String::from("bad metadata"),
        }))
    };
    let err = match LocalHnswSegmentReader::from_segment(refused(), 3, &root) {
        Err(err) => err,
        Ok(_) => panic!("the configuration should be refused"),
    };
    assert_eq!(err.code(), ErrorCodes::InvalidArgument);
    assert_eq!(err.message(), "Could not parse HNSW configuration: bad metadata");
    let err = match LocalHnswSegmentWriter::from_segment(refused(), 3, &root) {
        Err(err) => err,
        Ok(_) => panic!("the configuration should be refused"),
    };
    assert_eq!(err.code(), ErrorCodes::InvalidArgument);
    assert_eq!(err.message(), "Could not parse HNSW configuration: bad metadata");
}

fn detail() -> String {
    String::from("detail")
}

fn configuration_error() -> ConfigurationError {
    ConfigurationError { code: ErrorCodes::NotFound, message: detail() }
}

#[test]
fn reader_errors_have_codes_and_messages() {
    let internal = [
        (
            LocalHnswSegmentReaderError::PickleFileOpenError(detail()),
            "Error opening pickle file: detail",
        ),
        (
            LocalHnswSegmentReaderError::PickleFileDeserializeError(detail()),
            "Error deserializing pickle file: detail",
        ),
        (LocalHnswSegmentReaderError::HnswIndexLoadError, "Error loading hnsw index"),
        (LocalHnswSegmentReaderError::UninitializedSegment, "Nothing found on disk"),
        (
            LocalHnswSegmentReaderError::MissingHnswConfiguration,
            "Collection is missing HNSW configuration",
        ),
        (LocalHnswSegmentReaderError::PersistPathError, "Error serializing path to string"),
        (LocalHnswSegmentReaderError::IdNotFound, "Error finding id"),
        (LocalHnswSegmentReaderError::GetEmbeddingError, "Error getting embedding"),
        (LocalHnswSegmentReaderError::QueryError, "Error querying knn"),
        (
            LocalHnswSegmentReaderError::SqliteError(detail()),
            "Error reading from sqlite: detail",
        ),
        (
            LocalHnswSegmentReaderError::InvalidPersistedMetadata(detail()),
            "Invalid persisted local HNSW metadata: detail",
        ),
    ];
    for (err, message) in internal {
        assert_eq!(err.message(), message);
        assert_eq!(err.code(), ErrorCodes::Internal);
    }
    let err = LocalHnswSegmentReaderError::InvalidHnswConfiguration(configuration_error());
    assert_eq!(err.message(), "Could not parse HNSW configuration: detail");
    assert_eq!(err.code(), ErrorCodes::NotFound);
}

#[test]
fn writer_errors_have_codes_and_messages() {
    let internal = [
        (
            LocalHnswSegmentWriterError::PickleFileOpenError(detail()),
            "Error opening pickle file",
        ),
        (
            LocalHnswSegmentWriterError::PickleFileSerializeError(detail()),
            "Error serializing pickle file",
        ),
        (
            LocalHnswSegmentWriterError::PickleFileDeserializeError(detail()),
            "Error deserializing pickle file",
        ),
        (LocalHnswSegmentWriterError::HnswIndexLoadError, "Error loading hnsw index"),
        (LocalHnswSegmentWriterError::UninitializedSegment, "Nothing found on disk"),
        (
            LocalHnswSegmentWriterError::MissingHnswConfiguration,
            "Collection is missing HNSW configuration",
        ),
        (LocalHnswSegmentWriterError::HnswIndexInitError, "Error creating hnsw index"),
        (LocalHnswSegmentWriterError::HnswIndexPersistError, "Error persisting hnsw index"),
        (LocalHnswSegmentWriterError::HnwsIndexAddError, "Error applying log chunk"),
        (LocalHnswSegmentWriterError::HnswIndexResizeError, "Error applying log chunk"),
        (LocalHnswSegmentWriterError::HnswIndexDeleteError, "Error applying log chunk"),
        (
            LocalHnswSegmentWriterError::PersistPathError,
            "Error converting persistant path to string",
        ),
        (
            LocalHnswSegmentWriterError::InvalidLogOffset(-42),
            "Invalid log offset for persisted HNSW metadata: -42",
        ),
        (
            LocalHnswSegmentWriterError::QueryBuilderError(detail()),
            "Error updating max sequence id",
        ),
        (
            LocalHnswSegmentWriterError::MaxSeqIdUpdateError(detail()),
            "Error updating max sequence id",
        ),
        (
            LocalHnswSegmentWriterError::InvalidPersistedMetadata(detail()),
            "Invalid persisted local HNSW metadata: detail",
        ),
    ];
    for (err, message) in internal {
        assert_eq!(err.message(), message);
        assert_eq!(err.code(), ErrorCodes::Internal);
    }
    let err = LocalHnswSegmentWriterError::EmbeddingNotFound;
    assert_eq!(err.message(), "Error applying log chunk");
    assert_eq!(err.code(), ErrorCodes::InvalidArgument);
    let err = LocalHnswSegmentWriterError::HnswConfigError(configuration_error());
    assert_eq!(err.message(), "Error creating hnsw config object");
    assert_eq!(err.code(), ErrorCodes::NotFound);
    let err = LocalHnswSegmentWriterError::InvalidHnswConfiguration(configuration_error());
    assert_eq!(err.message(), "Could not parse HNSW configuration: detail");
    assert_eq!(err.code(), ErrorCodes::NotFound);
}

/// Replaces the contents of a file in memory, with a step that fails.
fn replaced(target: &[u8], contents: &[u8], failing: Option<AtomicWriteStep>) -> Vec<u8> {
    let mut target = target.to_vec();
    let mut temporary = Vec::new();
    let mut step = AtomicWriteStep::first(true);
    loop {
        match step {
            AtomicWriteStep::Write => temporary = contents.to_vec(),
            AtomicWriteStep::Replace if failing != Some(step) => target = temporary.clone(),
            AtomicWriteStep::Done | AtomicWriteStep::Failed => return target,
            _ => {}
        }
        step = step.next(failing != Some(step));
    }
}

#[test]
fn atomic_metadata_write_preserves_existing_file_on_failure() {
    for failing in [
        AtomicWriteStep::CreateTemporary,
        AtomicWriteStep::Write,
        AtomicWriteStep::Flush,
        AtomicWriteStep::Sync,
        AtomicWriteStep::Replace,
    ] {
        assert_eq!(
            replaced(b"stable metadata", b"corrupt metadata", Some(failing)),
            b"stable metadata"
        );
    }
    assert_eq!(replaced(b"stable metadata", b"new metadata", None), b"new metadata");
}

#[test]
fn an_atomic_write_takes_five_steps_and_needs_a_directory() {
    let mut steps = vec![AtomicWriteStep::first(true)];
    for _ in 0..5 {
        steps.push(steps[steps.len() - 1].next(true));
    }
    assert_eq!(
        steps,
        vec![
            AtomicWriteStep::CreateTemporary,
            AtomicWriteStep::Write,
            AtomicWriteStep::Flush,
            AtomicWriteStep::Sync,
            AtomicWriteStep::Replace,
            AtomicWriteStep::Done,
        ]
    );
    assert_eq!(AtomicWriteStep::Done.next(false), AtomicWriteStep::Done);
    assert_eq!(AtomicWriteStep::first(false), AtomicWriteStep::Failed);
    assert_eq!(AtomicWriteStep::Failed.next(true), AtomicWriteStep::Failed);
}

#[test]
fn a_dimensionality_is_the_number_it_wraps() {
    assert_eq!(Dimensionality::new(384).get(), 384);
}
