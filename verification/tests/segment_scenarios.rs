//! Segments from the first chunk to the next reader, on a disk, an index and a database that live
//! in memory.
use local_hnsw::batch::resize_target;
use local_hnsw::error::{ErrorCodes, LocalHnswSegmentReaderError, LocalHnswSegmentWriterError};
use local_hnsw::id_map::IdMap;
use local_hnsw::id_table::IdTable;
use local_hnsw::log::{LogRecord, Operation, OperationRecord};
use local_hnsw::opening::{OpenFailure, OpenStep, SegmentOpening, METADATA_FILE};
use local_hnsw::reader::LocalHnswSegmentReader;
use local_hnsw::segment::{HnswConfiguration, HnswSpace};
use local_hnsw::writer::{
    index_call, ChunkProgress, ChunkStep, IndexCall, LocalHnswSegmentWriter,
};
use std::collections::HashMap;

type Embedding = Vec<f32>;

/// What outlives readers and writers of one segment.
struct World {
    folder_exists: bool,
    metadata: Option<IdMap>,
    saved_index: Option<HashMap<usize, Embedding>>,
    index_is_readable: bool,
    seq_id: Option<u64>,
    loads: usize,
}

impl World {
    fn new() -> World {
        World {
            folder_exists: false,
            metadata: None,
            saved_index: None,
            index_is_readable: true,
            seq_id: None,
            loads: 0,
        }
    }

    fn with_metadata(id_map: IdMap) -> World {
        World { folder_exists: true, metadata: Some(id_map), ..World::new() }
    }
}

fn copy_table(table: &IdTable) -> IdTable {
    let mut copy = IdTable::new();
    for position in 0..table.len() {
        let (id, value) = table.entry(position);
        copy.insert(id.clone(), value);
    }
    copy
}

fn copy_map(id_map: &IdMap) -> IdMap {
    IdMap {
        dimensionality: id_map.dimensionality,
        total_elements_added: id_map.total_elements_added,
        max_seq_id: id_map.max_seq_id,
        id_to_label: copy_table(&id_map.id_to_label),
        label_to_id: id_map.label_to_id.clone(),
        id_to_seq_id: copy_table(&id_map.id_to_seq_id),
    }
}

fn configuration(sync_threshold: usize) -> HnswConfiguration {
    HnswConfiguration {
        space: HnswSpace::L2,
        max_neighbors: 16,
        ef_construction: 100,
        ef_search: 100,
        sync_threshold,
    }
}

fn root() -> Option<String> {
    Some(String::from("/data"))
}

/// Does what the opening asks for until it is ready, and returns it with its index.
fn run_opening(
    world: &mut World,
    opening: SegmentOpening,
) -> Result<(SegmentOpening, HashMap<usize, Embedding>), OpenFailure> {
    let mut opening = opening;
    let mut index = HashMap::new();
    loop {
        opening = match opening.step {
            OpenStep::FindFolder => {
                opening.folder_probed(world.folder_exists, Some(String::from("/data/segment")))?
            }
            OpenStep::CreateFolder => {
                world.folder_exists = true;
                opening.folder_created()?
            }
            OpenStep::FindMetadata => opening.metadata_probed(world.metadata.is_some())?,
            OpenStep::ReadMetadata => {
                let id_map = copy_map(world.metadata.as_ref().unwrap());
                opening.metadata_read(id_map)?
            }
            OpenStep::LoadIndex { dimensionality } => {
                assert_eq!(dimensionality, 3);
                world.loads += 1;
                let loaded = world.index_is_readable && world.saved_index.is_some();
                if loaded {
                    index = world.saved_index.clone().unwrap();
                }
                opening.index_loaded(loaded)?
            }
            OpenStep::ReadSeqId => opening.seq_id_read(world.seq_id)?,
            OpenStep::StoreLegacySeqId { seq_id } => {
                if world.seq_id.is_none() {
                    world.seq_id = Some(seq_id);
                }
                opening.legacy_seq_id_stored()?
            }
            OpenStep::InitIndex { dimensionality } => {
                assert_eq!(dimensionality, 3);
                index = HashMap::new();
                opening.index_initialized(true)?
            }
            OpenStep::Ready => return Ok((opening, index)),
        };
    }
}

struct OpenWriter {
    writer: LocalHnswSegmentWriter,
    index: HashMap<usize, Embedding>,
    calls: usize,
}

fn open_writer(
    world: &mut World,
    sync_threshold: usize,
) -> Result<OpenWriter, LocalHnswSegmentWriterError> {
    let opening = LocalHnswSegmentWriter::from_segment(
        Some(Ok(Some(configuration(sync_threshold)))),
        3,
        &root(),
    )?;
    let (opening, index) = run_opening(world, opening).map_err(OpenFailure::writer_error)?;
    Ok(OpenWriter {
        writer: LocalHnswSegmentWriter::from_opening(opening),
        index,
        calls: 0,
    })
}

struct OpenReader {
    reader: LocalHnswSegmentReader,
    index: HashMap<usize, Embedding>,
}

fn open_reader(world: &mut World) -> Result<OpenReader, LocalHnswSegmentReaderError> {
    let opening =
        LocalHnswSegmentReader::from_segment(Some(Ok(Some(configuration(1000)))), 3, &root())?;
    let (opening, index) = run_opening(world, opening).map_err(OpenFailure::reader_error)?;
    Ok(OpenReader { reader: LocalHnswSegmentReader::from_opening(opening), index })
}

impl OpenReader {
    fn get_embedding_by_user_id(
        &self,
        user_id: &str,
    ) -> Result<Embedding, LocalHnswSegmentReaderError> {
        self.reader.get_embedding_by_user_id(&String::from(user_id), |label: usize| {
            Ok(self.index.get(&label).cloned())
        })
    }
}

impl OpenWriter {
    /// Applies a chunk to the end.
    fn apply(
        &mut self,
        world: &mut World,
        chunk: Vec<LogRecord<Embedding>>,
    ) -> Result<u32, LocalHnswSegmentWriterError> {
        assert!(self.writer.has_room_for(&chunk));
        let mut progress = self.writer.apply_log_chunk(&chunk)?;
        loop {
            match progress.step {
                ChunkStep::UpdateIndex => self.update_index(&mut progress, &chunk)?,
                ChunkStep::SaveIndex => {
                    world.saved_index = Some(self.index.clone());
                    self.writer.index_saved(&mut progress, 3)?;
                }
                ChunkStep::WriteMetadata => {
                    world.metadata = Some(copy_map(&self.writer.index.inner.id_map));
                    self.writer.metadata_written(&mut progress);
                }
                ChunkStep::StoreSeqId => {
                    world.seq_id = Some(progress.max_seq_id);
                    self.writer.seq_id_stored(&mut progress);
                }
                ChunkStep::Done => return Ok(progress.next_label),
            }
        }
    }

    fn update_index(
        &mut self,
        progress: &mut ChunkProgress,
        chunk: &Vec<LogRecord<Embedding>>,
    ) -> Result<(), LocalHnswSegmentWriterError> {
        for group in &progress.batch {
            let mut position = 0;
            while let Some(call) = index_call(group, chunk, position) {
                self.calls += 1;
                let succeeded = match call {
                    IndexCall::Put(label, embedding) => {
                        self.index.insert(label, embedding.clone());
                        true
                    }
                    IndexCall::Remove(label) => self.index.remove(&label).is_some(),
                };
                position = call.answered(position, succeeded)?;
            }
        }
        self.writer.index_updated(progress);
        Ok(())
    }
}

fn log_record(
    id: &str,
    log_offset: i64,
    operation: Operation,
    embedding: Option<Embedding>,
) -> LogRecord<Embedding> {
    LogRecord {
        log_offset,
        record: OperationRecord { id: String::from(id), embedding, operation },
    }
}

fn table(entries: &[(&str, u32)]) -> IdTable {
    let mut table = IdTable::new();
    for (id, value) in entries {
        table.insert(String::from(*id), *value);
    }
    table
}

fn populated_id_map(dimensionality: Option<usize>) -> IdMap {
    IdMap {
        dimensionality,
        total_elements_added: 1,
        max_seq_id: None,
        id_to_label: table(&[("a", 1)]),
        label_to_id: HashMap::from([(1, String::from("a"))]),
        id_to_seq_id: table(&[("a", 1)]),
    }
}

fn written_world(log_offset: i64) -> World {
    let mut world = World::new();
    let mut writer = open_writer(&mut world, 1).expect("writer should initialize");
    writer
        .apply(
            &mut world,
            vec![log_record("a", log_offset, Operation::Add, Some(vec![1.0, 2.0, 3.0]))],
        )
        .expect("add should persist");
    world
}

#[test]
fn metadata_is_kept_under_a_fixed_name() {
    assert_eq!(METADATA_FILE, "index_metadata.pickle");
}

#[test]
fn reader_rejects_invalid_persisted_metadata_before_loading_hnsw_index() {
    let mut world = World::with_metadata(populated_id_map(Some(0)));

    let err = match open_reader(&mut world) {
        Err(err) => err,
        Ok(_) => panic!("invalid metadata should be rejected"),
    };
    assert!(matches!(
        err,
        LocalHnswSegmentReaderError::InvalidPersistedMetadata(message)
            if message.contains("dimensionality is 0")
    ));
    assert_eq!(world.loads, 0);
}

#[test]
fn writer_rejects_invalid_persisted_metadata_before_loading_hnsw_index() {
    let mut world = World::with_metadata(populated_id_map(Some(0)));

    let err = match open_writer(&mut world, 1000) {
        Err(err) => err,
        Ok(_) => panic!("invalid metadata should be rejected"),
    };
    assert!(matches!(
        err,
        LocalHnswSegmentWriterError::InvalidPersistedMetadata(message)
            if message.contains("dimensionality is 0")
    ));
    assert_eq!(world.loads, 0);
}

#[test]
fn writer_tracks_id_to_seq_id_across_mutations() {
    let mut world = World::new();
    let mut writer = open_writer(&mut world, 1000).expect("writer should initialize");

    writer
        .apply(
            &mut world,
            vec![log_record("a", 1, Operation::Add, Some(vec![1.0, 2.0, 3.0]))],
        )
        .expect("add should succeed");
    writer
        .apply(
            &mut world,
            vec![log_record("a", 2, Operation::Update, Some(vec![3.0, 2.0, 1.0]))],
        )
        .expect("update should succeed");
    writer
        .apply(
            &mut world,
            vec![log_record("b", 3, Operation::Upsert, Some(vec![4.0, 5.0, 6.0]))],
        )
        .expect("upsert should succeed");
    writer
        .apply(&mut world, vec![log_record("a", 4, Operation::Delete, None)])
        .expect("delete should succeed");

    let id_map = &writer.writer.index.inner.id_map;
    assert_eq!(id_map.id_to_seq_id.get("b"), Some(3));
    assert!(!id_map.id_to_seq_id.contains_key("a"));
    assert_eq!(id_map.id_to_label.len(), id_map.id_to_seq_id.len());
}

#[test]
fn reader_reopens_index_persisted_by_writer() {
    let mut world = written_world(1);

    let reader = open_reader(&mut world).expect("reader should reopen persisted index");

    assert_eq!(
        reader
            .get_embedding_by_user_id("a")
            .expect("embedding should be readable after reopen"),
        vec![1.0, 2.0, 3.0]
    );
}

#[test]
fn writer_recovers_from_fully_deleted_persisted_metadata() {
    let mut world = World::new();
    let mut writer = open_writer(&mut world, 1).expect("writer should initialize");
    writer
        .apply(
            &mut world,
            vec![log_record("a", 1, Operation::Add, Some(vec![1.0, 2.0, 3.0]))],
        )
        .expect("add should persist");
    writer
        .apply(&mut world, vec![log_record("a", 2, Operation::Delete, None)])
        .expect("delete should persist");
    drop(writer);
    assert!(matches!(
        open_reader(&mut world),
        Err(LocalHnswSegmentReaderError::UninitializedSegment)
    ));

    let mut writer =
        open_writer(&mut world, 1).expect("writer should reopen fully deleted metadata");
    assert_eq!(writer.writer.index.inner.id_map.total_elements_added, 0);
    assert_eq!(writer.writer.index.inner.last_seen_seq_id, 0);
    writer
        .apply(
            &mut world,
            vec![log_record("replacement", 3, Operation::Add, Some(vec![9.0, 8.0, 7.0]))],
        )
        .expect("replacement add should persist");
    drop(writer);

    let reader = open_reader(&mut world).expect("reader should reopen replacement index");
    assert_eq!(
        reader
            .get_embedding_by_user_id("replacement")
            .expect("replacement embedding should be readable after reopen"),
        vec![9.0, 8.0, 7.0]
    );
}

#[test]
fn reader_rejects_missing_sqlite_max_seq_id_for_persisted_metadata() {
    let mut world = written_world(1);
    world.seq_id = None;

    assert!(matches!(
        open_reader(&mut world),
        Err(LocalHnswSegmentReaderError::InvalidPersistedMetadata(message))
            if message.contains("SQLite max_seq_id is missing")
    ));
}

#[test]
fn reader_rejects_stale_sqlite_max_seq_id_for_persisted_metadata() {
    let mut world = written_world(3);
    world.seq_id = Some(0);

    assert!(matches!(
        open_reader(&mut world),
        Err(LocalHnswSegmentReaderError::InvalidPersistedMetadata(message))
            if message.contains("SQLite max_seq_id is smaller")
    ));
}

#[test]
fn reader_reopens_with_migrated_legacy_max_seq_id() {
    let mut world = written_world(3);
    world.metadata.as_mut().unwrap().max_seq_id = Some(3);
    world.seq_id = None;

    let reader =
        open_reader(&mut world).expect("reader should reopen with migrated legacy max_seq_id");

    assert_eq!(reader.reader.index.inner.last_seen_seq_id, 3);
    assert_eq!(LocalHnswSegmentReader::current_max_seq_id(world.seq_id), 3);
}

#[test]
fn reader_rejects_missing_hnsw_index_file() {
    let mut world = written_world(1);
    world.saved_index = None;

    assert!(matches!(
        open_reader(&mut world),
        Err(LocalHnswSegmentReaderError::HnswIndexLoadError)
    ));
}

#[test]
fn reader_rejects_corrupt_hnsw_index_file() {
    let mut world = written_world(1);
    world.index_is_readable = false;

    assert!(matches!(
        open_reader(&mut world),
        Err(LocalHnswSegmentReaderError::HnswIndexLoadError)
    ));
}

#[test]
fn writer_rejects_unreadable_hnsw_index() {
    let mut world = written_world(1);
    world.index_is_readable = false;

    assert!(matches!(
        open_writer(&mut world, 1),
        Err(LocalHnswSegmentWriterError::HnswIndexLoadError)
    ));
}

#[test]
fn reopened_segment_is_the_one_the_writer_left() {
    let mut world = World::new();
    let mut writer = open_writer(&mut world, 2).expect("writer should initialize");
    writer
        .apply(
            &mut world,
            vec![
                log_record("a", 5, Operation::Add, Some(vec![1.0])),
                log_record("b", 6, Operation::Upsert, Some(vec![2.0])),
                log_record("a", 9, Operation::Update, Some(vec![3.0])),
            ],
        )
        .unwrap();
    let left = &writer.writer.index.inner;
    assert_eq!(left.num_elements_since_last_persist, 0);
    assert_eq!(left.id_map.dimensionality, Some(3));

    let found = open_writer(&mut world, 2).unwrap().writer.index.inner;
    assert_eq!(found.last_seen_seq_id, 9);
    assert_eq!(found.last_seen_seq_id, left.last_seen_seq_id);
    assert_eq!(found.num_elements_since_last_persist, 0);
    assert_eq!(found.sync_threshold, left.sync_threshold);
    assert_eq!(found.persist_path, left.persist_path);
    assert_eq!(found.persist_path, Some(String::from("/data/segment")));
    assert!(found.index_init && !found.allow_reset);
    assert_eq!(found.id_map.dimensionality, left.id_map.dimensionality);
    assert_eq!(found.id_map.total_elements_added, 2);
    assert_eq!(found.id_map.label_to_id, left.id_map.label_to_id);
    for id in ["a", "b"] {
        assert_eq!(found.id_map.id_to_label.get(id), left.id_map.id_to_label.get(id));
        assert_eq!(found.id_map.id_to_seq_id.get(id), left.id_map.id_to_seq_id.get(id));
    }
}

#[test]
fn labels_below_the_threshold_are_not_persisted() {
    let mut world = World::new();
    let mut writer = open_writer(&mut world, 3).expect("writer should initialize");
    let next = writer
        .apply(
            &mut world,
            vec![
                log_record("a", 1, Operation::Add, Some(vec![1.0])),
                log_record("b", 2, Operation::Add, Some(vec![2.0])),
            ],
        )
        .unwrap();
    assert_eq!(next, 3);
    assert!(world.metadata.is_none() && world.saved_index.is_none() && world.seq_id.is_none());
    assert_eq!(writer.writer.index.inner.num_elements_since_last_persist, 2);
    assert_eq!(writer.writer.index.inner.last_seen_seq_id, 2);

    let next = writer
        .apply(&mut world, vec![log_record("x", 3, Operation::BackfillFn, None)])
        .unwrap();
    assert_eq!(next, 3);
    assert_eq!(world.seq_id, Some(3));
    assert_eq!(world.metadata.as_ref().unwrap().total_elements_added, 2);
    assert_eq!(writer.writer.index.inner.num_elements_since_last_persist, 0);
}

#[test]
fn an_empty_chunk_changes_nothing() {
    let mut world = written_world(1);
    let mut writer = open_writer(&mut world, 1).unwrap();
    assert_eq!(writer.apply(&mut world, vec![]).unwrap(), 2);
    assert_eq!(writer.writer.index.inner.last_seen_seq_id, 1);
    assert_eq!(writer.writer.index.inner.num_elements_since_last_persist, 0);
}

#[test]
fn seen_records_change_no_map() {
    let mut world = written_world(4);
    let mut writer = open_writer(&mut world, 10).unwrap();
    writer
        .apply(
            &mut world,
            vec![
                log_record("a", 3, Operation::Delete, None),
                log_record("b", 4, Operation::Add, Some(vec![5.0])),
                log_record("c", 5, Operation::Add, Some(vec![6.0])),
            ],
        )
        .unwrap();
    let inner = &writer.writer.index.inner;
    assert_eq!(inner.id_map.id_to_label.get("a"), Some(1));
    assert!(!inner.id_map.id_to_label.contains_key("b"));
    assert_eq!(inner.id_map.id_to_label.get("c"), Some(2));
    assert_eq!(inner.num_elements_since_last_persist, 1);
    assert_eq!(inner.last_seen_seq_id, 5);
}

#[test]
fn chunk_boundaries_leave_the_same_maps() {
    fn log() -> Vec<LogRecord<Embedding>> {
        vec![
            log_record("a", 1, Operation::Add, Some(vec![1.0])),
            log_record("b", 2, Operation::Add, Some(vec![2.0])),
            log_record("a", 3, Operation::Delete, None),
            log_record("c", 4, Operation::Upsert, Some(vec![3.0])),
            log_record("a", 5, Operation::Add, Some(vec![4.0])),
            log_record("b", 6, Operation::Update, Some(vec![5.0])),
        ]
    }
    let mut world = World::new();
    let mut whole = open_writer(&mut world, 1000).unwrap();
    assert_eq!(whole.apply(&mut world, log()).unwrap(), 5);
    for split in 1..6 {
        let mut world = World::new();
        let mut parts = open_writer(&mut world, 1000).unwrap();
        let mut first = log();
        let second = first.split_off(split);
        parts.apply(&mut world, first).unwrap();
        assert_eq!(parts.apply(&mut world, second).unwrap(), 5);
        let a = &parts.writer.index.inner.id_map;
        let b = &whole.writer.index.inner.id_map;
        assert_eq!(a.label_to_id, b.label_to_id);
        for id in ["a", "b", "c"] {
            assert_eq!(a.id_to_label.get(id), b.id_to_label.get(id));
            assert_eq!(a.id_to_seq_id.get(id), b.id_to_seq_id.get(id));
        }
        assert_eq!(parts.index, whole.index);
    }
    let id_map = &whole.writer.index.inner.id_map;
    assert_eq!(id_map.id_to_label.get("a"), Some(4));
    assert_eq!(id_map.id_to_label.get("b"), Some(2));
    assert_eq!(id_map.id_to_label.get("c"), Some(3));
    assert_eq!(id_map.id_to_seq_id.get("b"), Some(6));
    let mut held: Vec<usize> = whole.index.keys().copied().collect();
    held.sort();
    assert_eq!(held, vec![2, 3, 4]);
}

#[test]
fn a_known_id_is_not_added_again() {
    let mut world = World::new();
    let mut writer = open_writer(&mut world, 1000).unwrap();
    let next = writer
        .apply(
            &mut world,
            vec![
                log_record("a", 1, Operation::Add, Some(vec![1.0])),
                log_record("a", 2, Operation::Add, None),
                log_record("b", 3, Operation::Update, Some(vec![2.0])),
                log_record("b", 4, Operation::Delete, None),
                log_record("a", 5, Operation::Update, None),
            ],
        )
        .unwrap();
    assert_eq!(next, 2);
    let id_map = &writer.writer.index.inner.id_map;
    assert_eq!(id_map.id_to_seq_id.get("a"), Some(1));
    assert_eq!(id_map.id_to_label.len(), 1);
    assert_eq!(writer.index.get(&1), Some(&vec![1.0]));
}

#[test]
fn a_missing_embedding_stops_the_chunk_and_keeps_what_came_before() {
    for operation in [Operation::Add, Operation::Upsert] {
        let mut world = World::new();
        let mut writer = open_writer(&mut world, 1000).unwrap();
        let err = writer
            .apply(
                &mut world,
                vec![
                    log_record("a", 1, Operation::Add, Some(vec![1.0])),
                    log_record("b", 2, operation, None),
                    log_record("c", 3, Operation::Add, Some(vec![3.0])),
                ],
            )
            .unwrap_err();
        assert!(matches!(err, LocalHnswSegmentWriterError::EmbeddingNotFound));
        assert_eq!(err.code(), ErrorCodes::InvalidArgument);
        let inner = &writer.writer.index.inner;
        assert_eq!(inner.id_map.id_to_label.get("a"), Some(1));
        assert!(!inner.id_map.id_to_label.contains_key("c"));
        assert_eq!(inner.id_map.total_elements_added, 0);
        assert_eq!(inner.num_elements_since_last_persist, 2);
        assert_eq!(inner.last_seen_seq_id, 0);
    }
}

#[test]
fn an_offset_beyond_32_bits_stops_the_chunk() {
    let beyond = u32::MAX as i64 + 1;
    let mut world = World::new();
    let mut writer = open_writer(&mut world, 1000).unwrap();
    writer
        .apply(&mut world, vec![log_record("a", 1, Operation::Add, Some(vec![1.0]))])
        .unwrap();
    for (id, operation) in [
        ("b", Operation::Add),
        ("a", Operation::Update),
        ("a", Operation::Upsert),
        ("c", Operation::Upsert),
    ] {
        let err = writer
            .apply(&mut world, vec![log_record(id, beyond, operation, Some(vec![2.0]))])
            .unwrap_err();
        assert!(matches!(err, LocalHnswSegmentWriterError::InvalidLogOffset(4294967296)));
        assert_eq!(
            err.message(),
            "Invalid log offset for persisted HNSW metadata: 4294967296"
        );
    }
    let next = writer
        .apply(&mut world, vec![log_record("a", beyond, Operation::Delete, None)])
        .unwrap();
    assert_eq!(next, 2);
    assert_eq!(writer.writer.index.inner.last_seen_seq_id, beyond as u64);
}

#[test]
fn an_index_that_fails_is_reported() {
    let chunk = vec![
        log_record("a", 1, Operation::Add, Some(vec![1.0])),
        log_record("a", 2, Operation::Delete, None),
    ];
    let mut world = World::new();
    let mut writer = open_writer(&mut world, 1000).unwrap().writer;
    let progress = writer.apply_log_chunk(&chunk).unwrap();
    assert_eq!(progress.batch.len(), 1);
    assert_eq!(progress.batch[0].label, 1);
    assert_eq!(progress.batch[0].records, vec![0, 1]);
    assert_eq!(resize_target(0, progress.batch.len(), 0), Some(1));

    let put = index_call(&progress.batch[0], &chunk, 0).unwrap();
    assert!(matches!(put, IndexCall::Put(1, embedding) if *embedding == vec![1.0]));
    assert!(matches!(
        put.answered(0, false),
        Err(LocalHnswSegmentWriterError::HnwsIndexAddError)
    ));
    assert_eq!(put.answered(0, true).unwrap(), 1);
    let remove = index_call(&progress.batch[0], &chunk, 1).unwrap();
    assert!(matches!(remove, IndexCall::Remove(1)));
    assert!(matches!(
        remove.answered(1, false),
        Err(LocalHnswSegmentWriterError::HnswIndexDeleteError)
    ));
    assert_eq!(remove.answered(1, true).unwrap(), 2);
    assert!(index_call(&progress.batch[0], &chunk, 2).is_none());
}

#[test]
fn the_index_holds_what_was_written_last() {
    let mut world = World::new();
    let mut writer = open_writer(&mut world, 1).unwrap();
    writer
        .apply(
            &mut world,
            vec![
                log_record("updated", 1, Operation::Add, Some(vec![1.0])),
                log_record("deleted", 2, Operation::Upsert, Some(vec![2.0])),
                log_record("updated", 3, Operation::Update, Some(vec![3.0])),
                log_record("upserted", 4, Operation::Upsert, Some(vec![4.0])),
                log_record("deleted", 5, Operation::Delete, None),
                log_record("added", 6, Operation::Add, Some(vec![5.0])),
                log_record("added", 7, Operation::Add, Some(vec![6.0])),
                log_record("upserted", 8, Operation::Upsert, Some(vec![7.0])),
                log_record("updated", 9, Operation::Update, None),
            ],
        )
        .unwrap();
    drop(writer);
    let reader = open_reader(&mut world).unwrap();
    for (id, embedding) in [("updated", 3.0), ("added", 5.0), ("upserted", 7.0)] {
        assert_eq!(reader.get_embedding_by_user_id(id).unwrap(), vec![embedding]);
    }
    assert!(matches!(
        reader.get_embedding_by_user_id("deleted"),
        Err(LocalHnswSegmentReaderError::IdNotFound)
    ));
    assert!(!reader.index.contains_key(&2));

    let mut writer = open_writer(&mut world, 1).unwrap();
    writer
        .apply(
            &mut world,
            vec![
                log_record("added", 10, Operation::Delete, None),
                log_record("added", 11, Operation::Upsert, Some(vec![8.0])),
            ],
        )
        .unwrap();
    drop(writer);
    let reader = open_reader(&mut world).unwrap();
    for (id, embedding) in [("updated", 3.0), ("added", 8.0), ("upserted", 7.0)] {
        assert_eq!(reader.get_embedding_by_user_id(id).unwrap(), vec![embedding]);
    }
}

#[test]
fn a_chunk_without_its_seen_records_leaves_the_same_maps() {
    fn mixed() -> Vec<LogRecord<Embedding>> {
        vec![
            log_record("x", 2, Operation::Add, None),
            log_record("b", 5, Operation::Add, Some(vec![2.0])),
            log_record("a", 4, Operation::Delete, None),
            log_record("c", 6, Operation::Upsert, Some(vec![3.0])),
            log_record("b", 1, Operation::Upsert, None),
        ]
    }
    let mut results = Vec::new();
    for drop_seen in [false, true] {
        let mut world = written_world(4);
        let mut writer = open_writer(&mut world, 1000).unwrap();
        let mut chunk = mixed();
        if drop_seen {
            chunk.retain(|record| record.log_offset > 4);
            assert_eq!(chunk.len(), 2);
        }
        writer.apply(&mut world, chunk).unwrap();
        results.push(writer);
    }
    let (a, b) = (&results[0].writer.index.inner, &results[1].writer.index.inner);
    assert_eq!(a.id_map.label_to_id, b.id_map.label_to_id);
    assert_eq!(a.id_map.label_to_id.len(), 3);
    assert_eq!(a.id_map.total_elements_added, b.id_map.total_elements_added);
    assert_eq!(a.id_map.total_elements_added, 3);
    assert_eq!(a.last_seen_seq_id, 6);
    assert_eq!(b.last_seen_seq_id, 6);
    for id in ["a", "b", "c"] {
        assert_eq!(a.id_map.id_to_label.get(id), b.id_map.id_to_label.get(id));
        assert_eq!(a.id_map.id_to_seq_id.get(id), b.id_map.id_to_seq_id.get(id));
    }
    assert_eq!(results[0].index, results[1].index);
}

#[test]
fn a_chunk_that_comes_twice_does_nothing_the_second_time() {
    fn log() -> Vec<LogRecord<Embedding>> {
        vec![
            log_record("a", 1, Operation::Add, Some(vec![1.0])),
            log_record("b", 2, Operation::Add, Some(vec![2.0])),
            log_record("a", 3, Operation::Delete, None),
        ]
    }
    for sync_threshold in [1, 1000] {
        let mut world = World::new();
        let mut writer = open_writer(&mut world, sync_threshold).unwrap();
        let next = writer.apply(&mut world, log()).unwrap();
        let calls = writer.calls;
        let index = writer.index.clone();
        world.metadata = None;
        world.seq_id = None;
        assert_eq!(writer.apply(&mut world, log()).unwrap(), next);
        assert_eq!(writer.calls, calls);
        assert_eq!(writer.index, index);
        assert!(world.metadata.is_none() && world.seq_id.is_none());
        let id_map = &writer.writer.index.inner.id_map;
        assert_eq!(id_map.label_to_id, HashMap::from([(2, String::from("b"))]));
        assert_eq!(id_map.total_elements_added, 2);
    }
}

#[test]
fn a_chunk_that_comes_a_third_time_is_taken_up_again() {
    let chunk = || vec![log_record("a", 3, Operation::Delete, None)];
    let mut world = written_world(5);
    let mut writer = open_writer(&mut world, 1000).unwrap();
    assert_eq!(writer.writer.index.inner.last_seen_seq_id, 5);
    writer.apply(&mut world, chunk()).unwrap();
    assert_eq!(writer.writer.index.inner.last_seen_seq_id, 0);
    assert!(writer.writer.index.inner.id_map.id_to_label.contains_key("a"));
    writer.apply(&mut world, chunk()).unwrap();
    assert!(!writer.writer.index.inner.id_map.id_to_label.contains_key("a"));
    assert_eq!(writer.writer.index.inner.last_seen_seq_id, 3);
}

#[test]
fn the_log_seq_id_never_goes_back() {
    let mut world = written_world(5);
    for (offsets, log_seq_id) in [
        (vec![], 5),
        (vec![3], 5),
        (vec![5], 5),
        (vec![6], 6),
        (vec![9, 2, 7], 9),
    ] {
        let mut writer = open_writer(&mut world, 1000).unwrap().writer;
        let chunk: Vec<LogRecord<Embedding>> = offsets
            .iter()
            .map(|offset| log_record("x", *offset, Operation::BackfillFn, None))
            .collect();
        let mut progress = writer.apply_log_chunk(&chunk).unwrap();
        assert_eq!(progress.log_seq_id, log_seq_id);
        if progress.step == ChunkStep::UpdateIndex {
            writer.index_updated(&mut progress);
            assert_eq!(progress.log_seq_id, log_seq_id);
        }
        assert_eq!(progress.step, ChunkStep::Done);
    }
}

#[test]
fn a_legacy_seq_id_that_still_covers_the_maps_reopens() {
    let mut world = written_world(3);
    world.metadata.as_mut().unwrap().max_seq_id = Some(6);
    let mut writer = open_writer(&mut world, 1).unwrap();
    writer
        .apply(&mut world, vec![log_record("b", 6, Operation::Add, Some(vec![2.0]))])
        .unwrap();
    assert!(open_reader(&mut world).is_ok());
    writer
        .apply(&mut world, vec![log_record("c", 7, Operation::Add, Some(vec![3.0]))])
        .unwrap();
    assert!(matches!(
        open_reader(&mut world),
        Err(LocalHnswSegmentReaderError::InvalidPersistedMetadata(reason))
            if reason == "persisted max_seq_id is smaller than its seq ids"
    ));
}

#[test]
fn maps_stay_acceptable_and_labels_fresh_through_a_history() {
    let mut world = World::new();
    let mut writer = open_writer(&mut world, 1).unwrap();
    let mut offset = 0;
    for round in 0..6u32 {
        let ids = [format!("r{round}"), format!("s{}", round % 2)];
        let mut chunk = Vec::new();
        for id in &ids {
            offset += 1;
            chunk.push(log_record(id, offset, Operation::Upsert, Some(vec![round as f32])));
        }
        offset += 1;
        chunk.push(log_record(&format!("r{}", round / 2), offset, Operation::Delete, None));
        let total = writer.writer.index.inner.id_map.total_elements_added;
        let known: Vec<u32> =
            writer.writer.index.inner.id_map.label_to_id.keys().copied().collect();
        writer.apply(&mut world, chunk).unwrap();
        let left = &writer.writer.index.inner;
        for label in left.id_map.label_to_id.keys() {
            assert!(
                known.contains(label)
                    || (total < *label && *label <= left.id_map.total_elements_added)
            );
        }
        let reader = open_reader(&mut world).unwrap();
        assert_eq!(reader.reader.index.inner.last_seen_seq_id, offset as u64);
        assert_eq!(reader.reader.index.inner.id_map.label_to_id, left.id_map.label_to_id);
    }
}

#[test]
fn an_index_without_dimensions_is_not_persisted() {
    let mut world = World::new();
    let mut writer = open_writer(&mut world, 1).unwrap().writer;
    let chunk = vec![log_record("a", 1, Operation::Add, Some(vec![1.0]))];
    let mut progress = writer.apply_log_chunk(&chunk).unwrap();
    writer.index_updated(&mut progress);
    assert_eq!(progress.step, ChunkStep::SaveIndex);
    assert!(matches!(
        writer.index_saved(&mut progress, 0),
        Err(LocalHnswSegmentWriterError::InvalidPersistedMetadata(reason))
            if reason == "index dimensionality must be positive, got 0"
    ));
    assert_eq!(progress.step, ChunkStep::SaveIndex);
    assert_eq!(writer.index.inner.id_map.dimensionality, None);
    assert_eq!(writer.index.inner.id_map.total_elements_added, 1);
}

#[test]
fn a_segment_in_memory_only_records_its_seq_id() {
    let opening =
        LocalHnswSegmentWriter::from_segment(Some(Ok(Some(configuration(1)))), 3, &None).unwrap();
    assert_eq!(opening.step, OpenStep::InitIndex { dimensionality: 3 });
    let (opening, _) =
        run_opening(&mut World::new(), opening).map_err(OpenFailure::writer_error).unwrap();
    let mut writer = LocalHnswSegmentWriter::from_opening(opening);
    assert_eq!(writer.index.inner.persist_path, None);
    let chunk = vec![log_record("a", 8, Operation::Add, Some(vec![1.0]))];
    let mut progress = writer.apply_log_chunk(&chunk).unwrap();
    writer.index_updated(&mut progress);
    assert_eq!(progress.step, ChunkStep::StoreSeqId);
    assert_eq!(progress.max_seq_id, 8);
    writer.seq_id_stored(&mut progress);
    assert_eq!(progress.step, ChunkStep::Done);
    assert_eq!(progress.next_label, 2);
    assert_eq!(writer.index.inner.last_seen_seq_id, 8);
    assert_eq!(writer.index.inner.num_elements_since_last_persist, 0);
    assert_eq!(writer.index.weight(), 1);
}

#[test]
fn counters_that_would_overflow_have_no_room() {
    let mut world = World::new();
    let mut writer = open_writer(&mut world, 1000).unwrap().writer;
    let two = vec![
        log_record("a", 1, Operation::Add, Some(vec![1.0])),
        log_record("b", 2, Operation::Upsert, Some(vec![1.0])),
    ];
    assert!(writer.has_room_for(&two));
    writer.index.inner.id_map.total_elements_added = u32::MAX - 3;
    assert!(writer.has_room_for(&two));
    writer.index.inner.id_map.total_elements_added = u32::MAX - 2;
    assert!(!writer.has_room_for(&two));
    let again = vec![
        log_record("a", 1, Operation::Add, Some(vec![1.0])),
        log_record("a", 2, Operation::Upsert, Some(vec![1.0])),
    ];
    assert!(writer.has_room_for(&again));
    writer.index.inner.id_map.total_elements_added = u32::MAX;
    let none: Vec<LogRecord<Embedding>> = Vec::new();
    assert!(!writer.has_room_for(&none));
    writer.index.inner.id_map.total_elements_added = 0;
    writer.index.inner.num_elements_since_last_persist = u64::MAX - 1;
    assert!(!writer.has_room_for(&two));
    assert!(writer.has_room_for(&none));
}

#[test]
fn ids_and_labels_lead_back_to_each_other() {
    let mut world = World::new();
    let mut writer = open_writer(&mut world, 1000).unwrap();
    writer
        .apply(
            &mut world,
            vec![
                log_record("a", 1, Operation::Add, Some(vec![1.0])),
                log_record("b", 2, Operation::Add, Some(vec![2.0])),
                log_record("a", 3, Operation::Delete, None),
                log_record("a", 4, Operation::Add, Some(vec![3.0])),
            ],
        )
        .unwrap();
    let reader = LocalHnswSegmentReader::from_index(writer.writer.index);
    for (id, label) in [("a", 3), ("b", 2)] {
        assert_eq!(reader.get_offset_id_by_user_id(&String::from(id)).unwrap(), label);
        assert_eq!(reader.get_user_id_by_offset_id(label).unwrap(), id);
    }
    assert!(matches!(
        reader.get_offset_id_by_user_id(&String::from("c")),
        Err(LocalHnswSegmentReaderError::IdNotFound)
    ));
    assert!(matches!(
        reader.get_user_id_by_offset_id(1),
        Err(LocalHnswSegmentReaderError::IdNotFound)
    ));
}
