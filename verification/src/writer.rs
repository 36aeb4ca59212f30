//! Writing to a segment: the log is applied to the identifier maps, and what the index, the disk
//! and the database have to do about it is laid out step by step.
use crate::batch::{group_by_label, is_grouping, LabelGroup};
use crate::error::LocalHnswSegmentWriterError;
use crate::id_map::{
    persistable_index_dimensionality, persistable_log_offset, IdMap, IdMapView,
};
use crate::log::{
    apply_log, apply_prefix, lemma_apply_prefix_grows, lemma_work_is_sound, log_fits, log_view,
    updated_seq_id, work_is_sound, ChunkFailure, ChunkView, IndexWork, LogRecord, LogRecordView,
    Operation,
};
use crate::opening::{Access, OpenStep, OpeningView, SegmentOpening};
use crate::segment::{
    writer_configuration, Inner, InnerView, LocalHnswIndex, SchemaConfiguration,
};
use vstd::hash_map::StringHashMap;
use vstd::prelude::*;

verus! {

broadcast use vstd::std_specs::hash::group_hash_axioms;

/// A segment opened for writing.
pub struct LocalHnswSegmentWriter {
    pub index: LocalHnswIndex,
}

impl View for LocalHnswSegmentWriter {
    type V = InnerView;

    open spec fn view(&self) -> InnerView {
        self.index@
    }
}

/// What is to be done next about a chunk.
#[derive(Clone, Copy, Debug, PartialEq, Eq, Structural)]
pub enum ChunkStep {
    /// Resize the index if needed and let it take up the batch.
    UpdateIndex,
    /// Save the index beside the metadata.
    SaveIndex,
    /// Write the identifier maps to disk.
    WriteMetadata,
    /// Record the greatest offset of the chunk as the segment's sequence id.
    StoreSeqId,
    /// Nothing is left to do.
    Done,
}

/// A chunk on its way through a segment.
pub struct ChunkProgress {
    pub next_label: u32,
    /// The greatest offset that the chunk brought, 0 where it brings nothing new.
    pub max_seq_id: u64,
    /// The updated log seq id: the greatest offset that the chunk brought, or the one from before
    /// where it brings nothing new.
    pub log_seq_id: u64,
    pub batch: Vec<LabelGroup>,
    pub step: ChunkStep,
}

/// The error that reports a failure.
pub open spec fn chunk_error(failure: ChunkFailure) -> LocalHnswSegmentWriterError {
    match failure {
        ChunkFailure::EmbeddingNotFound => LocalHnswSegmentWriterError::EmbeddingNotFound,
        ChunkFailure::InvalidLogOffset(
            offset,
        ) => LocalHnswSegmentWriterError::InvalidLogOffset(offset),
    }
}

/// The chunk as far as [`take_record`] sees it.
spec fn partial(id_map: IdMapView, next_label: u32, work: Seq<IndexWork>) -> ChunkView {
    ChunkView {
        id_map,
        next_label: next_label as int,
        elements: 0,
        max_seq_id: 0,
        work,
        failure: None,
    }
}

/// Gives the id of a record a label and notes the offset that last touched it.
fn set_label<E>(id_map: &mut IdMap, record: &LogRecord<E>, label: u32, seq_id: u32)
    requires
        seq_id == record.log_offset,
    ensures
        final(id_map)@ == partial(old(id_map)@, 0, Seq::empty()).labelled(record@, label, 0).id_map,
{
    id_map.id_to_label.insert(record.record.id.clone(), label);
    id_map.label_to_id.insert(label, record.record.id.clone());
    id_map.id_to_seq_id.insert(record.record.id.clone(), seq_id);
    assert(id_map@ =~= partial(old(id_map)@, 0, Seq::empty()).labelled(record@, label, 0).id_map);
}

/// Takes up one unseen record, and returns the label that the next new id gets.
fn take_record<E>(
    id_map: &mut IdMap,
    record: &LogRecord<E>,
    at: usize,
    next_label: u32,
    work: &mut Vec<IndexWork>,
) -> (result: Result<u32, LocalHnswSegmentWriterError>)
    requires
        partial(old(id_map)@, next_label, old(work)@).taken(record@, at as int).next_label
            <= u32::MAX,
    ensures
        ({
            let after = partial(old(id_map)@, next_label, old(work)@).taken(record@, at as int);
            &&& final(id_map)@ == after.id_map
            &&& final(work)@ == after.work
            &&& match after.failure {
                None => result == Ok::<_, LocalHnswSegmentWriterError>(after.next_label as u32),
                Some(failure) => result == Err::<u32, _>(chunk_error(failure)),
            }
        }),
{
    let known: Option<u32> = id_map.id_to_label.get(record.record.id.as_str());
    match record.record.operation {
        Operation::BackfillFn => Ok(next_label),
        Operation::Add => {
            if known.is_some() {
                return Ok(next_label);
            }
            if record.record.embedding.is_none() {
                return Err(LocalHnswSegmentWriterError::EmbeddingNotFound);
            }
            let seq_id: u32 = match persistable_log_offset(record.log_offset) {
                Ok(seq_id) => seq_id,
                Err(err) => return Err(err),
            };
            set_label(id_map, record, next_label, seq_id);
            work.push(IndexWork { label: next_label, record: at });
            Ok(next_label + 1)
        },
        Operation::Update => {
            match known {
                Some(label) => {
                    if record.record.embedding.is_some() {
                        let seq_id: u32 = match persistable_log_offset(record.log_offset) {
                            Ok(seq_id) => seq_id,
                            Err(err) => return Err(err),
                        };
                        id_map.id_to_seq_id.insert(record.record.id.clone(), seq_id);
                        work.push(IndexWork { label, record: at });
                    }
                },
                None => {},
            }
            Ok(next_label)
        },
        Operation::Delete => {
            match known {
                Some(label) => {
                    id_map.id_to_label.remove(record.record.id.as_str());
                    id_map.label_to_id.remove(&label);
                    id_map.id_to_seq_id.remove(record.record.id.as_str());
                    work.push(IndexWork { label, record: at });
                    assert(id_map@.label_to_id =~= old(id_map)@.label_to_id.remove(label));
                },
                None => {},
            }
            Ok(next_label)
        },
        Operation::Upsert => {
            if record.record.embedding.is_none() {
                return Err(LocalHnswSegmentWriterError::EmbeddingNotFound);
            }
            let seq_id: u32 = match persistable_log_offset(record.log_offset) {
                Ok(seq_id) => seq_id,
                Err(err) => return Err(err),
            };
            match known {
                Some(label) => {
                    set_label(id_map, record, label, seq_id);
                    work.push(IndexWork { label, record: at });
                    Ok(next_label)
                },
                None => {
                    set_label(id_map, record, next_label, seq_id);
                    work.push(IndexWork { label: next_label, record: at });
                    Ok(next_label + 1)
                },
            }
        },
    }
}

/// Each record that a group refers to is one of the chunk, and either asks for a deletion or
/// carries an embedding.
pub open spec fn group_is_sound<E>(group: LabelGroup, chunk: Seq<LogRecord<E>>) -> bool {
    forall|j: int|
        #![trigger group.records@[j]]
        0 <= j < group.records@.len() ==> {
            let at = group.records@[j];
            &&& at < chunk.len()
            &&& chunk[at as int].record.operation != Operation::BackfillFn
            &&& chunk[at as int].record.operation != Operation::Delete
                ==> chunk[at as int].record.embedding is Some
        }
}

/// Each group of a batch is sound.
pub open spec fn batch_is_sound<E>(batch: Seq<LabelGroup>, chunk: Seq<LogRecord<E>>) -> bool {
    forall|i: int| 0 <= i < batch.len() ==> group_is_sound(#[trigger] batch[i], chunk)
}

/// Each record listed for a label stems from the work.
proof fn lemma_records_of_within(work: Seq<IndexWork>, label: u32, j: int)
    requires
        0 <= j < crate::batch::records_of(work, label).len(),
    ensures
        exists|w: int|
            0 <= w < work.len() && (#[trigger] work[w]).record == crate::batch::records_of(
                work,
                label,
            )[j],
    decreases work.len(),
{
    let earlier = work.drop_last();
    let all = crate::batch::records_of(work, label);
    if work.last().label == label && j == all.len() - 1 {
        assert(work[work.len() - 1].record == all[j]);
    } else {
        lemma_records_of_within(earlier, label, j);
        let w = choose|w: int|
            0 <= w < earlier.len() && (#[trigger] earlier[w]).record == crate::batch::records_of(
                earlier,
                label,
            )[j];
        assert(work[w].record == all[j]);
    }
}

proof fn lemma_batch_is_sound<E>(
    batch: Seq<LabelGroup>,
    work: Seq<IndexWork>,
    chunk: Seq<LogRecord<E>>,
)
    requires
        is_grouping(batch, work),
        work_is_sound(work, log_view(chunk)),
    ensures
        batch_is_sound(batch, chunk),
{
    assert forall|i: int| 0 <= i < batch.len() implies group_is_sound(
        #[trigger] batch[i],
        chunk,
    ) by {
        let group = batch[i];
        assert forall|j: int|
            #![trigger group.records@[j]]
            0 <= j < group.records@.len() implies {
            let at = group.records@[j];
            &&& at < chunk.len()
            &&& chunk[at as int].record.operation != Operation::BackfillFn
            &&& chunk[at as int].record.operation != Operation::Delete
                ==> chunk[at as int].record.embedding is Some
        } by {
            lemma_records_of_within(work, group.label, j);
            let w = choose|w: int|
                0 <= w < work.len() && (#[trigger] work[w]).record == group.records@[j];
            assert(log_view(chunk)[work[w].record as int] == chunk[work[w].record as int]@);
        }
    }
}

/// One call of the index.
pub enum IndexCall<'a, E> {
    /// Give the label this embedding, in place of any it has.
    Put(usize, &'a E),
    /// Take the label out.
    Remove(usize),
}

impl<'a, E> IndexCall<'a, E> {
    /// The error that reports an index which fails this call.
    pub open spec fn error(&self) -> LocalHnswSegmentWriterError {
        match self {
            IndexCall::Put(..) => LocalHnswSegmentWriterError::HnwsIndexAddError,
            IndexCall::Remove(_) => LocalHnswSegmentWriterError::HnswIndexDeleteError,
        }
    }

    /// The place of the record to take up next, once the index did or did not do this call for
    /// the record at `position`: a failure ends the group.
    pub fn answered(&self, position: usize, succeeded: bool) -> (next: Result<
        usize,
        LocalHnswSegmentWriterError,
    >)
        requires
            position < usize::MAX,
        ensures
            next == (if succeeded {
                Ok((position + 1) as usize)
            } else {
                Err(self.error())
            }),
    {
        if succeeded {
            return Ok(position + 1);
        }
        match self {
            IndexCall::Put(..) => Err(LocalHnswSegmentWriterError::HnwsIndexAddError),
            IndexCall::Remove(_) => Err(LocalHnswSegmentWriterError::HnswIndexDeleteError),
        }
    }
}

/// The call by which the index takes up the record at a place of a group: a deletion takes the
/// label out, any other record puts its embedding in.
pub open spec fn planned_call<'a, E>(
    group: LabelGroup,
    chunk: Seq<LogRecord<E>>,
    position: int,
) -> IndexCall<'a, E> {
    let record = chunk[group.records@[position] as int].record;
    if record.operation == Operation::Delete {
        IndexCall::Remove(group.label as usize)
    } else {
        IndexCall::Put(group.label as usize, &record.embedding->0)
    }
}

/// The call of the index that is due once those for the first `position` records of a group
/// succeeded; none when the group is taken up.
///
/// The calls of a group are made in this order, each once, from position 0 on; what follows a
/// call tells [`IndexCall::answered`]. Groups do not depend on each other.
pub fn index_call<'a, E>(
    group: &LabelGroup,
    log_chunk: &'a Vec<LogRecord<E>>,
    position: usize,
) -> (call: Option<IndexCall<'a, E>>)
    requires
        group_is_sound(*group, log_chunk@),
    ensures
        call == (if position < group.records@.len() {
            Some(planned_call(*group, log_chunk@, position as int))
        } else {
            None
        }),
        call is Some ==> position < usize::MAX,
{
    if position >= group.records.len() {
        return None;
    }
    let at: usize = group.records[position];
    assert(at == group.records@[position as int]);
    let record = &log_chunk[at].record;
    match record.operation {
        Operation::Delete => Some(IndexCall::Remove(group.label as usize)),
        _ => match &record.embedding {
            Some(embedding) => Some(IndexCall::Put(group.label as usize, embedding)),
            None => None,
        },
    }
}

impl InnerView {
    /// The segment once the maps have taken up a log, before the index has.
    pub open spec fn with_log(self, log: Seq<LogRecordView>) -> InnerView {
        InnerView {
            id_map: apply_log(self, log).id_map,
            num_elements_since_last_persist: apply_log(self, log).elements as u64,
            ..self
        }
    }

    /// The segment once labels below `next_label` count as given out.
    pub open spec fn with_labels_below(self, next_label: u32) -> InnerView {
        InnerView {
            id_map: IdMapView {
                total_elements_added: (next_label - 1) as u32,
                ..self.id_map
            },
            ..self
        }
    }

    /// The segment once its maps carry the dimensionality of its index.
    pub open spec fn with_dimensionality(self, dimensionality: usize) -> InnerView {
        InnerView {
            id_map: IdMapView { dimensionality: Some(dimensionality), ..self.id_map },
            ..self
        }
    }

    /// The segment once the log counts as applied up to `seq_id`.
    pub open spec fn seen_up_to(self, seq_id: u64) -> InnerView {
        InnerView { last_seen_seq_id: seq_id, ..self }
    }

    /// The segment once it counts as persisted.
    pub open spec fn persisted(self) -> InnerView {
        InnerView { num_elements_since_last_persist: 0, ..self }
    }

    /// Enough records were taken up for the segment to be persisted.
    pub open spec fn is_persist_due(self) -> bool {
        self.num_elements_since_last_persist >= self.sync_threshold
    }
}

/// A segment and how far a chunk got on it.
#[verifier::ext_equal]
pub struct ChunkState {
    pub inner: InnerView,
    pub next_label: u32,
    pub max_seq_id: u64,
    pub log_seq_id: u64,
    pub step: ChunkStep,
}

impl ChunkState {
    /// The state of a writer and a chunk on its way.
    pub open spec fn of(writer: LocalHnswSegmentWriter, progress: ChunkProgress) -> ChunkState {
        ChunkState {
            inner: writer@,
            next_label: progress.next_label,
            max_seq_id: progress.max_seq_id,
            log_seq_id: progress.log_seq_id,
            step: progress.step,
        }
    }

    /// The maps have taken up a log that can be applied to the end. An empty one is done with.
    pub open spec fn begun(inner: InnerView, log: Seq<LogRecordView>) -> ChunkState {
        ChunkState {
            inner: inner.with_log(log),
            next_label: apply_log(inner, log).next_label as u32,
            max_seq_id: apply_log(inner, log).max_seq_id,
            log_seq_id: updated_seq_id(inner, log),
            step: if log.len() == 0 {
                ChunkStep::Done
            } else {
                ChunkStep::UpdateIndex
            },
        }
    }

    /// The index has taken up the batch: the labels count as given out, and the segment is
    /// persisted if enough records were taken up; otherwise the chunk is done.
    pub open spec fn after_index_update(self) -> ChunkState {
        let labelled = self.inner.with_labels_below(self.next_label);
        if !labelled.is_persist_due() {
            ChunkState {
                inner: labelled.seen_up_to(self.max_seq_id),
                step: ChunkStep::Done,
                ..self
            }
        } else if labelled.persist_path is Some {
            ChunkState { inner: labelled, step: ChunkStep::SaveIndex, ..self }
        } else {
            ChunkState { inner: labelled, step: ChunkStep::StoreSeqId, ..self }
        }
    }

    /// The index was saved; the maps carry its dimensionality.
    pub open spec fn after_index_save(self, index_dimensionality: i32) -> ChunkState {
        ChunkState {
            inner: self.inner.with_dimensionality(index_dimensionality as usize),
            step: ChunkStep::WriteMetadata,
            ..self
        }
    }

    /// The maps were written to disk.
    pub open spec fn after_metadata_write(self) -> ChunkState {
        ChunkState { step: ChunkStep::StoreSeqId, ..self }
    }

    /// The greatest offset was recorded: the segment counts as persisted and the chunk is done.
    pub open spec fn after_seq_id_store(self) -> ChunkState {
        ChunkState {
            inner: self.inner.persisted().seen_up_to(self.max_seq_id),
            step: ChunkStep::Done,
            ..self
        }
    }

    /// The state once the step at hand succeeded.
    pub open spec fn advanced(self, index_dimensionality: i32) -> ChunkState {
        match self.step {
            ChunkStep::UpdateIndex => self.after_index_update(),
            ChunkStep::SaveIndex => self.after_index_save(index_dimensionality),
            ChunkStep::WriteMetadata => self.after_metadata_write(),
            ChunkStep::StoreSeqId => self.after_seq_id_store(),
            ChunkStep::Done => self,
        }
    }
}

impl LocalHnswSegmentWriter {
    /// A writer on a segment that is already open.
    pub fn from_index(hnsw_index: LocalHnswIndex) -> (result: Result<
        LocalHnswSegmentWriter,
        LocalHnswSegmentWriterError,
    >)
        ensures
            result == Ok::<_, LocalHnswSegmentWriterError>(
                LocalHnswSegmentWriter { index: hnsw_index },
            ),
    {
        Ok(LocalHnswSegmentWriter { index: hnsw_index })
    }

    /// Starts opening a segment for writing, with the settings that the schema yields for it.
    pub fn from_segment(
        schema: SchemaConfiguration,
        dimensionality: usize,
        persist_root: &Option<String>,
    ) -> (result: Result<SegmentOpening, LocalHnswSegmentWriterError>)
        ensures
            match schema {
                Some(Ok(Some(configuration))) => {
                    &&& result matches Ok(opening)
                    &&& opening@ == OpeningView::start(
                        Access::Write,
                        configuration,
                        dimensionality,
                        persist_root is Some,
                    )
                },
                Some(Err(err)) => result == Err::<SegmentOpening, _>(
                    LocalHnswSegmentWriterError::InvalidHnswConfiguration(err),
                ),
                _ => result == Err::<SegmentOpening, _>(
                    LocalHnswSegmentWriterError::MissingHnswConfiguration,
                ),
            },
    {
        match writer_configuration(schema) {
            Ok(configuration) => Ok(
                SegmentOpening::start(
                    Access::Write,
                    configuration,
                    dimensionality,
                    persist_root.is_some(),
                ),
            ),
            Err(err) => Err(err),
        }
    }

    /// The writer that a finished opening yields.
    pub fn from_opening(opening: SegmentOpening) -> (writer: LocalHnswSegmentWriter)
        requires
            opening.step == OpenStep::Ready,
        ensures
            writer@ == InnerView::opened(
                opening@.id_map,
                opening.seq_id,
                opening.configuration.sync_threshold,
                opening@.folder,
            ),
    {
        LocalHnswSegmentWriter {
            index: LocalHnswIndex {
                inner: Inner::opened(
                    opening.id_map,
                    opening.seq_id,
                    opening.configuration.sync_threshold,
                    opening.folder,
                ),
            },
        }
    }

    /// Applies a chunk of the log to the identifier maps and lays out the work of the index.
    ///
    /// An empty chunk is done with at once. When a record cannot be applied, the records before
    /// it stay applied. A chunk that is not empty but brings nothing new has 0 for its greatest
    /// offset, and the segment takes the log as applied up to there once the chunk is done.
    pub fn apply_log_chunk<E>(&mut self, log_chunk: &Vec<LogRecord<E>>) -> (result: Result<
        ChunkProgress,
        LocalHnswSegmentWriterError,
    >)
        requires
            log_fits(old(self)@, log_view(log_chunk@)),
        ensures
            final(self)@ == old(self)@.with_log(log_view(log_chunk@)),
            ({
                let chunk = apply_log(old(self)@, log_view(log_chunk@));
                match chunk.failure {
                    None => {
                        &&& result matches Ok(progress)
                        &&& ChunkState::of(*final(self), progress) == ChunkState::begun(
                            old(self)@,
                            log_view(log_chunk@),
                        )
                        &&& progress.next_label == chunk.next_label
                        &&& progress.next_label > old(self)@.id_map.total_elements_added
                        &&& is_grouping(progress.batch@, chunk.work)
                        &&& batch_is_sound(progress.batch@, log_chunk@)
                    },
                    Some(failure) => result == Err::<ChunkProgress, _>(chunk_error(failure)),
                }
            }),
    {
        let ghost inner = self@;
        let ghost log = log_view(log_chunk@);
        let mut next_label: u32 = self.index.inner.id_map.total_elements_added + 1;
        if log_chunk.len() == 0 {
            let batch: Vec<LabelGroup> = Vec::new();
            return Ok(
                ChunkProgress {
                    next_label,
                    max_seq_id: 0,
                    log_seq_id: self.index.inner.last_seen_seq_id,
                    batch,
                    step: ChunkStep::Done,
                },
            );
        }
        let mut max_seq_id: u64 = 0;
        let mut brings_new: bool = false;
        let mut work: Vec<IndexWork> = Vec::new();
        let mut at: usize = 0;
        while at < log_chunk.len()
            invariant
                at <= log_chunk@.len(),
                inner == old(self)@,
                log == log_view(log_chunk@),
                log_fits(inner, log),
                apply_prefix(inner, log, at as nat).failure is None,
                self@ == (InnerView {
                    id_map: apply_prefix(inner, log, at as nat).id_map,
                    num_elements_since_last_persist: apply_prefix(
                        inner,
                        log,
                        at as nat,
                    ).elements as u64,
                    ..inner
                }),
                0 <= apply_prefix(inner, log, at as nat).elements <= u64::MAX,
                next_label == apply_prefix(inner, log, at as nat).next_label,
                max_seq_id == apply_prefix(inner, log, at as nat).max_seq_id,
                brings_new == exists|i: int|
                    0 <= i < at && !(#[trigger] log[i]).is_seen(inner.last_seen_seq_id),
                work@ == apply_prefix(inner, log, at as nat).work,
            decreases log_chunk@.len() - at,
        {
            let ghost before = apply_prefix(inner, log, at as nat);
            let ghost after = apply_prefix(inner, log, (at + 1) as nat);
            let log_record = &log_chunk[at];
            assert(log[at as int] == log_record@);
            proof {
                lemma_apply_prefix_grows(inner, log, (at + 1) as nat, log.len());
            }
            if log_record.log_offset <= self.index.inner.last_seen_seq_id as i64 {
                at = at + 1;
                continue ;
            }
            assert(after == before.counted(log_record@).taken(log_record@, at as int));
            assert(after.elements == before.elements + 1);
            brings_new = true;
            self.index.inner.num_elements_since_last_persist =
            self.index.inner.num_elements_since_last_persist + 1;
            let offset: u64 = log_record.log_offset as u64;
            if max_seq_id < offset {
                max_seq_id = offset;
            }
            let ghost seen = partial(before.id_map, next_label, before.work).taken(
                log_record@,
                at as int,
            );
            assert(seen.id_map == after.id_map && seen.work == after.work && seen.next_label
                == after.next_label && seen.failure == after.failure && after.max_seq_id
                == max_seq_id);
            match take_record(&mut self.index.inner.id_map, log_record, at, next_label, &mut work) {
                Ok(label) => {
                    next_label = label;
                },
                Err(err) => {
                    assert(self@ =~= inner.with_log(log));
                    return Err(err);
                },
            }
            at = at + 1;
        }
        let batch = group_by_label(&work);
        proof {
            lemma_apply_prefix_grows(inner, log, 0, log.len());
            lemma_work_is_sound(inner, log, log.len());
            lemma_batch_is_sound(batch@, work@, log_chunk@);
        }
        let log_seq_id: u64 = if brings_new {
            max_seq_id
        } else {
            self.index.inner.last_seen_seq_id
        };
        Ok(
            ChunkProgress {
                next_label,
                max_seq_id,
                log_seq_id,
                batch,
                step: ChunkStep::UpdateIndex,
            },
        )
    }

    /// Whether the counters of the segment can take up a chunk.
    pub fn has_room_for<E>(&self, log_chunk: &Vec<LogRecord<E>>) -> (room: bool)
        ensures
            room == log_fits(self@, log_view(log_chunk@)),
    {
        let ghost inner = self@;
        let ghost log = log_view(log_chunk@);
        let total = self.index.inner.id_map.total_elements_added;
        let mut next_label: u128 = total as u128 + 1;
        let mut elements: u128 = self.index.inner.num_elements_since_last_persist as u128;
        let mut known: StringHashMap<bool> = StringHashMap::new();
        let mut at: usize = 0;
        while at < log_chunk.len()
            invariant
                at <= log_chunk@.len(),
                inner == self@,
                log == log_view(log_chunk@),
                total == inner.id_map.total_elements_added,
                apply_prefix(inner, log, at as nat).failure is None,
                next_label == apply_prefix(inner, log, at as nat).next_label,
                next_label <= total + 1 + at,
                elements == apply_prefix(inner, log, at as nat).elements,
                elements <= u64::MAX + at,
                forall|id: Seq<char>| #[trigger]
                    apply_prefix(inner, log, at as nat).knows(id) == (if known@.contains_key(id) {
                        known@[id]
                    } else {
                        inner.id_map.id_to_label.contains_key(id)
                    }),
            decreases log_chunk@.len() - at,
        {
            let ghost before = apply_prefix(inner, log, at as nat);
            let ghost after = apply_prefix(inner, log, (at + 1) as nat);
            let log_record = &log_chunk[at];
            assert(log[at as int] == log_record@);
            if log_record.log_offset <= self.index.inner.last_seen_seq_id as i64 {
                at = at + 1;
                continue ;
            }
            assert(after == before.counted(log_record@).taken(log_record@, at as int));
            elements = elements + 1;
            let is_known: bool = match known.get(log_record.record.id.as_str()) {
                Some(is_known) => *is_known,
                None => self.index.inner.id_map.id_to_label.contains_key(
                    log_record.record.id.as_str(),
                ),
            };
            assert(is_known == before.knows(log_record@.id));
            let persistable: bool = 0 <= log_record.log_offset && log_record.log_offset
                <= u32::MAX as i64;
            let embedded: bool = log_record.record.embedding.is_some();
            let refused: bool = match log_record.record.operation {
                Operation::Add => !is_known && !(embedded && persistable),
                Operation::Update => is_known && embedded && !persistable,
                Operation::Upsert => !(embedded && persistable),
                _ => false,
            };
            if refused {
                proof {
                    lemma_apply_prefix_grows(inner, log, (at + 1) as nat, log.len());
                }
                return total < u32::MAX && next_label <= u32::MAX as u128 && elements
                    <= u64::MAX as u128;
            }
            let ghost known_before = known@;
            match log_record.record.operation {
                Operation::Add | Operation::Upsert => {
                    if !is_known {
                        next_label = next_label + 1;
                    }
                    known.insert(log_record.record.id.clone(), true);
                },
                Operation::Delete => {
                    known.insert(log_record.record.id.clone(), false);
                },
                _ => {},
            }
            assert forall|id: Seq<char>| #[trigger]
                after.knows(id) == (if known@.contains_key(id) {
                    known@[id]
                } else {
                    inner.id_map.id_to_label.contains_key(id)
                }) by {
                assert(before.knows(id) == (if known_before.contains_key(id) {
                    known_before[id]
                } else {
                    inner.id_map.id_to_label.contains_key(id)
                }));
            }
            at = at + 1;
        }
        total < u32::MAX && next_label <= u32::MAX as u128 && elements <= u64::MAX as u128
    }

    /// The index has taken up the batch: the labels count as given out, and the segment is
    /// persisted if enough records were taken up; otherwise the chunk is done, and the log counts
    /// as applied up to its greatest offset. That is 0 for a chunk that brings nothing new.
    pub fn index_updated(&mut self, progress: &mut ChunkProgress)
        requires
            old(progress).step == ChunkStep::UpdateIndex,
            old(progress).next_label > 0,
        ensures
            ChunkState::of(*final(self), *final(progress)) == ChunkState::of(
                *old(self),
                *old(progress),
            ).after_index_update(),
            final(progress).batch == old(progress).batch,
    {
        self.index.inner.id_map.total_elements_added = progress.next_label - 1;
        if self.index.inner.num_elements_since_last_persist
            >= self.index.inner.sync_threshold as u64 {
            if self.index.inner.persist_path.is_some() {
                progress.step = ChunkStep::SaveIndex;
            } else {
                progress.step = ChunkStep::StoreSeqId;
            }
        } else {
            self.index.inner.last_seen_seq_id = progress.max_seq_id;
            progress.step = ChunkStep::Done;
        }
    }

    /// The index was saved, and reports its dimensionality, which the maps are to carry.
    pub fn index_saved(
        &mut self,
        progress: &mut ChunkProgress,
        index_dimensionality: i32,
    ) -> (result: Result<(), LocalHnswSegmentWriterError>)
        requires
            old(progress).step == ChunkStep::SaveIndex,
        ensures
            match result {
                Ok(()) => {
                    &&& index_dimensionality > 0
                    &&& ChunkState::of(*final(self), *final(progress)) == ChunkState::of(
                        *old(self),
                        *old(progress),
                    ).after_index_save(index_dimensionality)
                    &&& final(progress).batch == old(progress).batch
                },
                Err(LocalHnswSegmentWriterError::InvalidPersistedMetadata(reason)) => {
                    &&& index_dimensionality <= 0
                    &&& reason@ == "index dimensionality must be positive, got "@
                        + crate::text::signed_decimal(index_dimensionality as int)
                    &&& *final(self) == *old(self)
                    &&& *final(progress) == *old(progress)
                },
                Err(_) => false,
            },
    {
        match persistable_index_dimensionality(index_dimensionality) {
            Ok(dimensionality) => {
                self.index.inner.id_map.dimensionality = Some(dimensionality);
                progress.step = ChunkStep::WriteMetadata;
                Ok(())
            },
            Err(err) => Err(err),
        }
    }

    /// The maps were written to disk.
    pub fn metadata_written(&mut self, progress: &mut ChunkProgress)
        requires
            old(progress).step == ChunkStep::WriteMetadata,
        ensures
            ChunkState::of(*final(self), *final(progress)) == ChunkState::of(
                *old(self),
                *old(progress),
            ).after_metadata_write(),
            final(progress).batch == old(progress).batch,
    {
        progress.step = ChunkStep::StoreSeqId;
    }

    /// The greatest offset of the chunk was recorded: the segment counts as persisted and the
    /// chunk is done.
    pub fn seq_id_stored(&mut self, progress: &mut ChunkProgress)
        requires
            old(progress).step == ChunkStep::StoreSeqId,
        ensures
            ChunkState::of(*final(self), *final(progress)) == ChunkState::of(
                *old(self),
                *old(progress),
            ).after_seq_id_store(),
            final(progress).batch == old(progress).batch,
    {
        self.index.inner.num_elements_since_last_persist = 0;
        self.index.inner.last_seen_seq_id = progress.max_seq_id;
        progress.step = ChunkStep::Done;
    }
}

} // verus!
