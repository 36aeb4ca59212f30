//! When a segment is persisted, in which order, and what is persisted.
use crate::batch::LabelGroup;
use crate::effects::{law_new_records_are_counted, new_records};
use crate::error::LocalHnswSegmentWriterError;
use crate::laws::completed;
use crate::log::{
    apply_log, lemma_apply_prefix_grows, log_fits, updated_seq_id, ChunkFailure, LogRecord,
    LogRecordView, Operation,
};
use crate::segment::InnerView;
use crate::writer::{chunk_error, group_is_sound, planned_call, ChunkState, ChunkStep, IndexCall};
use vstd::prelude::*;

verus! {

/// A log that is applied to the maps changes nothing else of a segment but its count of records.
pub proof fn law_maps_and_count_take_up_the_log(inner: InnerView, log: Seq<LogRecordView>)
    requires
        log_fits(inner, log),
    ensures
        ({
            let after = inner.with_log(log);
            &&& after.id_map == apply_log(inner, log).id_map
            &&& after.num_elements_since_last_persist == apply_log(inner, log).elements
            &&& after.last_seen_seq_id == inner.last_seen_seq_id
            &&& after.sync_threshold == inner.sync_threshold
            &&& after.persist_path == inner.persist_path
            &&& after.index_init == inner.index_init
            &&& after.allow_reset == inner.allow_reset
        }),
{
    lemma_apply_prefix_grows(inner, log, 0, log.len());
}

/// A segment is persisted exactly when the records since it was last persisted, together with the
/// new records of the chunk, reach its threshold: on disk by saving the index, in memory by
/// recording the sequence id alone. Otherwise the chunk is done once the index has taken it up.
pub proof fn law_enough_new_records_are_persisted(inner: InnerView, log: Seq<LogRecordView>)
    requires
        log.len() > 0,
        log_fits(inner, log),
        apply_log(inner, log).failure is None,
    ensures
        ({
            let records = inner.num_elements_since_last_persist + new_records(inner, log).len();
            let begun = ChunkState::begun(inner, log);
            let next = begun.after_index_update();
            &&& begun.step == ChunkStep::UpdateIndex
            &&& begun.inner.num_elements_since_last_persist == records
            &&& records >= inner.sync_threshold && inner.persist_path is Some ==> next.step
                == ChunkStep::SaveIndex
            &&& records >= inner.sync_threshold && inner.persist_path is None ==> next.step
                == ChunkStep::StoreSeqId
            &&& records < inner.sync_threshold ==> next.step == ChunkStep::Done
            &&& new_records(inner, log).len() >= inner.sync_threshold ==> next.step
                != ChunkStep::Done
        }),
{
    law_new_records_are_counted(inner, log);
    lemma_apply_prefix_grows(inner, log, 0, log.len());
}

/// A chunk carries the label that is next, the greatest offset and the log seq id of its log from
/// the first step to the last, and no step but its own changes the segment.
pub proof fn law_chunk_carries_its_numbers(
    inner: InnerView,
    log: Seq<LogRecordView>,
    state: ChunkState,
    index_dimensionality: i32,
)
    requires
        log_fits(inner, log),
    ensures
        ({
            let begun = ChunkState::begun(inner, log);
            &&& begun.next_label == apply_log(inner, log).next_label
            &&& begun.max_seq_id == apply_log(inner, log).max_seq_id
            &&& begun.log_seq_id == updated_seq_id(inner, log)
            &&& begun.inner == inner.with_log(log)
        }),
        ({
            let next = state.advanced(index_dimensionality);
            &&& next.next_label == state.next_label
            &&& next.max_seq_id == state.max_seq_id
            &&& next.log_seq_id == state.log_seq_id
            &&& next.inner.id_map.id_to_label == state.inner.id_map.id_to_label
            &&& next.inner.id_map.label_to_id == state.inner.id_map.label_to_id
            &&& next.inner.id_map.id_to_seq_id == state.inner.id_map.id_to_seq_id
            &&& next.inner.id_map.max_seq_id == state.inner.id_map.max_seq_id
            &&& next.inner.sync_threshold == state.inner.sync_threshold
            &&& next.inner.persist_path == state.inner.persist_path
            &&& state.step != ChunkStep::UpdateIndex ==> next.inner.id_map.total_elements_added
                == state.inner.id_map.total_elements_added
            &&& state.step == ChunkStep::UpdateIndex && state.next_label > 0
                ==> next.inner.id_map.total_elements_added == state.next_label - 1
            &&& state.step != ChunkStep::SaveIndex ==> next.inner.id_map.dimensionality
                == state.inner.id_map.dimensionality
            &&& state.step != ChunkStep::StoreSeqId
                ==> next.inner.num_elements_since_last_persist
                == state.inner.num_elements_since_last_persist
            &&& next.step == ChunkStep::Done && state.step != ChunkStep::Done
                ==> next.inner.last_seen_seq_id == state.max_seq_id
            &&& next.step != ChunkStep::Done ==> next.inner.last_seen_seq_id
                == state.inner.last_seen_seq_id
        }),
{
    lemma_apply_prefix_grows(inner, log, 0, log.len());
}

/// An empty chunk is done with at once and leaves the segment as it was.
pub proof fn law_empty_chunk_is_done(inner: InnerView, log: Seq<LogRecordView>)
    requires
        log.len() == 0,
    ensures
        ChunkState::begun(inner, log).step == ChunkStep::Done,
        ChunkState::begun(inner, log).inner == inner,
        ChunkState::begun(inner, log).log_seq_id == inner.last_seen_seq_id,
        inner.id_map.total_elements_added < u32::MAX ==> ChunkState::begun(inner, log).next_label
            == inner.id_map.total_elements_added + 1,
{
    assert(ChunkState::begun(inner, log).inner =~= inner);
}

/// What a chunk leaves: the total is the last label given out, the log counts as applied up to the
/// greatest offset, the count starts again where the segment was persisted, and the maps carry the
/// dimensionality of the index where they were written. All else is as the log left it.
pub proof fn law_completed_chunk_leaves(
    inner: InnerView,
    log: Seq<LogRecordView>,
    index_dimensionality: i32,
)
    requires
        log.len() > 0,
        log_fits(inner, log),
        apply_log(inner, log).failure is None,
        index_dimensionality > 0,
    ensures
        ({
            let chunk = apply_log(inner, log);
            let after = completed(inner, log, index_dimensionality);
            let due = inner.num_elements_since_last_persist + new_records(inner, log).len()
                >= inner.sync_threshold;
            &&& after.id_map.total_elements_added == chunk.next_label - 1
            &&& after.id_map.id_to_label == chunk.id_map.id_to_label
            &&& after.id_map.label_to_id == chunk.id_map.label_to_id
            &&& after.id_map.id_to_seq_id == chunk.id_map.id_to_seq_id
            &&& after.id_map.max_seq_id == chunk.id_map.max_seq_id
            &&& after.last_seen_seq_id == chunk.max_seq_id
            &&& after.num_elements_since_last_persist == (if due {
                0
            } else {
                chunk.elements
            })
            &&& if due && inner.persist_path is Some {
                after.id_map.dimensionality matches Some(d) && d == index_dimensionality
            } else {
                after.id_map.dimensionality == chunk.id_map.dimensionality
            }
            &&& after.sync_threshold == inner.sync_threshold
            &&& after.persist_path == inner.persist_path
            &&& after.index_init == inner.index_init
            &&& after.allow_reset == inner.allow_reset
        }),
{
    law_new_records_are_counted(inner, log);
    lemma_apply_prefix_grows(inner, log, 0, log.len());
}

/// A segment on disk is persisted in this order: the index is saved, the maps are written, the
/// sequence id is recorded. What is written and recorded is what the segment then holds.
pub proof fn law_persisting_writes_what_is_held(
    inner: InnerView,
    log: Seq<LogRecordView>,
    index_dimensionality: i32,
)
    requires
        log.len() > 0,
        log_fits(inner, log),
        apply_log(inner, log).failure is None,
        index_dimensionality > 0,
        inner.persist_path is Some,
        inner.num_elements_since_last_persist + new_records(inner, log).len()
            >= inner.sync_threshold,
    ensures
        ({
            let saving = ChunkState::begun(inner, log).after_index_update();
            let writing = saving.after_index_save(index_dimensionality);
            let storing = writing.after_metadata_write();
            let done = storing.after_seq_id_store();
            &&& saving.step == ChunkStep::SaveIndex
            &&& writing.step == ChunkStep::WriteMetadata
            &&& storing.step == ChunkStep::StoreSeqId
            &&& done.step == ChunkStep::Done
            &&& writing.inner.persist_path == inner.persist_path
            &&& writing.inner.id_map == done.inner.id_map
            &&& writing.inner.id_map.total_elements_added == apply_log(inner, log).next_label - 1
            &&& writing.inner.id_map.id_to_label == apply_log(inner, log).id_map.id_to_label
            &&& writing.inner.id_map.label_to_id == apply_log(inner, log).id_map.label_to_id
            &&& writing.inner.id_map.id_to_seq_id == apply_log(inner, log).id_map.id_to_seq_id
            &&& writing.inner.id_map.dimensionality matches Some(d) && d == index_dimensionality
            &&& storing.max_seq_id == done.inner.last_seen_seq_id
            &&& storing.max_seq_id == apply_log(inner, log).max_seq_id
            &&& done.next_label == apply_log(inner, log).next_label
            &&& done.inner.num_elements_since_last_persist == 0
            &&& done.inner == completed(inner, log, index_dimensionality)
        }),
{
    law_new_records_are_counted(inner, log);
    lemma_apply_prefix_grows(inner, log, 0, log.len());
}

/// A segment in memory records its sequence id where one on disk is persisted, and changes nothing
/// else that the index update did not.
pub proof fn law_segment_in_memory_records_its_seq_id(
    inner: InnerView,
    log: Seq<LogRecordView>,
    index_dimensionality: i32,
)
    requires
        log.len() > 0,
        log_fits(inner, log),
        apply_log(inner, log).failure is None,
        inner.persist_path is None,
        inner.num_elements_since_last_persist + new_records(inner, log).len()
            >= inner.sync_threshold,
    ensures
        ({
            let storing = ChunkState::begun(inner, log).after_index_update();
            let done = storing.after_seq_id_store();
            &&& storing.step == ChunkStep::StoreSeqId
            &&& storing.max_seq_id == apply_log(inner, log).max_seq_id
            &&& done.step == ChunkStep::Done
            &&& done.inner.last_seen_seq_id == storing.max_seq_id
            &&& done.inner.num_elements_since_last_persist == 0
            &&& done.inner.id_map.dimensionality == storing.inner.id_map.dimensionality
            &&& done.inner == completed(inner, log, index_dimensionality)
        }),
{
    law_new_records_are_counted(inner, log);
    lemma_apply_prefix_grows(inner, log, 0, log.len());
}

/// The calls of a group all go to its label; a delete takes the label out and every other record
/// puts in the embedding that it carries, and it is clear from the call which error its failure is.
pub proof fn law_calls_say_what_records_say<E>(
    group: LabelGroup,
    chunk: Seq<LogRecord<E>>,
    position: int,
)
    requires
        group_is_sound(group, chunk),
        0 <= position < group.records@.len(),
    ensures
        ({
            let record = chunk[group.records@[position] as int].record;
            match planned_call(group, chunk, position) {
                IndexCall::Put(label, embedding) => {
                    &&& label == group.label
                    &&& record.operation != Operation::Delete
                    &&& record.embedding == Some(*embedding)
                    &&& planned_call(group, chunk, position).error()
                        == LocalHnswSegmentWriterError::HnwsIndexAddError
                },
                IndexCall::Remove(label) => {
                    &&& label == group.label
                    &&& record.operation == Operation::Delete
                    &&& planned_call(group, chunk, position).error()
                        == LocalHnswSegmentWriterError::HnswIndexDeleteError
                },
            }
        }),
{
    assert(group.records@[position] < chunk.len());
}

/// A chunk that fails reports a missing embedding as such, and a bad offset with the offset.
pub proof fn law_failures_are_reported_as_they_are(failure: ChunkFailure)
    ensures
        failure is EmbeddingNotFound <==> chunk_error(failure)
            == LocalHnswSegmentWriterError::EmbeddingNotFound,
        failure matches ChunkFailure::InvalidLogOffset(offset) ==> chunk_error(failure)
            == LocalHnswSegmentWriterError::InvalidLogOffset(offset),
{
}

} // verus!
