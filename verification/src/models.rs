//! The models that contracts speak of show what the values hold, field by field and place by place.
use crate::error::{
    ConfigurationError, ErrorCodes, LocalHnswSegmentReaderError, LocalHnswSegmentWriterError,
};
use crate::id_map::{IdMap, IdMapView};
use crate::log::{log_view, LogRecord};
use crate::opening::SegmentOpening;
use crate::reader::{
    embedding_result, may_fail_to_list, may_fail_to_measure, may_list, may_measure,
    LocalHnswSegmentReader,
};
use crate::segment::{opt_chars, IndexFailure, Inner, LocalHnswIndex};
use crate::text::signed_decimal;
use crate::writer::{ChunkProgress, ChunkState, LocalHnswSegmentWriter};
use vstd::prelude::*;

verus! {

/// The model of an optional name has a name exactly if there is one, and it is that name, letter by
/// letter.
pub proof fn law_names_are_shown_in_full(name: Option<String>)
    ensures
        opt_chars(name) is Some <==> name is Some,
        name matches Some(s) ==> opt_chars(name) == Some(s@),
{
}

/// The model of identifier maps has the entries of the maps and no others.
pub proof fn law_maps_are_shown_in_full(id_map: IdMap)
    ensures
        id_map@.dimensionality == id_map.dimensionality,
        id_map@.total_elements_added == id_map.total_elements_added,
        id_map@.max_seq_id == id_map.max_seq_id,
        id_map@.id_to_label == id_map.id_to_label@,
        id_map@.id_to_seq_id == id_map.id_to_seq_id@,
        forall|label: u32| #[trigger]
            id_map@.label_to_id.contains_key(label) <==> id_map.label_to_id@.contains_key(label),
        forall|label: u32|
            id_map.label_to_id@.contains_key(label) ==> #[trigger] id_map@.label_to_id[label]
                == id_map.label_to_id@[label]@,
{
}

/// Maps are vacant exactly if none of the three has an entry.
pub proof fn law_vacant_maps_have_no_entries(m: IdMapView)
    ensures
        m.is_vacant() <==> {
            &&& forall|id: Seq<char>| !#[trigger] m.id_to_label.contains_key(id)
            &&& forall|label: u32| !#[trigger] m.label_to_id.contains_key(label)
            &&& forall|id: Seq<char>| !#[trigger] m.id_to_seq_id.contains_key(id)
        },
{
    if m.is_vacant() {
        assert forall|id: Seq<char>| !#[trigger] m.id_to_label.contains_key(id) by {
            assert(!m.id_to_label.dom().contains(id));
        }
        assert forall|label: u32| !#[trigger] m.label_to_id.contains_key(label) by {
            assert(!m.label_to_id.dom().contains(label));
        }
        assert forall|id: Seq<char>| !#[trigger] m.id_to_seq_id.contains_key(id) by {
            assert(!m.id_to_seq_id.dom().contains(id));
        }
    } else if (forall|id: Seq<char>| !#[trigger] m.id_to_label.contains_key(id)) && (forall|
        label: u32,
    | !#[trigger] m.label_to_id.contains_key(label)) && (forall|id: Seq<char>|
        !#[trigger] m.id_to_seq_id.contains_key(id)) {
        assert(m.id_to_label.dom() =~= Set::empty());
        assert(m.label_to_id.dom() =~= Set::empty());
        assert(m.id_to_seq_id.dom() =~= Set::empty());
    }
}

/// The model of a segment, of its handle, of its readers and of its writers is one and the same,
/// and has what the segment holds.
pub proof fn law_segments_are_shown_in_full(
    inner: Inner,
    index: LocalHnswIndex,
    reader: LocalHnswSegmentReader,
    writer: LocalHnswSegmentWriter,
)
    ensures
        inner@.id_map == inner.id_map@,
        inner@.index_init == inner.index_init,
        inner@.allow_reset == inner.allow_reset,
        inner@.num_elements_since_last_persist == inner.num_elements_since_last_persist,
        inner@.last_seen_seq_id == inner.last_seen_seq_id,
        inner@.sync_threshold == inner.sync_threshold,
        inner.persist_path is None <==> inner@.persist_path is None,
        inner.persist_path matches Some(path) ==> inner@.persist_path == Some(path@),
        index@ == index.inner@,
        reader@ == reader.index.inner@,
        writer@ == writer.index.inner@,
{
}

/// The model of an opening has what the opening holds.
pub proof fn law_openings_are_shown_in_full(opening: SegmentOpening)
    ensures
        opening@.access == opening.access,
        opening@.configuration == opening.configuration,
        opening@.dimensionality == opening.dimensionality,
        opening.folder is None <==> opening@.folder is None,
        opening.folder matches Some(folder) ==> opening@.folder == Some(folder@),
        opening@.id_map == opening.id_map@,
        opening@.seq_id == opening.seq_id,
        opening@.step == opening.step,
{
}

/// The model of a log has a record for each of the log, in order, with its offset, its id, what it
/// asks for, and whether it has an embedding.
pub proof fn law_logs_are_shown_in_full<E>(records: Seq<LogRecord<E>>)
    ensures
        log_view(records).len() == records.len(),
        forall|i: int|
            0 <= i < records.len() ==> {
                let shown = #[trigger] log_view(records)[i];
                &&& shown.log_offset == records[i].log_offset
                &&& shown.id == records[i].record.id@
                &&& shown.operation == records[i].record.operation
                &&& shown.has_embedding <==> records[i].record.embedding is Some
            },
{
}

/// The model of a chunk on its way has its numbers, its step and the segment.
pub proof fn law_progress_is_shown_in_full(
    writer: LocalHnswSegmentWriter,
    progress: ChunkProgress,
)
    ensures
        ChunkState::of(writer, progress).inner == writer.index.inner@,
        ChunkState::of(writer, progress).next_label == progress.next_label,
        ChunkState::of(writer, progress).max_seq_id == progress.max_seq_id,
        ChunkState::of(writer, progress).log_seq_id == progress.log_seq_id,
        ChunkState::of(writer, progress).step == progress.step,
{
}

/// An error that wraps another has its code, a missing embedding is the caller's fault, and any
/// other error is internal.
pub proof fn law_errors_have_their_codes(
    reader: LocalHnswSegmentReaderError,
    writer: LocalHnswSegmentWriterError,
)
    ensures
        reader matches LocalHnswSegmentReaderError::InvalidHnswConfiguration(err)
            ==> reader.spec_code() == err.code,
        !(reader is InvalidHnswConfiguration) ==> reader.spec_code() == ErrorCodes::Internal,
        writer matches LocalHnswSegmentWriterError::InvalidHnswConfiguration(err)
            ==> writer.spec_code() == err.code,
        writer matches LocalHnswSegmentWriterError::HnswConfigError(err) ==> writer.spec_code()
            == err.code,
        writer is EmbeddingNotFound <==> writer.spec_code() == ErrorCodes::InvalidArgument && !(
        writer is InvalidHnswConfiguration || writer is HnswConfigError),
        !(writer is InvalidHnswConfiguration || writer is HnswConfigError
            || writer is EmbeddingNotFound) ==> writer.spec_code() == ErrorCodes::Internal,
{
}

/// A message that tells of another error, of a reason or of an offset ends with it, in full.
pub proof fn law_messages_tell_the_whole_reason(text: String, err: ConfigurationError, offset: i64)
    ensures
        LocalHnswSegmentReaderError::PickleFileOpenError(text).spec_message()
            == "Error opening pickle file: "@ + text@,
        LocalHnswSegmentReaderError::PickleFileDeserializeError(text).spec_message()
            == "Error deserializing pickle file: "@ + text@,
        LocalHnswSegmentReaderError::SqliteError(text).spec_message()
            == "Error reading from sqlite: "@ + text@,
        LocalHnswSegmentReaderError::InvalidPersistedMetadata(text).spec_message()
            == "Invalid persisted local HNSW metadata: "@ + text@,
        LocalHnswSegmentReaderError::InvalidHnswConfiguration(err).spec_message()
            == "Could not parse HNSW configuration: "@ + err.message@,
        LocalHnswSegmentWriterError::InvalidPersistedMetadata(text).spec_message()
            == "Invalid persisted local HNSW metadata: "@ + text@,
        LocalHnswSegmentWriterError::InvalidHnswConfiguration(err).spec_message()
            == "Could not parse HNSW configuration: "@ + err.message@,
        LocalHnswSegmentWriterError::InvalidLogOffset(offset).spec_message()
            == "Invalid log offset for persisted HNSW metadata: "@ + signed_decimal(offset as int),
{
}

/// A reader hands on the embedding that the index has, and reports an index that fails or has none
/// alike.
pub proof fn law_embeddings_are_handed_on<T>(fetched: Result<Option<T>, IndexFailure>)
    ensures
        fetched matches Ok(Some(embedding)) ==> embedding_result(fetched) == Ok::<
            T,
            LocalHnswSegmentReaderError,
        >(embedding),
        fetched is Err || fetched == Ok::<Option<T>, IndexFailure>(None) ==> embedding_result(
            fetched,
        ) == Err::<T, LocalHnswSegmentReaderError>(LocalHnswSegmentReaderError::GetEmbeddingError),
{
}

/// A search takes the ids and the distances that the index answers, and nothing else; what the
/// index fails to answer it takes for no answer.
pub proof fn law_searches_take_what_the_index_answers<
    A: FnOnce() -> Result<Vec<usize>, IndexFailure>,
    M: Fn(usize) -> Result<Option<u32>, IndexFailure>,
>(all_ids: A, measure: M, ids: Vec<usize>, id: usize, distance: u32)
    ensures
        may_list(all_ids, ids) <==> call_ensures(
            all_ids,
            (),
            Ok::<Vec<usize>, IndexFailure>(ids),
        ),
        may_measure(measure, id, distance) <==> call_ensures(
            measure,
            (id,),
            Ok::<Option<u32>, IndexFailure>(Some(distance)),
        ),
        may_fail_to_list(all_ids) ==> exists|answer: Result<Vec<usize>, IndexFailure>|
            answer is Err && #[trigger] call_ensures(all_ids, (), answer),
        may_fail_to_measure(measure, id) ==> exists|answer: Result<Option<u32>, IndexFailure>|
            (answer is Err || answer->Ok_0 is None) && #[trigger] call_ensures(
                measure,
                (id,),
                answer,
            ),
{
    if may_fail_to_list(all_ids) {
        let failure = choose|failure: IndexFailure| #[trigger]
            call_ensures(all_ids, (), Err::<Vec<usize>, IndexFailure>(failure));
        assert(call_ensures(all_ids, (), Err::<Vec<usize>, IndexFailure>(failure)));
    }
}

} // verus!
