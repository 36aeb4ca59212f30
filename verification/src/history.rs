//! Logs that overlap: records that were seen before, chunks that come twice, and segments with a
//! history of chunks.
use crate::laws::{
    completed, law_completed_chunk_keeps_segment_sound, law_log_keeps_maps_consistent,
    law_new_labels_are_fresh, law_persisted_segment_reopens, law_seen_records_change_nothing,
    lemma_consistent_sizes, lemma_max_seq_id_moves,
};
use crate::log::{
    apply_log, apply_prefix, has_unseen, lemma_apply_prefix_grows, lemma_labels_bounded,
    lemma_other_fields_stay, lemma_same_prefix, lemma_work_is_sound, log_fits, updated_seq_id,
    ChunkView, LogRecordView, Operation,
};
use crate::opening::{is_opening, Access, OpenFailure, OpeningView, SegmentAnswers};
use crate::segment::{HnswConfiguration, InnerView};
use crate::writer::{ChunkState, ChunkStep};
use vstd::prelude::*;

verus! {

/// The records of a log that lie beyond the offset up to which it was applied.
pub open spec fn unseen_of(inner: InnerView, log: Seq<LogRecordView>) -> Seq<LogRecordView> {
    log.filter(|r: LogRecordView| !r.is_seen(inner.last_seen_seq_id))
}

/// Two chunks come to the same: the same maps, counters and failure, and the same work of the
/// index, label by label and record by record, wherever the records stand.
pub open spec fn comes_to_the_same(
    a: ChunkView,
    log_a: Seq<LogRecordView>,
    b: ChunkView,
    log_b: Seq<LogRecordView>,
) -> bool {
    &&& a.id_map == b.id_map
    &&& a.next_label == b.next_label
    &&& a.elements == b.elements
    &&& a.max_seq_id == b.max_seq_id
    &&& a.failure == b.failure
    &&& a.work.len() == b.work.len()
    &&& forall|j: int|
        #![trigger a.work[j]]
        #![trigger b.work[j]]
        0 <= j < a.work.len() ==> a.work[j].label == b.work[j].label
            && log_a[a.work[j].record as int] == log_b[b.work[j].record as int]
}

/// Records that were seen before have no effect, whatever they ask for: a log comes to the same
/// as the log without them.
pub proof fn law_seen_records_have_no_effect(inner: InnerView, log: Seq<LogRecordView>)
    requires
        log.len() <= usize::MAX,
    ensures
        unseen_of(inner, log).len() <= log.len(),
        comes_to_the_same(
            apply_log(inner, log),
            log,
            apply_log(inner, unseen_of(inner, log)),
            unseen_of(inner, log),
        ),
    decreases log.len(),
{
    let unseen = unseen_of(inner, log);
    reveal(Seq::filter);
    if log.len() > 0 {
        let earlier = log.drop_last();
        let r = log.last();
        let known = unseen_of(inner, earlier);
        law_seen_records_have_no_effect(inner, earlier);
        lemma_same_prefix(inner, earlier, log, earlier.len());
        lemma_work_is_sound(inner, earlier, earlier.len());
        lemma_work_is_sound(inner, known, known.len());
        let a = apply_log(inner, earlier);
        let b = apply_log(inner, known);
        if !r.is_seen(inner.last_seen_seq_id) {
            assert(unseen == known.push(r));
            lemma_same_prefix(inner, known, unseen, known.len());
        } else {
            assert(unseen == known);
        }
        let c = apply_log(inner, log);
        let d = apply_log(inner, unseen);
        assert forall|j: int|
            #![trigger c.work[j]]
            #![trigger d.work[j]]
            0 <= j < c.work.len() implies c.work[j].label == d.work[j].label
            && log[c.work[j].record as int] == unseen[d.work[j].record as int] by {
            if j < a.work.len() {
                assert(c.work[j] == a.work[j] && d.work[j] == b.work[j]);
                assert(earlier[a.work[j].record as int] == known[b.work[j].record as int]);
            }
        }
    }
}

/// A chunk and the same chunk without its seen records leave the same labels, ids, offsets and
/// total.
pub proof fn law_seen_records_leave_the_same_segment(
    inner: InnerView,
    log: Seq<LogRecordView>,
    index_dimensionality: i32,
)
    requires
        log.len() <= usize::MAX,
        apply_log(inner, log).next_label <= u32::MAX,
    ensures
        ({
            let whole = completed(inner, log, index_dimensionality).id_map;
            let unseen = completed(
                inner,
                unseen_of(inner, log),
                index_dimensionality,
            ).id_map;
            &&& whole.id_to_label == unseen.id_to_label
            &&& whole.label_to_id == unseen.label_to_id
            &&& whole.id_to_seq_id == unseen.id_to_seq_id
            &&& whole.total_elements_added == unseen.total_elements_added
        }),
{
    law_seen_records_have_no_effect(inner, log);
}

/// Once a chunk that brought something new is applied to the end, all of it counts as seen.
proof fn lemma_applied_chunk_is_seen(
    inner: InnerView,
    log: Seq<LogRecordView>,
    index_dimensionality: i32,
)
    requires
        inner.last_seen_seq_id <= i64::MAX,
        apply_log(inner, log).failure is None,
        has_unseen(inner, log),
    ensures
        completed(inner, log, index_dimensionality).last_seen_seq_id == apply_log(
            inner,
            log,
        ).max_seq_id,
        apply_log(inner, log).max_seq_id <= i64::MAX,
        !has_unseen(completed(inner, log, index_dimensionality), log),
{
    let after = completed(inner, log, index_dimensionality);
    let i = choose|i: int|
        0 <= i < log.len() && !(#[trigger] log[i]).is_seen(inner.last_seen_seq_id);
    lemma_max_seq_id_moves(inner, log, log.len(), i);
    lemma_max_seq_id_is_an_offset(inner, log, log.len());
    assert forall|j: int| 0 <= j < log.len() implies (#[trigger] log[j]).is_seen(
        after.last_seen_seq_id,
    ) by {
        if !log[j].is_seen(inner.last_seen_seq_id) {
            lemma_max_seq_id_moves(inner, log, log.len(), j);
        }
    }
}

/// The greatest offset taken up is one that a log can hold.
proof fn lemma_max_seq_id_is_an_offset(inner: InnerView, log: Seq<LogRecordView>, n: nat)
    requires
        inner.last_seen_seq_id <= i64::MAX,
        n <= log.len(),
    ensures
        apply_prefix(inner, log, n).max_seq_id <= i64::MAX,
    decreases n,
{
    if n > 0 {
        lemma_max_seq_id_is_an_offset(inner, log, (n - 1) as nat);
    }
}

/// A chunk that comes twice changes no map the second time, asks nothing of the index, has the
/// same label next and the same log seq id, and is done without anything being persisted.
///
/// It does set the offset up to which the segment takes the log as applied back to 0, as does any
/// chunk that is not empty and brings nothing new: were the chunk to come a third time, it would
/// be taken up again.
pub proof fn law_repeated_chunk_changes_no_map(
    inner: InnerView,
    log: Seq<LogRecordView>,
    index_dimensionality: i32,
)
    requires
        inner.sync_threshold >= 1,
        inner.last_seen_seq_id <= i64::MAX,
        log_fits(inner, log),
        apply_log(inner, log).failure is None,
        has_unseen(inner, log),
    ensures
        ({
            let after = completed(inner, log, index_dimensionality);
            let again = apply_log(after, log);
            let done = ChunkState::begun(after, log).after_index_update();
            &&& log_fits(after, log)
            &&& again.failure is None
            &&& again.work.len() == 0
            &&& again.next_label == apply_log(inner, log).next_label
            &&& done.step == ChunkStep::Done
            &&& done.next_label == apply_log(inner, log).next_label
            &&& done.log_seq_id == after.last_seen_seq_id
            &&& done.inner == after.seen_up_to(0)
        }),
{
    let after = completed(inner, log, index_dimensionality);
    lemma_applied_chunk_is_seen(inner, log, index_dimensionality);
    law_seen_records_change_nothing(after, log, log.len());
    lemma_apply_prefix_grows(inner, log, 0, log.len());
    let done = ChunkState::begun(after, log).after_index_update();
    assert(done.inner =~= after.seen_up_to(0));
}

/// The log seq id that a chunk yields never goes back, and moves forward just where the chunk
/// brings something new.
pub proof fn law_log_seq_id_never_goes_back(inner: InnerView, log: Seq<LogRecordView>)
    requires
        inner.last_seen_seq_id <= i64::MAX,
        apply_log(inner, log).failure is None,
    ensures
        updated_seq_id(inner, log) >= inner.last_seen_seq_id,
        updated_seq_id(inner, log) > inner.last_seen_seq_id <==> has_unseen(inner, log),
        forall|i: int|
            0 <= i < log.len() ==> (#[trigger] log[i]).log_offset <= updated_seq_id(inner, log),
{
    if has_unseen(inner, log) {
        let i = choose|i: int|
            0 <= i < log.len() && !(#[trigger] log[i]).is_seen(inner.last_seen_seq_id);
        lemma_max_seq_id_moves(inner, log, log.len(), i);
    }
    assert forall|i: int| 0 <= i < log.len() implies (#[trigger] log[i]).log_offset
        <= updated_seq_id(inner, log) by {
        if !log[i].is_seen(inner.last_seen_seq_id) {
            lemma_max_seq_id_moves(inner, log, log.len(), i);
        }
    }
}

/// A log that is applied to the end leaves maps that are never refused for their sizes, their
/// entries or their total.
pub proof fn law_applied_log_leaves_sound_maps(
    inner: InnerView,
    log: Seq<LogRecordView>,
    index_dimensionality: i32,
)
    requires
        inner.id_map.is_consistent(inner.id_map.total_elements_added as int),
        inner.id_map.total_elements_added + log.len() < u32::MAX,
        apply_log(inner, log).failure is None,
    ensures
        ({
            let m = completed(inner, log, index_dimensionality).id_map;
            &&& m.is_consistent(m.total_elements_added as int)
            &&& m.is_vacant() || m.size_defect() is None
            &&& m.entries_sound()
            &&& !m.has_label_above(m.total_elements_added as int)
        }),
{
    let m = completed(inner, log, index_dimensionality).id_map;
    lemma_labels_bounded(inner, log, log.len());
    lemma_apply_prefix_grows(inner, log, 0, log.len());
    law_log_keeps_maps_consistent(inner, log, log.len());
    assert(m.is_consistent(m.total_elements_added as int));
    lemma_consistent_sizes(m, m.total_elements_added as int);
    if !m.is_vacant() {
        assert(m.size_defect() is None) by {
            if m.id_to_label.dom().is_empty() {
                if !m.label_to_id.dom().is_empty() {
                    let label = m.label_to_id.dom().choose();
                    assert(m.label_to_id.contains_key(label));
                }
            } else {
                let id = m.id_to_label.dom().choose();
                assert(m.id_to_label.contains_key(id));
                assert(m.label_to_id.dom().contains(m.id_to_label[id]));
            }
        }
    }
}

/// Labels are not given out twice: the total only grows, and after a log that is applied to the
/// end each id has the label it had before, or one above the old total and at most the new one.
pub proof fn law_labels_are_not_given_out_twice(
    inner: InnerView,
    log: Seq<LogRecordView>,
    index_dimensionality: i32,
    id: Seq<char>,
)
    requires
        inner.id_map.total_elements_added + log.len() < u32::MAX,
        apply_log(inner, log).failure is None,
    ensures
        ({
            let old_map = inner.id_map;
            let new_map = completed(inner, log, index_dimensionality).id_map;
            &&& new_map.total_elements_added >= old_map.total_elements_added
            &&& new_map.id_to_label.contains_key(id) ==> {
                ||| old_map.id_to_label.contains_key(id) && old_map.id_to_label[id]
                    == new_map.id_to_label[id]
                ||| old_map.total_elements_added < new_map.id_to_label[id]
                    <= new_map.total_elements_added
            }
        }),
{
    lemma_labels_bounded(inner, log, log.len());
    lemma_apply_prefix_grows(inner, log, 0, log.len());
    if apply_log(inner, log).id_map.id_to_label.contains_key(id) {
        law_new_labels_are_fresh(inner, log, log.len(), id);
    }
}

/// Only an add or an upsert of an id without a label uses up a label, and it uses up one.
pub proof fn law_only_new_ids_use_up_labels(inner: InnerView, log: Seq<LogRecordView>, n: nat)
    requires
        n < log.len(),
    ensures
        ({
            let before = apply_prefix(inner, log, n);
            let after = apply_prefix(inner, log, n + 1);
            let r = log[n as int];
            &&& after.next_label == before.next_label || after.next_label == before.next_label + 1
            &&& after.next_label != before.next_label ==> !before.knows(r.id) && (r.operation
                == Operation::Add || r.operation == Operation::Upsert)
        }),
{
}

/// The segment once a row of chunks was applied to the end, one after the other.
pub open spec fn after_chunks(
    inner: InnerView,
    chunks: Seq<Seq<LogRecordView>>,
    n: nat,
    index_dimensionality: i32,
) -> InnerView
    decreases n,
{
    if n == 0 {
        inner
    } else {
        completed(
            after_chunks(inner, chunks, (n - 1) as nat, index_dimensionality),
            chunks[n - 1],
            index_dimensionality,
        )
    }
}

/// The chunk at place `k` can be applied to what the chunks before it left: the counters have room
/// for it, no record fails, and it is empty or brings something new.
pub open spec fn chunk_applies(
    inner: InnerView,
    chunks: Seq<Seq<LogRecordView>>,
    k: int,
    index_dimensionality: i32,
) -> bool {
    let at = after_chunks(inner, chunks, k as nat, index_dimensionality);
    &&& log_fits(at, chunks[k])
    &&& apply_log(at, chunks[k]).failure is None
    &&& chunks[k].len() == 0 || has_unseen(at, chunks[k])
}

/// A segment stays sound through any row of chunks, and keeps its place, its settings and the
/// sequence id of older metadata.
pub proof fn law_history_keeps_segment_sound(
    inner: InnerView,
    chunks: Seq<Seq<LogRecordView>>,
    n: nat,
    index_dimensionality: i32,
)
    requires
        inner.is_sound(),
        inner.last_seen_seq_id <= i64::MAX,
        n <= chunks.len(),
        forall|k: int|
            0 <= k < n ==> #[trigger] chunk_applies(inner, chunks, k, index_dimensionality),
    ensures
        ({
            let after = after_chunks(inner, chunks, n, index_dimensionality);
            &&& after.is_sound()
            &&& inner.last_seen_seq_id <= after.last_seen_seq_id <= i64::MAX
            &&& after.id_map.max_seq_id == inner.id_map.max_seq_id
            &&& after.index_init == inner.index_init
            &&& after.allow_reset == inner.allow_reset
            &&& after.sync_threshold == inner.sync_threshold
            &&& after.persist_path == inner.persist_path
        }),
    decreases n,
{
    if n > 0 {
        let before = after_chunks(inner, chunks, (n - 1) as nat, index_dimensionality);
        let log = chunks[n - 1];
        law_history_keeps_segment_sound(inner, chunks, (n - 1) as nat, index_dimensionality);
        assert(chunk_applies(inner, chunks, n - 1, index_dimensionality));
        lemma_other_fields_stay(before, log, log.len());
        if log.len() > 0 {
            law_completed_chunk_keeps_segment_sound(before, log, index_dimensionality);
            lemma_applied_chunk_is_seen(before, log, index_dimensionality);
        }
    }
}

/// What a writer leaves after any row of chunks, the last of which was persisted, is what a reader
/// finds: the same maps and the same sequence id, as long as some id is live.
pub proof fn law_history_reopens(
    inner: InnerView,
    chunks: Seq<Seq<LogRecordView>>,
    index_dimensionality: i32,
    configuration: HnswConfiguration,
    answers: SegmentAnswers,
    path: Seq<OpeningView>,
    end: Result<OpeningView, OpenFailure>,
)
    requires
        inner.is_sound(),
        inner.index_init,
        !inner.allow_reset,
        inner.last_seen_seq_id <= i64::MAX,
        inner.id_map.max_seq_id is None,
        inner.persist_path is Some,
        index_dimensionality > 0,
        chunks.len() > 0,
        forall|k: int|
            0 <= k < chunks.len() ==> #[trigger] chunk_applies(
                inner,
                chunks,
                k,
                index_dimensionality,
            ),
        chunks.last().len() > 0,
        after_chunks(
            inner,
            chunks,
            (chunks.len() - 1) as nat,
            index_dimensionality,
        ).with_log(chunks.last()).is_persist_due(),
        configuration.sync_threshold == inner.sync_threshold,
        ({
            let after = after_chunks(inner, chunks, chunks.len(), index_dimensionality);
            &&& !after.id_map.is_vacant()
            &&& answers == (SegmentAnswers {
                folder_exists: true,
                folder: after.persist_path,
                metadata: Some(after.id_map),
                index_loads: true,
                index_inits: true,
                seq_id: Some(after.last_seen_seq_id),
            })
        }),
        is_opening(
            OpeningView::start(Access::Read, configuration, index_dimensionality as usize, true),
            answers,
            path,
            end,
        ),
    ensures
        ({
            let after = after_chunks(inner, chunks, chunks.len(), index_dimensionality);
            &&& end matches Ok(ready)
            &&& ready.id_map == after.id_map
            &&& ready.seq_id == after.last_seen_seq_id
        }),
{
    let n = (chunks.len() - 1) as nat;
    let before = after_chunks(inner, chunks, n, index_dimensionality);
    law_history_keeps_segment_sound(inner, chunks, n, index_dimensionality);
    assert(chunk_applies(inner, chunks, n as int, index_dimensionality));
    law_persisted_segment_reopens(
        before,
        chunks.last(),
        index_dimensionality,
        Access::Read,
        configuration,
        answers,
        path,
        end,
    );
}

} // verus!
