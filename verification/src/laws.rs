//! What holds of a segment over its whole life: between the maps, from chunk to chunk, and from a
//! writer to the next reader.
use crate::batch::records_of;
use crate::id_map::IdMapView;
use crate::log::{
    apply_log, apply_prefix, has_unseen, lemma_apply_prefix_grows, lemma_other_fields_stay,
    lemma_same_prefix, log_fits, ChunkView, LogRecordView, Operation,
};
use crate::opening::{
    goes_on, is_opening, law_reader_opens_sound_segments,
    law_writer_opens_sound_or_new_segments, Access, OpenFailure, OpeningView, SegmentAnswers,
};
use crate::segment::{HnswConfiguration, InnerView};
use crate::writer::{ChunkState, ChunkStep};
use vstd::prelude::*;
use vstd::set_lib::{lemma_map_size, lemma_subset_equality};

verus! {

impl InnerView {
    /// The maps are consistent, the labels given out cover them, and nothing in them is newer
    /// than the offset up to which the log was applied.
    pub open spec fn is_sound(self) -> bool {
        &&& self.id_map.is_consistent(self.id_map.total_elements_added as int)
        &&& self.id_map.seq_ids_within(self.last_seen_seq_id as int)
    }
}

/// The segment once a chunk was applied to the end, with an index of the given dimensionality.
pub open spec fn completed(
    inner: InnerView,
    log: Seq<LogRecordView>,
    index_dimensionality: i32,
) -> InnerView {
    let chunk = apply_log(inner, log);
    let labelled = inner.with_log(log).with_labels_below(chunk.next_label as u32);
    if log.len() == 0 {
        inner
    } else if !labelled.is_persist_due() {
        labelled.seen_up_to(chunk.max_seq_id)
    } else if labelled.persist_path is Some {
        labelled.with_dimensionality(index_dimensionality as usize).persisted().seen_up_to(
            chunk.max_seq_id,
        )
    } else {
        labelled.persisted().seen_up_to(chunk.max_seq_id)
    }
}

/// A chunk that can be applied is done within four steps of the index, the disk and the database,
/// and what they leave is the completed segment.
pub proof fn law_chunk_runs_to_completion(
    inner: InnerView,
    log: Seq<LogRecordView>,
    index_dimensionality: i32,
)
    requires
        log_fits(inner, log),
        apply_log(inner, log).failure is None,
    ensures
        ({
            let done = ChunkState::begun(inner, log).advanced(index_dimensionality).advanced(
                index_dimensionality,
            ).advanced(index_dimensionality).advanced(index_dimensionality);
            &&& done.step == ChunkStep::Done
            &&& done.inner == completed(inner, log, index_dimensionality)
            &&& done.next_label == apply_log(inner, log).next_label
        }),
{
    lemma_apply_prefix_grows(inner, log, 0, log.len());
    if log.len() == 0 {
        assert(inner.with_log(log) =~= inner);
    }
}

/// In a consistent map there are as many labels as ids.
pub proof fn lemma_consistent_sizes(m: IdMapView, bound: int)
    requires
        m.is_consistent(bound),
    ensures
        m.id_to_label.len() == m.label_to_id.len(),
        m.id_to_label.len() == m.id_to_seq_id.len(),
{
    let f = |id: Seq<char>| m.id_to_label[id];
    let ids = m.id_to_label.dom();
    let labels = m.label_to_id.dom();
    assert(ids.map(f) =~= labels) by {
        assert forall|label: u32| labels.contains(label) implies ids.map(f).contains(label) by {
            assert(m.label_to_id.contains_key(label));
            let id = m.label_to_id[label];
            assert(ids.contains(id) && f(id) == label);
        }
        assert forall|label: u32| ids.map(f).contains(label) implies labels.contains(label) by {
            let id = choose|id: Seq<char>| ids.contains(id) && f(id) == label;
            assert(m.id_to_label.contains_key(id));
        }
    }
    assert(vstd::relations::injective_on(f, ids)) by {
        assert forall|a: Seq<char>, b: Seq<char>|
            ids.contains(a) && ids.contains(b) && #[trigger] f(a) == #[trigger] f(b) implies a
            == b by {
            assert(m.id_to_label.contains_key(a) && m.id_to_label.contains_key(b));
        }
    }
    lemma_map_size(ids, labels, f);
}

/// Persisted maps are accepted exactly when they are consistent, have live ids, and agree with
/// the sequence id and the dimensionality they may carry.
pub proof fn law_acceptable_maps_are_the_consistent_ones(
    m: IdMapView,
    expected_dimensionality: usize,
)
    requires
        m.id_to_label.dom().finite(),
        m.label_to_id.dom().finite(),
        m.id_to_seq_id.dom().finite(),
    ensures
        m.is_acceptable(expected_dimensionality) <==> {
            &&& m.is_consistent(m.total_elements_added as int)
            &&& !m.is_vacant()
            &&& m.max_seq_id is Some ==> m.seq_ids_within(m.max_seq_id->0 as int)
            &&& m.dimensionality is Some ==> m.dimensionality == Some(expected_dimensionality)
            &&& 0 < expected_dimensionality <= i32::MAX
        },
{
    let total = m.total_elements_added as int;
    let ids = m.id_to_label.dom();
    let labels = m.label_to_id.dom();
    if m.is_acceptable(expected_dimensionality) {
        let f = |id: Seq<char>| m.id_to_label[id];
        assert forall|id: Seq<char>| #[trigger] m.id_to_label.contains_key(id) implies {
            let label = m.id_to_label[id];
            &&& 1 <= label <= total
            &&& m.label_to_id.contains_key(label)
            &&& m.label_to_id[label] == id
            &&& m.id_to_seq_id.contains_key(id)
        } by {
            assert(m.entry_defect(id) is None);
            assert(!m.has_label_above(total));
        }
        assert(vstd::relations::injective_on(f, ids)) by {
            assert forall|a: Seq<char>, b: Seq<char>|
                ids.contains(a) && ids.contains(b) && #[trigger] f(a) == #[trigger] f(b) implies a
                == b by {
                assert(m.id_to_label.contains_key(a) && m.id_to_label.contains_key(b));
            }
        }
        lemma_map_size(ids, ids.map(f), f);
        assert(ids.map(f).subset_of(labels)) by {
            assert forall|label: u32| ids.map(f).contains(label) implies labels.contains(label) by {
                let id = choose|id: Seq<char>| ids.contains(id) && f(id) == label;
                assert(m.id_to_label.contains_key(id));
            }
        }
        lemma_subset_equality(ids.map(f), labels);
        assert forall|label: u32| #[trigger] m.label_to_id.contains_key(label) implies {
            let id = m.label_to_id[label];
            &&& m.id_to_label.contains_key(id)
            &&& m.id_to_label[id] == label
        } by {
            assert(ids.map(f).contains(label));
            let id = choose|id: Seq<char>| ids.contains(id) && f(id) == label;
            assert(m.id_to_label.contains_key(id));
        }
        assert(ids.subset_of(m.id_to_seq_id.dom()));
        lemma_subset_equality(ids, m.id_to_seq_id.dom());
        assert(m.is_consistent(total));
        if m.max_seq_id is Some {
            assert forall|id: Seq<char>| #[trigger] m.id_to_seq_id.contains_key(
                id,
            ) implies m.id_to_seq_id[id] <= m.max_seq_id->0 by {
                assert(m.id_to_label.contains_key(id));
                assert(!m.has_seq_id_above(m.max_seq_id->0 as int));
            }
        }
    }
    if m.is_consistent(total) && !m.is_vacant() && (m.max_seq_id is Some ==> m.seq_ids_within(
        m.max_seq_id->0 as int,
    )) {
        lemma_consistent_sizes(m, total);
        assert(!ids.is_empty() && !labels.is_empty()) by {
            if ids.is_empty() {
                assert(ids =~= Set::empty());
                if !labels.is_empty() {
                    let label = labels.choose();
                    assert(m.label_to_id.contains_key(label));
                }
                assert(labels.is_empty());
                assert(m.is_vacant());
            } else {
                let id = ids.choose();
                assert(m.id_to_label.contains_key(id));
                assert(labels.contains(m.id_to_label[id]));
            }
        }
        assert(m.size_defect() is None);
        assert(m.entries_sound());
        assert(!m.has_label_above(total));
        if m.max_seq_id is Some {
            assert(!m.has_seq_id_above(m.max_seq_id->0 as int)) by {
                if m.has_seq_id_above(m.max_seq_id->0 as int) {
                    let id = choose|id: Seq<char>| #[trigger]
                        m.id_to_label.contains_key(id) && m.id_to_seq_id[id]
                            > m.max_seq_id->0 as int;
                    assert(m.id_to_seq_id.contains_key(id));
                }
            }
        }
    }
}

/// One record keeps the maps consistent.
proof fn lemma_step_keeps_consistency(c: ChunkView, last_seen: u64, r: LogRecordView, at: int)
    requires
        c.id_map.is_consistent(c.next_label - 1),
        c.next_label >= 1,
        c.step(last_seen, r, at).next_label <= u32::MAX,
    ensures
        c.step(last_seen, r, at).id_map.is_consistent(c.step(last_seen, r, at).next_label - 1),
        c.step(last_seen, r, at).next_label >= c.next_label,
{
    let after = c.step(last_seen, r, at);
    if c.failure is None && !r.is_seen(last_seen) {
        let m = c.id_map;
        let n = after.id_map;
        assert(n.id_to_seq_id.dom() =~= n.id_to_label.dom());
        match r.operation {
            Operation::Delete => {
                if c.knows(r.id) {
                    assert forall|label: u32| #[trigger] n.label_to_id.contains_key(label) implies {
                        let id = n.label_to_id[label];
                        &&& n.id_to_label.contains_key(id)
                        &&& n.id_to_label[id] == label
                    } by {
                        assert(m.label_to_id.contains_key(label));
                    }
                    assert forall|id: Seq<char>| #[trigger] n.id_to_label.contains_key(id) implies {
                        let label = n.id_to_label[id];
                        &&& 1 <= label <= after.next_label - 1
                        &&& n.label_to_id.contains_key(label)
                        &&& n.label_to_id[label] == id
                    } by {
                        assert(m.id_to_label.contains_key(id));
                        assert(m.id_to_label.contains_key(r.id));
                    }
                }
            },
            _ => {
                assert forall|label: u32| #[trigger] n.label_to_id.contains_key(label) implies {
                    let id = n.label_to_id[label];
                    &&& n.id_to_label.contains_key(id)
                    &&& n.id_to_label[id] == label
                } by {
                    if m.label_to_id.contains_key(label) {
                        assert(m.id_to_label.contains_key(m.label_to_id[label]));
                    }
                }
                assert forall|id: Seq<char>| #[trigger] n.id_to_label.contains_key(id) implies {
                    let label = n.id_to_label[id];
                    &&& 1 <= label <= after.next_label - 1
                    &&& n.label_to_id.contains_key(label)
                    &&& n.label_to_id[label] == id
                } by {
                    if m.id_to_label.contains_key(id) {
                        assert(m.label_to_id.contains_key(m.id_to_label[id]));
                    }
                }
            },
        }
    }
}

/// Applying a log keeps the maps consistent, record by record, failure or not: no label above
/// those given out is in use.
pub proof fn law_log_keeps_maps_consistent(inner: InnerView, log: Seq<LogRecordView>, n: nat)
    requires
        inner.id_map.is_consistent(inner.id_map.total_elements_added as int),
        n <= log.len(),
        apply_log(inner, log).next_label <= u32::MAX,
    ensures
        apply_prefix(inner, log, n).id_map.is_consistent(
            apply_prefix(inner, log, n).next_label - 1,
        ),
        apply_prefix(inner, log, n).next_label > inner.id_map.total_elements_added,
    decreases n,
{
    if n > 0 {
        law_log_keeps_maps_consistent(inner, log, (n - 1) as nat);
        lemma_apply_prefix_grows(inner, log, n, log.len());
        lemma_step_keeps_consistency(
            apply_prefix(inner, log, (n - 1) as nat),
            inner.last_seen_seq_id,
            log[n - 1],
            n - 1,
        );
    }
}

/// What a log leaves in the maps is no newer than the newest offset it brought, or than the
/// offset up to which it was applied before.
proof fn lemma_seq_ids_stay_within(inner: InnerView, log: Seq<LogRecordView>, n: nat)
    requires
        inner.id_map.seq_ids_within(inner.last_seen_seq_id as int),
        n <= log.len(),
    ensures
        ({
            let chunk = apply_prefix(inner, log, n);
            chunk.id_map.seq_ids_within(
                if chunk.max_seq_id > inner.last_seen_seq_id {
                    chunk.max_seq_id as int
                } else {
                    inner.last_seen_seq_id as int
                },
            )
        }),
    decreases n,
{
    if n > 0 {
        lemma_seq_ids_stay_within(inner, log, (n - 1) as nat);
        let before = apply_prefix(inner, log, (n - 1) as nat);
        let after = apply_prefix(inner, log, n);
        let bound = if after.max_seq_id > inner.last_seen_seq_id {
            after.max_seq_id as int
        } else {
            inner.last_seen_seq_id as int
        };
        assert forall|id: Seq<char>| #[trigger] after.id_map.id_to_seq_id.contains_key(
            id,
        ) implies after.id_map.id_to_seq_id[id] <= bound by {
            if before.id_map.id_to_seq_id.contains_key(id) {
                assert(before.id_map.id_to_seq_id[id] <= bound);
            }
        }
    }
}

/// A log that brings something new moves the applied offset forward, unless it fails.
pub proof fn lemma_max_seq_id_moves(inner: InnerView, log: Seq<LogRecordView>, n: nat, i: int)
    requires
        0 <= i < n <= log.len(),
        !log[i].is_seen(inner.last_seen_seq_id),
        inner.last_seen_seq_id <= i64::MAX,
        apply_prefix(inner, log, n).failure is None,
    ensures
        apply_prefix(inner, log, n).max_seq_id >= log[i].log_offset,
        apply_prefix(inner, log, n).max_seq_id > inner.last_seen_seq_id,
    decreases n,
{
    lemma_apply_prefix_grows(inner, log, (n - 1) as nat, n);
    if i < n - 1 {
        lemma_max_seq_id_moves(inner, log, (n - 1) as nat, i);
    }
}

/// Once a chunk that brings something new is applied to the end, the segment is sound again, and
/// the offset up to which the log was applied has moved forward.
pub proof fn law_completed_chunk_keeps_segment_sound(
    inner: InnerView,
    log: Seq<LogRecordView>,
    index_dimensionality: i32,
)
    requires
        inner.is_sound(),
        inner.last_seen_seq_id <= i64::MAX,
        log_fits(inner, log),
        apply_log(inner, log).failure is None,
        has_unseen(inner, log),
    ensures
        completed(inner, log, index_dimensionality).is_sound(),
        completed(inner, log, index_dimensionality).last_seen_seq_id > inner.last_seen_seq_id,
        completed(inner, log, index_dimensionality).id_map.total_elements_added
            >= inner.id_map.total_elements_added,
{
    let chunk = apply_log(inner, log);
    law_log_keeps_maps_consistent(inner, log, log.len());
    lemma_seq_ids_stay_within(inner, log, log.len());
    let i = choose|i: int|
        0 <= i < log.len() && !(#[trigger] log[i]).is_seen(inner.last_seen_seq_id);
    lemma_max_seq_id_moves(inner, log, log.len(), i);
    let after = completed(inner, log, index_dimensionality);
    assert(after.id_map.id_to_label == chunk.id_map.id_to_label);
    assert(after.id_map.label_to_id == chunk.id_map.label_to_id);
    assert(after.id_map.id_to_seq_id == chunk.id_map.id_to_seq_id);
    assert(chunk.id_map.seq_ids_within(after.last_seen_seq_id as int));
    assert(after.id_map.is_consistent(after.id_map.total_elements_added as int));
}

/// However a segment was opened, on disk or in memory, from metadata or afresh: once it is open,
/// it is sound.
pub proof fn law_opened_segment_is_sound(
    access: Access,
    configuration: HnswConfiguration,
    dimensionality: usize,
    persistent: bool,
    answers: SegmentAnswers,
    path: Seq<OpeningView>,
    end: Result<OpeningView, OpenFailure>,
)
    requires
        answers.metadata matches Some(metadata) ==> metadata.id_to_label.dom().finite()
            && metadata.label_to_id.dom().finite() && metadata.id_to_seq_id.dom().finite(),
        is_opening(
            OpeningView::start(access, configuration, dimensionality, persistent),
            answers,
            path,
            end,
        ),
    ensures
        end matches Ok(ready) ==> InnerView::opened(
            ready.id_map,
            ready.seq_id,
            ready.configuration.sync_threshold,
            ready.folder,
        ).is_sound(),
{
    let fresh = IdMapView::fresh();
    assert(fresh.id_to_seq_id.dom() =~= fresh.id_to_label.dom());
    if answers.metadata is Some {
        law_acceptable_maps_are_the_consistent_ones(answers.metadata->0, dimensionality);
    }
    if !persistent {
        assert(0 < path.len() - 1 ==> goes_on(path, answers, 0));
        assert(1 < path.len() - 1 ==> goes_on(path, answers, 1));
    } else {
        match access {
            Access::Read => law_reader_opens_sound_segments(
                configuration,
                dimensionality,
                answers,
                path,
                end,
            ),
            Access::Write => law_writer_opens_sound_or_new_segments(
                configuration,
                dimensionality,
                answers,
                path,
                end,
            ),
        }
    }
}

/// What a writer persists can be opened again: after a chunk that was persisted to the end, the
/// folder holds the written maps and the saved index and the database holds the recorded sequence
/// id. Whoever then opens the segment for the dimensionality of the index finds the segment as
/// the writer left it. If no id is live any more, a reader finds nothing and a writer starts
/// afresh.
///
/// Maps that carry the sequence id of older metadata must not have outgrown it: the writer keeps
/// that number, and maps with newer offsets are refused.
pub proof fn law_persisted_segment_reopens(
    inner: InnerView,
    log: Seq<LogRecordView>,
    index_dimensionality: i32,
    access: Access,
    configuration: HnswConfiguration,
    answers: SegmentAnswers,
    path: Seq<OpeningView>,
    end: Result<OpeningView, OpenFailure>,
)
    requires
        inner.is_sound(),
        inner.index_init,
        !inner.allow_reset,
        inner.last_seen_seq_id <= i64::MAX,
        inner.id_map.max_seq_id matches Some(m) ==> completed(
            inner,
            log,
            index_dimensionality,
        ).id_map.seq_ids_within(m as int),
        inner.persist_path is Some,
        index_dimensionality > 0,
        log_fits(inner, log),
        apply_log(inner, log).failure is None,
        has_unseen(inner, log),
        inner.with_log(log).is_persist_due(),
        configuration.sync_threshold == inner.sync_threshold,
        ({
            let after = completed(inner, log, index_dimensionality);
            answers == (SegmentAnswers {
                folder_exists: true,
                folder: after.persist_path,
                metadata: Some(after.id_map),
                index_loads: true,
                index_inits: true,
                seq_id: Some(after.last_seen_seq_id),
            })
        }),
        is_opening(
            OpeningView::start(access, configuration, index_dimensionality as usize, true),
            answers,
            path,
            end,
        ),
    ensures
        ({
            let after = completed(inner, log, index_dimensionality);
            if !after.id_map.is_vacant() {
                &&& end matches Ok(ready)
                &&& InnerView::opened(
                    ready.id_map,
                    ready.seq_id,
                    ready.configuration.sync_threshold,
                    ready.folder,
                ) == after
            } else {
                match access {
                    Access::Read => end == Err::<OpeningView, _>(
                        OpenFailure::UninitializedSegment,
                    ),
                    Access::Write => {
                        &&& end matches Ok(ready)
                        &&& ready.id_map == IdMapView::fresh()
                        &&& ready.seq_id == 0
                        &&& ready.folder == after.persist_path
                    },
                }
            }
        }),
{
    let after = completed(inner, log, index_dimensionality);
    let dimensionality = index_dimensionality as usize;
    law_completed_chunk_keeps_segment_sound(inner, log, index_dimensionality);
    lemma_other_fields_stay(inner, log, log.len());
    law_acceptable_maps_are_the_consistent_ones(after.id_map, dimensionality);
    match access {
        Access::Read => law_reader_opens_sound_segments(
            configuration,
            dimensionality,
            answers,
            path,
            end,
        ),
        Access::Write => law_writer_opens_sound_or_new_segments(
            configuration,
            dimensionality,
            answers,
            path,
            end,
        ),
    }
}

/// With consistent maps, looking up the label of an id and the id of that label leads back, and so
/// does the way from a label.
pub proof fn law_lookups_lead_back(inner: InnerView, id: Seq<char>, label: u32)
    requires
        inner.id_map.is_consistent(inner.id_map.total_elements_added as int),
    ensures
        inner.id_map.id_to_label.contains_key(id) ==> inner.id_map.label_to_id.contains_key(
            inner.id_map.id_to_label[id],
        ) && inner.id_map.label_to_id[inner.id_map.id_to_label[id]] == id,
        inner.id_map.label_to_id.contains_key(label) ==> inner.id_map.id_to_label.contains_key(
            inner.id_map.label_to_id[label],
        ) && inner.id_map.id_to_label[inner.id_map.label_to_id[label]] == label,
{
}

/// A log that was applied before changes no map, counts no record and asks nothing of the index.
pub proof fn law_seen_records_change_nothing(inner: InnerView, log: Seq<LogRecordView>, n: nat)
    requires
        n <= log.len(),
        !has_unseen(inner, log),
    ensures
        apply_prefix(inner, log, n) == ChunkView::start(inner),
    decreases n,
{
    if n > 0 {
        law_seen_records_change_nothing(inner, log, (n - 1) as nat);
        assert(log[n - 1].is_seen(inner.last_seen_seq_id));
    }
}

/// No label is given out twice: an id has, after a log, the label it had before, or one above all
/// those that had been given out.
pub proof fn law_new_labels_are_fresh(
    inner: InnerView,
    log: Seq<LogRecordView>,
    n: nat,
    id: Seq<char>,
)
    requires
        n <= log.len(),
        apply_log(inner, log).next_label <= u32::MAX,
        apply_prefix(inner, log, n).id_map.id_to_label.contains_key(id),
    ensures
        ({
            let label = apply_prefix(inner, log, n).id_map.id_to_label[id];
            ||| inner.id_map.id_to_label.contains_key(id) && inner.id_map.id_to_label[id] == label
            ||| inner.id_map.total_elements_added < label < apply_prefix(inner, log, n).next_label
        }),
    decreases n,
{
    if n > 0 {
        lemma_apply_prefix_grows(inner, log, 0, (n - 1) as nat);
        lemma_apply_prefix_grows(inner, log, (n - 1) as nat, n);
        lemma_apply_prefix_grows(inner, log, n, log.len());
        if apply_prefix(inner, log, (n - 1) as nat).id_map.id_to_label.contains_key(id) {
            law_new_labels_are_fresh(inner, log, (n - 1) as nat, id);
        }
    }
}

/// Records of other ids leave the label of an id and the offset of its last touch alone.
proof fn lemma_other_ids_stay(
    inner: InnerView,
    log: Seq<LogRecordView>,
    k: nat,
    n: nat,
    id: Seq<char>,
)
    requires
        k <= n <= log.len(),
        forall|j: int| k <= j < n ==> (#[trigger] log[j]).id != id,
    ensures
        ({
            let before = apply_prefix(inner, log, k).id_map;
            let after = apply_prefix(inner, log, n).id_map;
            &&& after.id_to_label.contains_key(id) == before.id_to_label.contains_key(id)
            &&& after.id_to_label[id] == before.id_to_label[id]
            &&& after.id_to_seq_id.contains_key(id) == before.id_to_seq_id.contains_key(id)
            &&& after.id_to_seq_id[id] == before.id_to_seq_id[id]
        }),
    decreases n,
{
    if k < n {
        lemma_other_ids_stay(inner, log, k, (n - 1) as nat, id);
        assert(log[n - 1].id != id);
    }
}

/// The last record of an id decides: after an add or an upsert the id has a label, after an
/// upsert it was last touched there, and after a delete it has none.
pub proof fn law_last_record_decides(inner: InnerView, log: Seq<LogRecordView>, i: int)
    requires
        0 <= i < log.len(),
        !log[i].is_seen(inner.last_seen_seq_id),
        apply_log(inner, log).failure is None,
        forall|j: int| i < j < log.len() ==> (#[trigger] log[j]).id != log[i].id,
    ensures
        ({
            let m = apply_log(inner, log).id_map;
            let r = log[i];
            &&& r.operation == Operation::Add || r.operation == Operation::Upsert
                ==> m.id_to_label.contains_key(r.id)
            &&& r.operation == Operation::Upsert ==> m.id_to_seq_id.contains_key(r.id)
                && m.id_to_seq_id[r.id] == r.log_offset
            &&& r.operation == Operation::Delete ==> !m.id_to_label.contains_key(r.id)
        }),
{
    let at = i as nat;
    lemma_apply_prefix_grows(inner, log, at, log.len());
    lemma_apply_prefix_grows(inner, log, at + 1, log.len());
    lemma_other_ids_stay(inner, log, at + 1, log.len(), log[i].id);
    let before = apply_prefix(inner, log, at);
    let after = apply_prefix(inner, log, at + 1);
    assert(after == before.counted(log[i]).taken(log[i], i));
}

/// The index holds a label, given that it did or did not before and took up these records of it
/// in order: a delete takes the label out, any other record puts it in.
pub open spec fn index_holds(held: bool, records: Seq<usize>, log: Seq<LogRecordView>) -> bool {
    if records.len() == 0 {
        held
    } else {
        log[records.last() as int].operation != Operation::Delete
    }
}

/// An index that held just the live labels holds just the live labels again once it has taken up
/// the work of a log, each label for itself.
pub proof fn law_index_follows_maps(inner: InnerView, log: Seq<LogRecordView>, n: nat, label: u32)
    requires
        inner.id_map.is_consistent(inner.id_map.total_elements_added as int),
        n <= log.len() <= usize::MAX,
        apply_log(inner, log).next_label <= u32::MAX,
    ensures
        index_holds(
            inner.id_map.label_to_id.contains_key(label),
            records_of(apply_prefix(inner, log, n).work, label),
            log,
        ) == apply_prefix(inner, log, n).id_map.label_to_id.contains_key(label),
    decreases n,
{
    if n > 0 {
        let before = apply_prefix(inner, log, (n - 1) as nat);
        let after = apply_prefix(inner, log, n);
        law_index_follows_maps(inner, log, (n - 1) as nat, label);
        law_log_keeps_maps_consistent(inner, log, (n - 1) as nat);
        lemma_apply_prefix_grows(inner, log, n, log.len());
        if after.work != before.work {
            assert(after.work.drop_last() =~= before.work);
            assert(after.work.last().record == n - 1);
            if before.knows(log[n - 1].id) {
                assert(before.id_map.id_to_label.contains_key(log[n - 1].id));
            }
        }
    }
}

/// Where a chunk ends does not matter: applying a log in two chunks leaves the same labels, the
/// same ids and the same offsets as applying it in one, as long as the second part lies beyond
/// the first.
pub proof fn law_chunk_boundaries_do_not_matter(
    inner: InnerView,
    first: Seq<LogRecordView>,
    second: Seq<LogRecordView>,
    index_dimensionality: i32,
    n: nat,
)
    requires
        first.len() > 0,
        n <= second.len(),
        log_fits(inner, first + second),
        apply_log(inner, first).failure is None,
        apply_log(inner, first).max_seq_id <= i64::MAX,
        forall|i: int|
            0 <= i < second.len() ==> !(#[trigger] second[i]).is_seen(inner.last_seen_seq_id)
                && second[i].log_offset > apply_log(inner, first).max_seq_id,
    ensures
        ({
            let halfway = completed(inner, first, index_dimensionality);
            let whole = apply_prefix(inner, first + second, first.len() + n);
            let rest = apply_prefix(halfway, second, n);
            &&& whole.id_map.id_to_label == rest.id_map.id_to_label
            &&& whole.id_map.label_to_id == rest.id_map.label_to_id
            &&& whole.id_map.id_to_seq_id == rest.id_map.id_to_seq_id
            &&& whole.next_label == rest.next_label
            &&& whole.failure == rest.failure
        }),
    decreases n,
{
    let all = first + second;
    let halfway = completed(inner, first, index_dimensionality);
    if n == 0 {
        lemma_same_prefix(inner, first, all, first.len());
        lemma_apply_prefix_grows(inner, all, 0, first.len());
        lemma_apply_prefix_grows(inner, all, first.len(), all.len());
    } else {
        law_chunk_boundaries_do_not_matter(
            inner,
            first,
            second,
            index_dimensionality,
            (n - 1) as nat,
        );
        assert(all[first.len() + n - 1] == second[n - 1]);
        assert(!second[n - 1].is_seen(inner.last_seen_seq_id));
        assert(halfway.last_seen_seq_id == apply_log(inner, first).max_seq_id);
        assert(!second[n - 1].is_seen(halfway.last_seen_seq_id));
    }
}

} // verus!
