//! Which embeddings an index holds once it has taken up a chunk: what was written last is what a
//! read finds.
use crate::batch::{is_grouping, records_of, LabelGroup};
use crate::laws::law_log_keeps_maps_consistent;
use crate::log::{
    apply_log, apply_prefix, lemma_apply_prefix_grows, log_view, IndexWork, LogRecord,
    LogRecordView, Operation,
};
use crate::segment::InnerView;
use crate::writer::{batch_is_sound, group_is_sound, planned_call, IndexCall};
use vstd::prelude::*;

verus! {

/// The embedding that the index holds for a label, given the one it held before, once it has done
/// a call.
pub open spec fn embedding_after<E>(
    held: Option<E>,
    label: usize,
    call: IndexCall<E>,
) -> Option<E> {
    match call {
        IndexCall::Put(at, embedding) => if at == label {
            Some(*embedding)
        } else {
            held
        },
        IndexCall::Remove(at) => if at == label {
            None
        } else {
            held
        },
    }
}

/// The embedding that the index holds for a label, given the one it held before, once it has done
/// the first `n` calls of a group, one after the other.
pub open spec fn embedding_after_calls<E>(
    held: Option<E>,
    label: usize,
    group: LabelGroup,
    chunk: Seq<LogRecord<E>>,
    n: nat,
) -> Option<E>
    decreases n,
{
    if n == 0 {
        held
    } else {
        embedding_after(
            embedding_after_calls(held, label, group, chunk, (n - 1) as nat),
            label,
            planned_call(group, chunk, n - 1),
        )
    }
}

/// The embedding of a label, given the one it had before, by the last of the records that speak
/// of it: a delete leaves none, any other record leaves its own.
pub open spec fn index_embedding<E>(
    held: Option<E>,
    records: Seq<usize>,
    chunk: Seq<LogRecord<E>>,
) -> Option<E> {
    if records.len() == 0 {
        held
    } else {
        let record = chunk[records.last() as int].record;
        if record.operation == Operation::Delete {
            None
        } else {
            record.embedding
        }
    }
}

/// A group leaves every label but its own alone.
proof fn lemma_other_labels_stay<E>(
    held: Option<E>,
    label: usize,
    group: LabelGroup,
    chunk: Seq<LogRecord<E>>,
    n: nat,
)
    requires
        label != group.label as usize,
    ensures
        embedding_after_calls(held, label, group, chunk, n) == held,
    decreases n,
{
    if n > 0 {
        lemma_other_labels_stay(held, label, group, chunk, (n - 1) as nat);
    }
}

/// Once the index has done all calls of a group of a batch, it holds for the label of the group
/// what the last record of the work says about that label, and for any other label what it held.
pub proof fn law_calls_leave_last_embedding<E>(
    batch: Seq<LabelGroup>,
    work: Seq<IndexWork>,
    chunk: Seq<LogRecord<E>>,
    i: int,
    label: u32,
    held: Option<E>,
)
    requires
        is_grouping(batch, work),
        batch_is_sound(batch, chunk),
        0 <= i < batch.len(),
    ensures
        embedding_after_calls(held, label as usize, batch[i], chunk, batch[i].records@.len()) == (
        if label == batch[i].label {
            index_embedding(held, records_of(work, label), chunk)
        } else {
            held
        }),
{
    let group = batch[i];
    assert(group_is_sound(group, chunk));
    if label == group.label {
        let records = group.records@;
        assert(records.last() == group.records@[records.len() - 1]);
    } else {
        lemma_other_labels_stay(held, label as usize, group, chunk, group.records@.len());
    }
}

/// The record at place `i` of a log reaches the index: it is new, comes before any failure, and
/// is a delete, an update with an embedding, or an upsert or add that can be applied; deletes and
/// updates speak of an id that has a label, adds of one that has none.
pub open spec fn reaches_index(inner: InnerView, log: Seq<LogRecordView>, i: int) -> bool {
    let before = apply_prefix(inner, log, i as nat);
    let r = log[i];
    &&& before.failure is None
    &&& !r.is_seen(inner.last_seen_seq_id)
    &&& match r.operation {
        Operation::Add => !before.knows(r.id) && r.has_embedding && r.is_persistable(),
        Operation::Update => before.knows(r.id) && r.has_embedding && r.is_persistable(),
        Operation::Upsert => r.has_embedding && r.is_persistable(),
        Operation::Delete => before.knows(r.id),
        Operation::BackfillFn => false,
    }
}

/// The record at place `i` reaches the index, and no later record of its id does.
pub open spec fn is_last_to_reach_index(
    inner: InnerView,
    log: Seq<LogRecordView>,
    i: int,
) -> bool {
    &&& 0 <= i < log.len()
    &&& reaches_index(inner, log, i)
    &&& forall|j: int|
        i < j < log.len() && (#[trigger] log[j]).id == log[i].id ==> !reaches_index(inner, log, j)
}

/// Up to any later place, the id that record `i` put in keeps its label, and record `i` stays the
/// last that the index takes up for that label.
proof fn lemma_put_stays(
    inner: InnerView,
    log: Seq<LogRecordView>,
    i: int,
    n: nat,
    label: u32,
)
    requires
        inner.id_map.is_consistent(inner.id_map.total_elements_added as int),
        log.len() <= usize::MAX,
        apply_log(inner, log).next_label <= u32::MAX,
        is_last_to_reach_index(inner, log, i),
        log[i].operation != Operation::Delete,
        i < n <= log.len(),
        label == apply_prefix(inner, log, (i + 1) as nat).id_map.id_to_label[log[i].id],
    ensures
        ({
            let chunk = apply_prefix(inner, log, n);
            &&& chunk.knows(log[i].id)
            &&& chunk.id_map.id_to_label[log[i].id] == label
            &&& records_of(chunk.work, label).len() > 0
            &&& records_of(chunk.work, label).last() == i
        }),
    decreases n,
{
    let before = apply_prefix(inner, log, (n - 1) as nat);
    let after = apply_prefix(inner, log, n);
    let r = log[n - 1];
    lemma_apply_prefix_grows(inner, log, n, log.len());
    law_log_keeps_maps_consistent(inner, log, (n - 1) as nat);
    if n == i + 1 {
        assert(after.work.drop_last() =~= before.work);
        assert(after.work.last().record == i && after.work.last().label == label);
    } else {
        lemma_put_stays(inner, log, i, (n - 1) as nat, label);
        assert(before.id_map.id_to_label.contains_key(log[i].id));
        if r.id == log[i].id {
            assert(!reaches_index(inner, log, n - 1));
            assert(after.work == before.work);
        } else if after.work != before.work {
            assert(after.work.drop_last() =~= before.work);
            if before.knows(r.id) {
                assert(before.id_map.id_to_label.contains_key(r.id));
            }
            assert(after.work.last().label != label);
        }
    }
}

/// Up to any later place, the id that record `i` took out has no label, its former label is given
/// to no id, and record `i` stays the last that the index takes up for that label.
proof fn lemma_removal_stays(
    inner: InnerView,
    log: Seq<LogRecordView>,
    i: int,
    n: nat,
    label: u32,
)
    requires
        inner.id_map.is_consistent(inner.id_map.total_elements_added as int),
        log.len() <= usize::MAX,
        apply_log(inner, log).next_label <= u32::MAX,
        is_last_to_reach_index(inner, log, i),
        log[i].operation == Operation::Delete,
        i < n <= log.len(),
        label == apply_prefix(inner, log, i as nat).id_map.id_to_label[log[i].id],
    ensures
        ({
            let chunk = apply_prefix(inner, log, n);
            &&& !chunk.knows(log[i].id)
            &&& !chunk.id_map.label_to_id.contains_key(label)
            &&& label < chunk.next_label
            &&& records_of(chunk.work, label).len() > 0
            &&& records_of(chunk.work, label).last() == i
        }),
    decreases n,
{
    let before = apply_prefix(inner, log, (n - 1) as nat);
    let after = apply_prefix(inner, log, n);
    let r = log[n - 1];
    lemma_apply_prefix_grows(inner, log, n, log.len());
    law_log_keeps_maps_consistent(inner, log, (n - 1) as nat);
    if n == i + 1 {
        assert(before.id_map.id_to_label.contains_key(r.id));
        assert(after.work.drop_last() =~= before.work);
        assert(after.work.last().record == i && after.work.last().label == label);
    } else {
        lemma_removal_stays(inner, log, i, (n - 1) as nat, label);
        if before.knows(r.id) {
            assert(before.id_map.id_to_label.contains_key(r.id));
        }
        if r.id == log[i].id {
            assert(!reaches_index(inner, log, n - 1));
            assert(after.work == before.work);
        } else if after.work != before.work {
            assert(after.work.drop_last() =~= before.work);
            assert(after.work.last().label != label);
        }
    }
}

/// What was written last is held: if record `i` is the last of its id to reach the index and does
/// not delete the id, the id has a label, and the embedding that the index holds for that label
/// is the one of record `i`, whatever it held before.
pub proof fn law_last_embedding_is_held<E>(
    inner: InnerView,
    chunk: Seq<LogRecord<E>>,
    i: int,
    held: Option<E>,
)
    requires
        inner.id_map.is_consistent(inner.id_map.total_elements_added as int),
        chunk.len() <= usize::MAX,
        apply_log(inner, log_view(chunk)).next_label <= u32::MAX,
        is_last_to_reach_index(inner, log_view(chunk), i),
        chunk[i].record.operation != Operation::Delete,
    ensures
        ({
            let applied = apply_log(inner, log_view(chunk));
            let id = chunk[i].record.id@;
            &&& applied.id_map.id_to_label.contains_key(id)
            &&& chunk[i].record.embedding is Some
            &&& index_embedding(
                held,
                records_of(applied.work, applied.id_map.id_to_label[id]),
                chunk,
            ) == chunk[i].record.embedding
        }),
{
    let log = log_view(chunk);
    assert(log[i] == chunk[i]@);
    let label = apply_prefix(inner, log, (i + 1) as nat).id_map.id_to_label[log[i].id];
    lemma_put_stays(inner, log, i, log.len(), label);
}

/// What was deleted last is gone: if record `i` is the last of its id to reach the index and
/// deletes the id, the id has no label, and the index holds nothing for the label it had.
pub proof fn law_deleted_embedding_is_gone<E>(
    inner: InnerView,
    chunk: Seq<LogRecord<E>>,
    i: int,
    held: Option<E>,
)
    requires
        inner.id_map.is_consistent(inner.id_map.total_elements_added as int),
        chunk.len() <= usize::MAX,
        apply_log(inner, log_view(chunk)).next_label <= u32::MAX,
        is_last_to_reach_index(inner, log_view(chunk), i),
        chunk[i].record.operation == Operation::Delete,
    ensures
        ({
            let applied = apply_log(inner, log_view(chunk));
            let id = chunk[i].record.id@;
            let label = apply_prefix(inner, log_view(chunk), i as nat).id_map.id_to_label[id];
            &&& !applied.id_map.id_to_label.contains_key(id)
            &&& !applied.id_map.label_to_id.contains_key(label)
            &&& index_embedding(held, records_of(applied.work, label), chunk) is None
        }),
{
    let log = log_view(chunk);
    assert(log[i] == chunk[i]@);
    let label = apply_prefix(inner, log, i as nat).id_map.id_to_label[log[i].id];
    lemma_removal_stays(inner, log, i, log.len(), label);
}

/// Records that do not touch an id leave its embedding alone: if no record of an id that had a
/// label reaches the index, the id keeps its label and the index keeps what it held for it.
pub proof fn law_untouched_embedding_stays<E>(
    inner: InnerView,
    chunk: Seq<LogRecord<E>>,
    id: Seq<char>,
    n: nat,
    held: Option<E>,
)
    requires
        inner.id_map.is_consistent(inner.id_map.total_elements_added as int),
        n <= chunk.len() <= usize::MAX,
        apply_log(inner, log_view(chunk)).next_label <= u32::MAX,
        inner.id_map.id_to_label.contains_key(id),
        forall|j: int|
            0 <= j < chunk.len() && (#[trigger] log_view(chunk)[j]).id == id ==> !reaches_index(
                inner,
                log_view(chunk),
                j,
            ),
    ensures
        ({
            let applied = apply_prefix(inner, log_view(chunk), n);
            let label = inner.id_map.id_to_label[id];
            &&& applied.id_map.id_to_label.contains_key(id)
            &&& applied.id_map.id_to_label[id] == label
            &&& records_of(applied.work, label).len() == 0
            &&& index_embedding(held, records_of(applied.work, label), chunk) == held
        }),
    decreases n,
{
    let log = log_view(chunk);
    let label = inner.id_map.id_to_label[id];
    if n > 0 {
        let before = apply_prefix(inner, log, (n - 1) as nat);
        let after = apply_prefix(inner, log, n);
        let r = log[n - 1];
        law_untouched_embedding_stays(inner, chunk, id, (n - 1) as nat, held);
        lemma_apply_prefix_grows(inner, log, n, log.len());
        law_log_keeps_maps_consistent(inner, log, (n - 1) as nat);
        assert(before.id_map.id_to_label.contains_key(id));
        if r.id == id {
            assert(!reaches_index(inner, log, n - 1));
            assert(after.work == before.work);
        } else if after.work != before.work {
            assert(after.work.drop_last() =~= before.work);
            if before.knows(r.id) {
                assert(before.id_map.id_to_label.contains_key(r.id));
            }
            assert(after.work.last().label != label);
        }
    }
}

} // verus!
