//! What each record of a log does to a segment, told by offsets, maps and counters, and what a
//! whole log comes to.
use crate::id_map::IdMapView;
use crate::log::{
    apply_log, apply_prefix, has_unseen, lemma_apply_prefix_grows, lemma_labels_bounded,
    lemma_same_prefix, log_fits, updated_seq_id, ChunkFailure, ChunkView, IndexWork,
    LogRecordView, Operation,
};
use crate::segment::InnerView;
use vstd::prelude::*;

verus! {

/// The number that 64 bits stand for when they are read as signed.
pub open spec fn read_signed(bits: u64) -> int {
    if bits <= 0x7fff_ffff_ffff_ffff {
        bits as int
    } else {
        bits - 0x1_0000_0000_0000_0000
    }
}

/// The number that 64 bits stand for when they are read as unsigned, given that they stand for
/// `number` when read as signed.
pub open spec fn read_unsigned(number: i64) -> int {
    if number >= 0 {
        number as int
    } else {
        number + 0x1_0000_0000_0000_0000
    }
}

/// The record lies beyond the offset up to which the segment takes the log as applied.
pub open spec fn is_new(inner: InnerView, r: LogRecordView) -> bool {
    r.log_offset > read_signed(inner.last_seen_seq_id)
}

/// A record was seen exactly if its offset is at most the one up to which the log was applied.
pub proof fn law_seen_is_told_by_offset(inner: InnerView, r: LogRecordView)
    ensures
        r.is_seen(inner.last_seen_seq_id) <==> !is_new(inner, r),
        inner.last_seen_seq_id <= i64::MAX ==> (r.is_seen(inner.last_seen_seq_id) <==> r.log_offset
            <= inner.last_seen_seq_id),
{
    lemma_signed(inner.last_seen_seq_id);
}

proof fn lemma_signed(bits: u64)
    ensures
        bits as i64 == read_signed(bits),
{
    assert(bits <= 0x7fff_ffff_ffff_ffff ==> (bits as i64) as i128 == bits as i128)
        by (bit_vector);
    assert(bits > 0x7fff_ffff_ffff_ffff ==> (bits as i64) as i128 == (bits as i128)
        - 0x1_0000_0000_0000_0000i128) by (bit_vector);
}

proof fn lemma_unsigned(number: i64)
    ensures
        number as u64 == read_unsigned(number),
{
    assert(number >= 0 ==> (number as u64) as i128 == number as i128) by (bit_vector);
    assert(number < 0 ==> (number as u64) as i128 == (number as i128)
        + 0x1_0000_0000_0000_0000i128) by (bit_vector);
}

/// The maps are the same but for `id`, which now has the label `label`, leads back from it, and was
/// last touched at `offset`.
pub open spec fn puts_in(
    before: IdMapView,
    after: IdMapView,
    id: Seq<char>,
    label: int,
    offset: int,
) -> bool {
    &&& forall|other: Seq<char>| #[trigger]
        after.id_to_label.contains_key(other) <==> other == id || before.id_to_label.contains_key(
            other,
        )
    &&& forall|other: Seq<char>|
        other != id && before.id_to_label.contains_key(other)
            ==> #[trigger] after.id_to_label[other] == before.id_to_label[other]
    &&& after.id_to_label[id] == label
    &&& forall|other: u32| #[trigger]
        after.label_to_id.contains_key(other) <==> other == label
            || before.label_to_id.contains_key(other)
    &&& forall|other: u32|
        other != label && before.label_to_id.contains_key(other)
            ==> #[trigger] after.label_to_id[other] == before.label_to_id[other]
    &&& after.label_to_id[after.id_to_label[id]] == id
    &&& touches(before, after, id, offset)
}

/// The offsets of last touches are the same but for that of `id`, which is `offset`.
pub open spec fn touches(
    before: IdMapView,
    after: IdMapView,
    id: Seq<char>,
    offset: int,
) -> bool {
    &&& forall|other: Seq<char>| #[trigger]
        after.id_to_seq_id.contains_key(other) <==> other == id
            || before.id_to_seq_id.contains_key(other)
    &&& forall|other: Seq<char>|
        other != id && before.id_to_seq_id.contains_key(other)
            ==> #[trigger] after.id_to_seq_id[other] == before.id_to_seq_id[other]
    &&& after.id_to_seq_id[id] == offset
}

/// The maps are the same but for `id` and the label it had, which are gone from all of them.
pub open spec fn takes_out(before: IdMapView, after: IdMapView, id: Seq<char>) -> bool {
    let label = before.id_to_label[id];
    &&& forall|other: Seq<char>| #[trigger]
        after.id_to_label.contains_key(other) <==> other != id
            && before.id_to_label.contains_key(other)
    &&& forall|other: Seq<char>|
        other != id && before.id_to_label.contains_key(other)
            ==> #[trigger] after.id_to_label[other] == before.id_to_label[other]
    &&& forall|other: u32| #[trigger]
        after.label_to_id.contains_key(other) <==> other != label
            && before.label_to_id.contains_key(other)
    &&& forall|other: u32|
        other != label && before.label_to_id.contains_key(other)
            ==> #[trigger] after.label_to_id[other] == before.label_to_id[other]
    &&& forall|other: Seq<char>| #[trigger]
        after.id_to_seq_id.contains_key(other) <==> other != id
            && before.id_to_seq_id.contains_key(other)
    &&& forall|other: Seq<char>|
        other != id && before.id_to_seq_id.contains_key(other)
            ==> #[trigger] after.id_to_seq_id[other] == before.id_to_seq_id[other]
}

/// The index is to take up one more record than before: the one at place `at`, for `label`.
pub open spec fn hands_on(
    before: Seq<IndexWork>,
    after: Seq<IndexWork>,
    label: int,
    at: int,
) -> bool {
    &&& after.len() == before.len() + 1
    &&& forall|j: int| 0 <= j < before.len() ==> #[trigger] after[j] == before[j]
    &&& after[before.len() as int].label == label
    &&& after[before.len() as int].record == at
}

/// The record changed no map, used up no label and asks nothing of the index.
pub open spec fn passes_by(before: ChunkView, after: ChunkView) -> bool {
    &&& after.id_map == before.id_map
    &&& after.next_label == before.next_label
    &&& after.work == before.work
}

/// What the record at place `i` does. Seen records do nothing. Any other counts as one and may
/// raise the greatest offset; beyond that,
/// - a backfill does nothing;
/// - an add of an id that has a label does nothing, any other gives its id the next label;
/// - an update of an id without a label, or without an embedding, does nothing, any other touches
///   its id;
/// - an upsert touches its id, which keeps its label or gets the next one;
/// - a delete takes its id out, if it has a label;
///
/// and whatever is to be put in needs an embedding and an offset of 32 bits: without the one or the
/// other, in this order, the chunk fails and nothing but the count changes.
pub proof fn law_record_takes_effect(inner: InnerView, log: Seq<LogRecordView>, i: int)
    requires
        0 <= i < log.len() <= usize::MAX,
        apply_prefix(inner, log, i as nat).failure is None,
        apply_prefix(inner, log, i as nat).next_label <= u32::MAX,
        inner.id_map.total_elements_added < u32::MAX,
    ensures
        ({
            let before = apply_prefix(inner, log, i as nat);
            let after = apply_prefix(inner, log, (i + 1) as nat);
            let r = log[i];
            let known = before.id_map.id_to_label.contains_key(r.id);
            let label = before.id_map.id_to_label[r.id];
            let offset = r.log_offset as int;
            if !is_new(inner, r) {
                after == before
            } else {
                &&& after.elements == before.elements + 1
                &&& after.max_seq_id == (if read_unsigned(r.log_offset) > before.max_seq_id {
                    read_unsigned(r.log_offset)
                } else {
                    before.max_seq_id as int
                })
                &&& after.id_map.dimensionality == before.id_map.dimensionality
                &&& after.id_map.total_elements_added == before.id_map.total_elements_added
                &&& after.id_map.max_seq_id == before.id_map.max_seq_id
                &&& match r.operation {
                    Operation::BackfillFn => passes_by(before, after) && after.failure is None,
                    Operation::Add => if known {
                        passes_by(before, after) && after.failure is None
                    } else if !r.has_embedding {
                        passes_by(before, after) && after.failure
                            == Some(ChunkFailure::EmbeddingNotFound)
                    } else if offset < 0 || offset > 4294967295 {
                        passes_by(before, after) && after.failure
                            == Some(ChunkFailure::InvalidLogOffset(r.log_offset))
                    } else {
                        &&& puts_in(before.id_map, after.id_map, r.id, before.next_label, offset)
                        &&& hands_on(before.work, after.work, before.next_label, i)
                        &&& after.next_label == before.next_label + 1
                        &&& after.failure is None
                    },
                    Operation::Update => if !known || !r.has_embedding {
                        passes_by(before, after) && after.failure is None
                    } else if offset < 0 || offset > 4294967295 {
                        passes_by(before, after) && after.failure
                            == Some(ChunkFailure::InvalidLogOffset(r.log_offset))
                    } else {
                        &&& touches(before.id_map, after.id_map, r.id, offset)
                        &&& after.id_map.id_to_label == before.id_map.id_to_label
                        &&& after.id_map.label_to_id == before.id_map.label_to_id
                        &&& hands_on(before.work, after.work, label as int, i)
                        &&& after.next_label == before.next_label
                        &&& after.failure is None
                    },
                    Operation::Upsert => if !r.has_embedding {
                        passes_by(before, after) && after.failure
                            == Some(ChunkFailure::EmbeddingNotFound)
                    } else if offset < 0 || offset > 4294967295 {
                        passes_by(before, after) && after.failure
                            == Some(ChunkFailure::InvalidLogOffset(r.log_offset))
                    } else if known {
                        &&& puts_in(before.id_map, after.id_map, r.id, label as int, offset)
                        &&& hands_on(before.work, after.work, label as int, i)
                        &&& after.next_label == before.next_label
                        &&& after.failure is None
                    } else {
                        &&& puts_in(before.id_map, after.id_map, r.id, before.next_label, offset)
                        &&& hands_on(before.work, after.work, before.next_label, i)
                        &&& after.next_label == before.next_label + 1
                        &&& after.failure is None
                    },
                    Operation::Delete => if !known {
                        passes_by(before, after) && after.failure is None
                    } else {
                        &&& takes_out(before.id_map, after.id_map, r.id)
                        &&& hands_on(before.work, after.work, label as int, i)
                        &&& after.next_label == before.next_label
                        &&& after.failure is None
                    },
                }
            }
        }),
{
    law_seen_is_told_by_offset(inner, log[i]);
    lemma_unsigned(log[i].log_offset);
    lemma_apply_prefix_grows(inner, log, 0, i as nat);
}

/// A log starts from the maps and the count of the segment and from the label after its total, and
/// stops at the record that fails, if there is one: the records after it do nothing.
pub proof fn law_log_runs_from_first_record_to_failure(
    inner: InnerView,
    log: Seq<LogRecordView>,
    n: nat,
)
    requires
        n <= log.len(),
    ensures
        apply_prefix(inner, log, 0).id_map == inner.id_map,
        apply_prefix(inner, log, 0).next_label == inner.id_map.total_elements_added + 1,
        apply_prefix(inner, log, 0).elements == inner.num_elements_since_last_persist,
        apply_prefix(inner, log, 0).max_seq_id == 0,
        apply_prefix(inner, log, 0).work.len() == 0,
        apply_prefix(inner, log, 0).failure is None,
        apply_log(inner, log) == apply_prefix(inner, log, log.len()),
        apply_prefix(inner, log, n).failure is Some ==> apply_log(inner, log) == apply_prefix(
            inner,
            log,
            n,
        ),
        apply_log(inner, log).failure is None ==> apply_prefix(inner, log, n).failure is None,
{
    lemma_apply_prefix_grows(inner, log, n, log.len());
}

/// The records of a log that lie beyond the offset up to which it was applied.
pub open spec fn new_records(inner: InnerView, log: Seq<LogRecordView>) -> Seq<LogRecordView> {
    log.filter(|r: LogRecordView| is_new(inner, r))
}

/// A log that is applied to the end raises the count of records since the segment was last
/// persisted by the number of its new records, whatever they ask for.
pub proof fn law_new_records_are_counted(inner: InnerView, log: Seq<LogRecordView>)
    requires
        apply_log(inner, log).failure is None,
    ensures
        apply_log(inner, log).elements == inner.num_elements_since_last_persist + new_records(
            inner,
            log,
        ).len(),
        new_records(inner, log).len() > 0 <==> has_unseen(inner, log),
        new_records(inner, log).len() <= log.len(),
    decreases log.len(),
{
    reveal(Seq::filter);
    if log.len() > 0 {
        let earlier = log.drop_last();
        let n = earlier.len();
        lemma_same_prefix(inner, earlier, log, n);
        lemma_apply_prefix_grows(inner, log, n, log.len());
        law_new_records_are_counted(inner, earlier);
        law_seen_is_told_by_offset(inner, log.last());
        if has_unseen(inner, earlier) {
            let j = choose|j: int|
                0 <= j < n && !(#[trigger] earlier[j]).is_seen(inner.last_seen_seq_id);
            assert(!log[j].is_seen(inner.last_seen_seq_id));
        }
        if is_new(inner, log.last()) {
            assert(!log[n as int].is_seen(inner.last_seen_seq_id));
        } else if has_unseen(inner, log) {
            let j = choose|j: int|
                0 <= j < log.len() && !(#[trigger] log[j]).is_seen(inner.last_seen_seq_id);
            assert(!earlier[j].is_seen(inner.last_seen_seq_id));
        }
    }
}

/// A chunk fails only for a cause in its records: where every add and every upsert carries an
/// embedding and every offset is one of 32 bits, it does not fail.
pub proof fn law_complete_records_do_not_fail(inner: InnerView, log: Seq<LogRecordView>)
    requires
        forall|i: int|
            #![trigger log[i]]
            0 <= i < log.len() ==> {
                &&& 0 <= log[i].log_offset <= 4294967295
                &&& log[i].operation == Operation::Add || log[i].operation == Operation::Upsert
                    ==> log[i].has_embedding
            },
    ensures
        apply_log(inner, log).failure is None,
{
    lemma_complete_records_do_not_fail(inner, log, log.len());
}

proof fn lemma_complete_records_do_not_fail(inner: InnerView, log: Seq<LogRecordView>, n: nat)
    requires
        n <= log.len(),
        forall|i: int|
            #![trigger log[i]]
            0 <= i < log.len() ==> {
                &&& 0 <= log[i].log_offset <= 4294967295
                &&& log[i].operation == Operation::Add || log[i].operation == Operation::Upsert
                    ==> log[i].has_embedding
            },
    ensures
        apply_prefix(inner, log, n).failure is None,
    decreases n,
{
    if n > 0 {
        lemma_complete_records_do_not_fail(inner, log, (n - 1) as nat);
        assert(0 <= log[n - 1].log_offset <= 4294967295);
    }
}

/// The record at place `i` cannot be applied, for this cause: it is new, and would put in an
/// embedding that it lacks, or an offset that has more than 32 bits.
pub open spec fn is_cause(
    inner: InnerView,
    log: Seq<LogRecordView>,
    i: int,
    failure: ChunkFailure,
) -> bool {
    let r = log[i];
    let known = apply_prefix(inner, log, i as nat).id_map.id_to_label.contains_key(r.id);
    &&& is_new(inner, r)
    &&& match failure {
        ChunkFailure::EmbeddingNotFound => !r.has_embedding && (r.operation == Operation::Upsert
            || r.operation == Operation::Add && !known),
        ChunkFailure::InvalidLogOffset(offset) => {
            &&& offset == r.log_offset
            &&& !(0 <= offset <= 4294967295)
            &&& r.has_embedding
            &&& r.operation == Operation::Upsert || (r.operation == Operation::Add && !known) || (
            r.operation == Operation::Update && known)
        },
    }
}

/// A chunk that fails names what is wrong with its first record that cannot be applied, and leaves
/// the maps, the labels and the work as the records before it left them.
pub proof fn law_failure_names_its_cause(inner: InnerView, log: Seq<LogRecordView>, n: nat) -> (at:
    int)
    requires
        n <= log.len(),
        apply_prefix(inner, log, n).failure is Some,
    ensures
        0 <= at < n,
        is_cause(inner, log, at, apply_prefix(inner, log, n).failure->0),
        apply_prefix(inner, log, at as nat).failure is None,
        passes_by(apply_prefix(inner, log, at as nat), apply_prefix(inner, log, n)),
        apply_prefix(inner, log, n).elements == apply_prefix(inner, log, at as nat).elements + 1,
    decreases n,
{
    let earlier = (n - 1) as nat;
    if apply_prefix(inner, log, earlier).failure is Some {
        law_failure_names_its_cause(inner, log, earlier)
    } else {
        law_seen_is_told_by_offset(inner, log[n - 1]);
        n - 1
    }
}

/// A record that cannot be applied makes the chunk fail: one that does not fail has none.
pub proof fn law_causes_make_a_chunk_fail(
    inner: InnerView,
    log: Seq<LogRecordView>,
    i: int,
    failure: ChunkFailure,
)
    requires
        0 <= i < log.len(),
        is_cause(inner, log, i, failure),
    ensures
        apply_log(inner, log).failure is Some,
        apply_prefix(inner, log, i as nat).failure is None ==> apply_log(inner, log).failure
            == Some(failure),
{
    law_seen_is_told_by_offset(inner, log[i]);
    lemma_apply_prefix_grows(inner, log, i as nat, log.len());
    lemma_apply_prefix_grows(inner, log, (i + 1) as nat, log.len());
}

/// The greatest offset of a chunk is one of its new offsets and none of them exceeds it; without
/// new records it is 0.
pub proof fn law_greatest_offset_is_the_greatest(inner: InnerView, log: Seq<LogRecordView>, n: nat)
    requires
        n <= log.len(),
        inner.last_seen_seq_id <= i64::MAX,
        apply_prefix(inner, log, n).failure is None,
    ensures
        forall|i: int|
            #![trigger log[i]]
            0 <= i < n && is_new(inner, log[i]) ==> log[i].log_offset <= apply_prefix(
                inner,
                log,
                n,
            ).max_seq_id,
        (forall|i: int| 0 <= i < n ==> !is_new(inner, #[trigger] log[i])) ==> apply_prefix(
            inner,
            log,
            n,
        ).max_seq_id == 0,
        (exists|i: int| 0 <= i < n && is_new(inner, #[trigger] log[i])) ==> exists|i: int|
            0 <= i < n && is_new(inner, log[i]) && (#[trigger] log[i]).log_offset == apply_prefix(
                inner,
                log,
                n,
            ).max_seq_id,
    decreases n,
{
    if n > 0 {
        let m = (n - 1) as nat;
        let before = apply_prefix(inner, log, m);
        let after = apply_prefix(inner, log, n);
        law_greatest_offset_is_the_greatest(inner, log, m);
        law_seen_is_told_by_offset(inner, log[n - 1]);
        lemma_unsigned(log[n - 1].log_offset);
        if is_new(inner, log[n - 1]) {
            if after.max_seq_id == before.max_seq_id && (exists|i: int|
                0 <= i < m && is_new(inner, #[trigger] log[i])) {
                let i = choose|i: int|
                    0 <= i < m && is_new(inner, log[i]) && (#[trigger] log[i]).log_offset
                        == before.max_seq_id;
                assert(log[i].log_offset == after.max_seq_id);
            } else {
                assert(log[n - 1].log_offset == after.max_seq_id);
            }
        } else {
            assert(after == before);
            if exists|i: int| 0 <= i < n && is_new(inner, #[trigger] log[i]) {
                let i = choose|i: int| 0 <= i < n && is_new(inner, #[trigger] log[i]);
                assert(0 <= i < m);
                let g = choose|g: int|
                    0 <= g < m && is_new(inner, log[g]) && (#[trigger] log[g]).log_offset
                        == before.max_seq_id;
                assert(log[g].log_offset == after.max_seq_id);
            }
        }
    }
}

/// The log seq id that a log yields is its greatest new offset, or the one from before where no
/// record is new.
pub proof fn law_log_seq_id_is_the_greatest_offset(inner: InnerView, log: Seq<LogRecordView>)
    requires
        inner.last_seen_seq_id <= i64::MAX,
        apply_log(inner, log).failure is None,
    ensures
        forall|i: int|
            0 <= i < log.len() ==> (#[trigger] log[i]).log_offset <= updated_seq_id(inner, log),
        updated_seq_id(inner, log) == inner.last_seen_seq_id || exists|i: int|
            0 <= i < log.len() && (#[trigger] log[i]).log_offset == updated_seq_id(inner, log),
        updated_seq_id(inner, log) >= inner.last_seen_seq_id,
{
    law_greatest_offset_is_the_greatest(inner, log, log.len());
    assert forall|i: int| 0 <= i < log.len() implies is_new(inner, #[trigger] log[i])
        == !log[i].is_seen(inner.last_seen_seq_id) by {
        law_seen_is_told_by_offset(inner, log[i]);
    }
    if has_unseen(inner, log) {
        let i = choose|i: int|
            0 <= i < log.len() && !(#[trigger] log[i]).is_seen(inner.last_seen_seq_id);
        assert(is_new(inner, log[i]));
        assert(log[i].log_offset <= updated_seq_id(inner, log));
    } else {
        assert forall|i: int| 0 <= i < log.len() implies (#[trigger] log[i]).log_offset
            <= inner.last_seen_seq_id by {
            assert(log[i].is_seen(inner.last_seen_seq_id));
        }
    }
}

/// There is room for a log whose records, counted on top of the labels given out and of the
/// records since the segment was last persisted, stay within the counters.
pub proof fn law_room_is_owed(inner: InnerView, log: Seq<LogRecordView>)
    requires
        inner.id_map.total_elements_added + log.len() < 4294967295,
        inner.num_elements_since_last_persist + log.len() <= 0xffff_ffff_ffff_ffff,
    ensures
        log_fits(inner, log),
{
    lemma_labels_bounded(inner, log, log.len());
    lemma_count_bounded(inner, log, log.len());
}

/// There is room for a log exactly if no counter that it moves leaves its range, from the first
/// record to the last.
pub proof fn law_room_suffices(inner: InnerView, log: Seq<LogRecordView>)
    ensures
        log_fits(inner, log) <==> {
            &&& inner.id_map.total_elements_added + 1 <= 4294967295
            &&& forall|n: nat|
                n <= log.len() ==> 1 <= (#[trigger] apply_prefix(inner, log, n)).next_label
                    <= 4294967295 && 0 <= apply_prefix(inner, log, n).elements
                    <= 0xffff_ffff_ffff_ffff
        },
{
    assert forall|n: nat| n <= log.len() implies {
        let at = #[trigger] apply_prefix(inner, log, n);
        &&& 1 <= at.next_label <= apply_log(inner, log).next_label
        &&& 0 <= at.elements <= apply_log(inner, log).elements
    } by {
        lemma_apply_prefix_grows(inner, log, 0, n);
        lemma_apply_prefix_grows(inner, log, n, log.len());
    }
    let end = apply_prefix(inner, log, log.len());
    assert(end == apply_log(inner, log));
}

proof fn lemma_count_bounded(inner: InnerView, log: Seq<LogRecordView>, n: nat)
    ensures
        apply_prefix(inner, log, n).elements <= inner.num_elements_since_last_persist + n,
    decreases n,
{
    if n > 0 {
        lemma_count_bounded(inner, log, (n - 1) as nat);
    }
}

} // verus!
