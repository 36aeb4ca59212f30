//! The log that a segment is built from, and what a chunk of it does to a segment.
use crate::id_map::IdMapView;
use crate::segment::InnerView;
use vstd::prelude::*;

verus! {

/// What a log record asks for.
#[derive(Clone, Copy, Debug, PartialEq, Eq, Structural)]
pub enum Operation {
    Add,
    Update,
    Upsert,
    Delete,
    BackfillFn,
}

/// One request on a user id. Embeddings are of any type: a segment only hands them on.
pub struct OperationRecord<E> {
    pub id: String,
    pub embedding: Option<E>,
    pub operation: Operation,
}

/// A request and its place in the log.
pub struct LogRecord<E> {
    pub log_offset: i64,
    pub record: OperationRecord<E>,
}

/// The part of a [`LogRecord`] on which its effect on the maps depends.
pub struct LogRecordView {
    pub log_offset: i64,
    pub id: Seq<char>,
    pub has_embedding: bool,
    pub operation: Operation,
}

impl<E> View for LogRecord<E> {
    type V = LogRecordView;

    open spec fn view(&self) -> LogRecordView {
        LogRecordView {
            log_offset: self.log_offset,
            id: self.record.id@,
            has_embedding: self.record.embedding is Some,
            operation: self.record.operation,
        }
    }
}

/// The views of a run of records.
pub open spec fn log_view<E>(records: Seq<LogRecord<E>>) -> Seq<LogRecordView> {
    records.map_values(|r: LogRecord<E>| r@)
}

/// The index is to take up what the record at place `record` of the chunk says about `label`.
#[derive(Clone, Copy, Debug, PartialEq, Eq, Structural)]
pub struct IndexWork {
    pub label: u32,
    pub record: usize,
}

/// Why a chunk cannot be applied.
pub enum ChunkFailure {
    /// A record that needs an embedding has none.
    EmbeddingNotFound,
    /// The offset of a record cannot be persisted.
    InvalidLogOffset(i64),
}

impl LogRecordView {
    /// The record lies behind the offset up to which the log was applied.
    pub open spec fn is_seen(self, last_seen_seq_id: u64) -> bool {
        self.log_offset <= last_seen_seq_id as i64
    }

    /// The offset of the record fits the persisted form.
    pub open spec fn is_persistable(self) -> bool {
        0 <= self.log_offset <= u32::MAX
    }
}

/// How far a chunk has been applied.
#[verifier::ext_equal]
pub struct ChunkView {
    pub id_map: IdMapView,
    /// The label that the next new id gets.
    pub next_label: int,
    /// Records taken up since the segment was last persisted.
    pub elements: int,
    /// The greatest offset taken up from this chunk, 0 before the first.
    pub max_seq_id: u64,
    /// What the index is to take up, in log order.
    pub work: Seq<IndexWork>,
    pub failure: Option<ChunkFailure>,
}

impl ChunkView {
    /// The start of a chunk on a segment.
    pub open spec fn start(inner: InnerView) -> ChunkView {
        ChunkView {
            id_map: inner.id_map,
            next_label: inner.id_map.total_elements_added + 1,
            elements: inner.num_elements_since_last_persist as int,
            max_seq_id: 0,
            work: Seq::empty(),
            failure: None,
        }
    }

    /// The id has a label.
    pub open spec fn knows(self, id: Seq<char>) -> bool {
        self.id_map.id_to_label.contains_key(id)
    }

    /// Counts an unseen record.
    pub open spec fn counted(self, r: LogRecordView) -> ChunkView {
        let offset = r.log_offset as u64;
        ChunkView {
            elements: self.elements + 1,
            max_seq_id: if self.max_seq_id < offset {
                offset
            } else {
                self.max_seq_id
            },
            ..self
        }
    }

    /// The record at place `at` sets the label of its id, and the offset that last touched it.
    pub open spec fn labelled(self, r: LogRecordView, label: u32, at: int) -> ChunkView {
        ChunkView {
            id_map: IdMapView {
                id_to_label: self.id_map.id_to_label.insert(r.id, label),
                label_to_id: self.id_map.label_to_id.insert(label, r.id),
                id_to_seq_id: self.id_map.id_to_seq_id.insert(r.id, r.log_offset as u32),
                ..self.id_map
            },
            work: self.work.push(IndexWork { label, record: at as usize }),
            ..self
        }
    }

    /// The record at place `at` gives a new id the next label.
    pub open spec fn admitted(self, r: LogRecordView, at: int) -> ChunkView {
        ChunkView {
            next_label: self.next_label + 1,
            ..self.labelled(r, self.next_label as u32, at)
        }
    }

    /// The record at place `at` replaces the embedding of a known id.
    pub open spec fn touched(self, r: LogRecordView, at: int) -> ChunkView {
        ChunkView {
            id_map: IdMapView {
                id_to_seq_id: self.id_map.id_to_seq_id.insert(r.id, r.log_offset as u32),
                ..self.id_map
            },
            work: self.work.push(
                IndexWork { label: self.id_map.id_to_label[r.id], record: at as usize },
            ),
            ..self
        }
    }

    /// The record at place `at` takes a known id out of the maps.
    pub open spec fn dropped(self, r: LogRecordView, at: int) -> ChunkView {
        let label = self.id_map.id_to_label[r.id];
        ChunkView {
            id_map: IdMapView {
                id_to_label: self.id_map.id_to_label.remove(r.id),
                label_to_id: self.id_map.label_to_id.remove(label),
                id_to_seq_id: self.id_map.id_to_seq_id.remove(r.id),
                ..self.id_map
            },
            work: self.work.push(IndexWork { label, record: at as usize }),
            ..self
        }
    }

    /// The chunk stops here.
    pub open spec fn failed(self, failure: ChunkFailure) -> ChunkView {
        ChunkView { failure: Some(failure), ..self }
    }

    /// Takes up an unseen record that was counted.
    pub open spec fn taken(self, r: LogRecordView, at: int) -> ChunkView {
        match r.operation {
            Operation::BackfillFn => self,
            Operation::Add => if self.knows(r.id) {
                self
            } else if !r.has_embedding {
                self.failed(ChunkFailure::EmbeddingNotFound)
            } else if !r.is_persistable() {
                self.failed(ChunkFailure::InvalidLogOffset(r.log_offset))
            } else {
                self.admitted(r, at)
            },
            Operation::Update => if !self.knows(r.id) || !r.has_embedding {
                self
            } else if !r.is_persistable() {
                self.failed(ChunkFailure::InvalidLogOffset(r.log_offset))
            } else {
                self.touched(r, at)
            },
            Operation::Delete => if !self.knows(r.id) {
                self
            } else {
                self.dropped(r, at)
            },
            Operation::Upsert => if !r.has_embedding {
                self.failed(ChunkFailure::EmbeddingNotFound)
            } else if !r.is_persistable() {
                self.failed(ChunkFailure::InvalidLogOffset(r.log_offset))
            } else if self.knows(r.id) {
                self.labelled(r, self.id_map.id_to_label[r.id], at)
            } else {
                self.admitted(r, at)
            },
        }
    }

    /// Applies the record at place `at`: nothing happens after a failure or for a seen record.
    pub open spec fn step(self, last_seen_seq_id: u64, r: LogRecordView, at: int) -> ChunkView {
        if self.failure is Some || r.is_seen(last_seen_seq_id) {
            self
        } else {
            self.counted(r).taken(r, at)
        }
    }
}

/// What the first `n` records of a log do to a segment.
pub open spec fn apply_prefix(inner: InnerView, log: Seq<LogRecordView>, n: nat) -> ChunkView
    decreases n,
{
    if n == 0 {
        ChunkView::start(inner)
    } else {
        apply_prefix(inner, log, (n - 1) as nat).step(
            inner.last_seen_seq_id,
            log[n - 1],
            n - 1,
        )
    }
}

/// What a log does to a segment.
pub open spec fn apply_log(inner: InnerView, log: Seq<LogRecordView>) -> ChunkView {
    apply_prefix(inner, log, log.len())
}

/// Some record of the log lies beyond the offset up to which it was applied.
pub open spec fn has_unseen(inner: InnerView, log: Seq<LogRecordView>) -> bool {
    exists|i: int| 0 <= i < log.len() && !(#[trigger] log[i]).is_seen(inner.last_seen_seq_id)
}

/// The log seq id once a log was applied: the greatest offset that it brought, or the one from
/// before where it brings nothing new.
pub open spec fn updated_seq_id(inner: InnerView, log: Seq<LogRecordView>) -> u64 {
    if has_unseen(inner, log) {
        apply_log(inner, log).max_seq_id
    } else {
        inner.last_seen_seq_id
    }
}

/// The counters that applying the log moves stay within their types.
pub open spec fn log_fits(inner: InnerView, log: Seq<LogRecordView>) -> bool {
    &&& inner.id_map.total_elements_added < u32::MAX
    &&& apply_log(inner, log).next_label <= u32::MAX
    &&& apply_log(inner, log).elements <= u64::MAX
}

/// The counters only grow, and a failure is final.
pub proof fn lemma_apply_prefix_grows(inner: InnerView, log: Seq<LogRecordView>, k: nat, n: nat)
    requires
        k <= n,
    ensures
        apply_prefix(inner, log, k).next_label <= apply_prefix(inner, log, n).next_label,
        apply_prefix(inner, log, k).elements <= apply_prefix(inner, log, n).elements,
        apply_prefix(inner, log, k).failure is Some ==> apply_prefix(inner, log, n)
            == apply_prefix(inner, log, k),
    decreases n,
{
    if k < n {
        lemma_apply_prefix_grows(inner, log, k, (n - 1) as nat);
    }
}

/// A log gives out at most one label per record.
pub proof fn lemma_labels_bounded(inner: InnerView, log: Seq<LogRecordView>, n: nat)
    ensures
        apply_prefix(inner, log, n).next_label <= inner.id_map.total_elements_added + 1 + n,
    decreases n,
{
    if n > 0 {
        lemma_labels_bounded(inner, log, (n - 1) as nat);
    }
}

/// Applying a log leaves alone what the maps carry beside their entries.
pub proof fn lemma_other_fields_stay(inner: InnerView, log: Seq<LogRecordView>, n: nat)
    requires
        n <= log.len(),
    ensures
        apply_prefix(inner, log, n).id_map.max_seq_id == inner.id_map.max_seq_id,
        apply_prefix(inner, log, n).id_map.dimensionality == inner.id_map.dimensionality,
        apply_prefix(inner, log, n).id_map.total_elements_added
            == inner.id_map.total_elements_added,
    decreases n,
{
    if n > 0 {
        lemma_other_fields_stay(inner, log, (n - 1) as nat);
    }
}

/// What the first records do depends on them alone.
pub proof fn lemma_same_prefix(
    inner: InnerView,
    a: Seq<LogRecordView>,
    b: Seq<LogRecordView>,
    n: nat,
)
    requires
        n <= a.len(),
        n <= b.len(),
        forall|i: int| 0 <= i < n ==> a[i] == b[i],
    ensures
        apply_prefix(inner, a, n) == apply_prefix(inner, b, n),
    decreases n,
{
    if n > 0 {
        lemma_same_prefix(inner, a, b, (n - 1) as nat);
    }
}

/// The index is only asked to take up records of the chunk, and for each of them either a label
/// is to go or an embedding is there to be put.
pub open spec fn work_is_sound(work: Seq<IndexWork>, log: Seq<LogRecordView>) -> bool {
    forall|j: int|
        #![trigger work[j]]
        0 <= j < work.len() ==> {
            &&& work[j].record < log.len()
            &&& log[work[j].record as int].operation != Operation::BackfillFn
            &&& log[work[j].record as int].operation != Operation::Delete
                ==> log[work[j].record as int].has_embedding
        }
}

/// What applying a log asks of the index is sound.
pub proof fn lemma_work_is_sound(inner: InnerView, log: Seq<LogRecordView>, n: nat)
    requires
        n <= log.len() <= usize::MAX,
    ensures
        work_is_sound(apply_prefix(inner, log, n).work, log),
    decreases n,
{
    if n > 0 {
        lemma_work_is_sound(inner, log, (n - 1) as nat);
    }
}

} // verus!
