//! The state of a local HNSW segment and the settings it is opened with.
use crate::error::ConfigurationError;
use crate::error::{LocalHnswSegmentReaderError, LocalHnswSegmentWriterError};
use crate::id_map::{IdMap, IdMapView};
use vstd::prelude::*;

verus! {

/// The space in which an index measures distances.
#[derive(Clone, Copy, Debug, PartialEq, Eq, Structural)]
pub enum HnswSpace {
    L2,
    Cosine,
    Ip,
}

impl HnswSpace {
    /// Whether stored embeddings are normalized before they are measured against a query.
    pub fn normalizes_stored(self) -> (normalizes: bool)
        ensures
            normalizes == (self == HnswSpace::Cosine),
    {
        match self {
            HnswSpace::Cosine => true,
            _ => false,
        }
    }
}

/// The settings of an HNSW index that a segment reads.
#[derive(Clone, Copy, Debug, PartialEq, Eq, Structural)]
pub struct HnswConfiguration {
    pub space: HnswSpace,
    pub max_neighbors: usize,
    pub ef_construction: usize,
    pub ef_search: usize,
    pub sync_threshold: usize,
}

/// The settings that a collection's schema yields for a segment: absent without a schema, and
/// possibly absent or unreadable with one.
pub type SchemaConfiguration = Option<Result<Option<HnswConfiguration>, ConfigurationError>>;

/// The settings to read a segment with.
pub fn reader_configuration(schema: SchemaConfiguration) -> (result: Result<
    HnswConfiguration,
    LocalHnswSegmentReaderError,
>)
    ensures
        match schema {
            Some(Ok(Some(configuration))) => result == Ok::<_, LocalHnswSegmentReaderError>(
                configuration,
            ),
            Some(Err(err)) => result == Err::<HnswConfiguration, _>(
                LocalHnswSegmentReaderError::InvalidHnswConfiguration(err),
            ),
            _ => result == Err::<HnswConfiguration, _>(
                LocalHnswSegmentReaderError::MissingHnswConfiguration,
            ),
        },
{
    match schema {
        Some(Ok(Some(configuration))) => Ok(configuration),
        Some(Err(err)) => Err(LocalHnswSegmentReaderError::InvalidHnswConfiguration(err)),
        _ => Err(LocalHnswSegmentReaderError::MissingHnswConfiguration),
    }
}

/// The settings to write a segment with.
pub fn writer_configuration(schema: SchemaConfiguration) -> (result: Result<
    HnswConfiguration,
    LocalHnswSegmentWriterError,
>)
    ensures
        match schema {
            Some(Ok(Some(configuration))) => result == Ok::<_, LocalHnswSegmentWriterError>(
                configuration,
            ),
            Some(Err(err)) => result == Err::<HnswConfiguration, _>(
                LocalHnswSegmentWriterError::InvalidHnswConfiguration(err),
            ),
            _ => result == Err::<HnswConfiguration, _>(
                LocalHnswSegmentWriterError::MissingHnswConfiguration,
            ),
        },
{
    match schema {
        Some(Ok(Some(configuration))) => Ok(configuration),
        Some(Err(err)) => Err(LocalHnswSegmentWriterError::InvalidHnswConfiguration(err)),
        _ => Err(LocalHnswSegmentWriterError::MissingHnswConfiguration),
    }
}

/// The index did not do what it was asked for.
#[derive(Clone, Copy, Debug, PartialEq, Eq, Structural)]
pub struct IndexFailure;

/// What a segment holds beside its index and its database handle.
pub struct Inner {
    pub id_map: IdMap,
    pub index_init: bool,
    pub allow_reset: bool,
    pub num_elements_since_last_persist: u64,
    pub last_seen_seq_id: u64,
    pub sync_threshold: usize,
    pub persist_path: Option<String>,
}

/// The mathematical content of an [`Inner`].
#[verifier::ext_equal]
pub struct InnerView {
    pub id_map: IdMapView,
    pub index_init: bool,
    pub allow_reset: bool,
    pub num_elements_since_last_persist: u64,
    pub last_seen_seq_id: u64,
    pub sync_threshold: usize,
    pub persist_path: Option<Seq<char>>,
}

/// The characters of an optional string.
pub open spec fn opt_chars(s: Option<String>) -> Option<Seq<char>> {
    match s {
        Some(s) => Some(s@),
        None => None,
    }
}

impl View for Inner {
    type V = InnerView;

    open spec fn view(&self) -> InnerView {
        InnerView {
            id_map: self.id_map@,
            index_init: self.index_init,
            allow_reset: self.allow_reset,
            num_elements_since_last_persist: self.num_elements_since_last_persist,
            last_seen_seq_id: self.last_seen_seq_id,
            sync_threshold: self.sync_threshold,
            persist_path: opt_chars(self.persist_path),
        }
    }
}

impl InnerView {
    /// A segment just opened: it goes on from `last_seen_seq_id` with the given map.
    pub open spec fn opened(
        id_map: IdMapView,
        last_seen_seq_id: u64,
        sync_threshold: usize,
        persist_path: Option<Seq<char>>,
    ) -> InnerView {
        InnerView {
            id_map,
            index_init: true,
            allow_reset: false,
            num_elements_since_last_persist: 0,
            last_seen_seq_id,
            sync_threshold,
            persist_path,
        }
    }
}

impl Inner {
    /// A segment just opened: it goes on from `last_seen_seq_id` with the given map.
    pub fn opened(
        id_map: IdMap,
        last_seen_seq_id: u64,
        sync_threshold: usize,
        persist_path: Option<String>,
    ) -> (inner: Inner)
        ensures
            inner@ == InnerView::opened(
                id_map@,
                last_seen_seq_id,
                sync_threshold,
                opt_chars(persist_path),
            ),
    {
        Inner {
            id_map,
            index_init: true,
            allow_reset: false,
            num_elements_since_last_persist: 0,
            last_seen_seq_id,
            sync_threshold,
            persist_path,
        }
    }
}

/// What a segment counts for in a cache.
pub const SEGMENT_WEIGHT: usize = 1;

/// A segment that readers and writers share.
pub struct LocalHnswIndex {
    pub inner: Inner,
}

impl View for LocalHnswIndex {
    type V = InnerView;

    open spec fn view(&self) -> InnerView {
        self.inner@
    }
}

impl LocalHnswIndex {
    /// What the segment counts for in a cache: every segment counts alike.
    pub fn weight(&self) -> (weight: usize)
        ensures
            weight == SEGMENT_WEIGHT,
    {
        SEGMENT_WEIGHT
    }
}

} // verus!
