//! Opening a segment: which of the disk, the index and the database is asked next, and what
//! becomes of each answer.
use crate::error::{
    ConfigurationError, LocalHnswSegmentReaderError, LocalHnswSegmentWriterError,
};
use crate::id_map::{
    validate_current_seq_id_state, validate_persisted_id_map, IdMap, IdMapView, ValidatedIdMap,
};
use crate::segment::{opt_chars, HnswConfiguration};
use vstd::prelude::*;

verus! {

/// The file in which a segment keeps its identifier maps.
pub const METADATA_FILE: &'static str = "index_metadata.pickle";

/// What a segment is opened for.
#[derive(Clone, Copy, Debug, PartialEq, Eq, Structural)]
pub enum Access {
    Read,
    Write,
}

/// What is to be done next to open a segment.
#[derive(Clone, Copy, Debug, PartialEq, Eq, Structural)]
pub enum OpenStep {
    /// Look for the folder of the segment.
    FindFolder,
    /// Create the folder of the segment.
    CreateFolder,
    /// Look for the metadata in the folder.
    FindMetadata,
    /// Read the metadata.
    ReadMetadata,
    /// Load the index from the folder.
    LoadIndex { dimensionality: i32 },
    /// Look up the sequence id of the segment in the database.
    ReadSeqId,
    /// Record the sequence id of older metadata in the database, unless one is there.
    StoreLegacySeqId { seq_id: u64 },
    /// Create an index: in the folder, if the opening has one, else in memory.
    InitIndex { dimensionality: i32 },
    /// Nothing is left to do.
    Ready,
}

/// Why a segment cannot be opened.
pub enum OpenFailure {
    UninitializedSegment,
    PersistPath,
    InvalidPersistedMetadata(String),
    IndexLoad,
    IndexInit,
    /// The folder could not be created or the metadata could not be opened.
    Disk(String),
    /// The metadata could not be parsed.
    UnreadableMetadata(String),
    /// The database did not answer.
    Database(String),
    /// The settings of a new index were refused.
    IndexConfiguration(ConfigurationError),
}

impl OpenFailure {
    /// The error that a reader reports. A reader does not tell an index that it could not create
    /// or configure from one that it could not load.
    pub fn reader_error(self) -> (err: LocalHnswSegmentReaderError)
        ensures
            err == match self {
                OpenFailure::UninitializedSegment =>
                    LocalHnswSegmentReaderError::UninitializedSegment,
                OpenFailure::PersistPath => LocalHnswSegmentReaderError::PersistPathError,
                OpenFailure::InvalidPersistedMetadata(
                    reason,
                ) => LocalHnswSegmentReaderError::InvalidPersistedMetadata(reason),
                OpenFailure::IndexLoad => LocalHnswSegmentReaderError::HnswIndexLoadError,
                OpenFailure::IndexInit => LocalHnswSegmentReaderError::HnswIndexLoadError,
                OpenFailure::Disk(text) => LocalHnswSegmentReaderError::PickleFileOpenError(text),
                OpenFailure::UnreadableMetadata(
                    text,
                ) => LocalHnswSegmentReaderError::PickleFileDeserializeError(text),
                OpenFailure::Database(text) => LocalHnswSegmentReaderError::SqliteError(text),
                OpenFailure::IndexConfiguration(
                    _,
                ) => LocalHnswSegmentReaderError::HnswIndexLoadError,
            },
    {
        match self {
            OpenFailure::UninitializedSegment => LocalHnswSegmentReaderError::UninitializedSegment,
            OpenFailure::PersistPath => LocalHnswSegmentReaderError::PersistPathError,
            OpenFailure::InvalidPersistedMetadata(
                reason,
            ) => LocalHnswSegmentReaderError::InvalidPersistedMetadata(reason),
            OpenFailure::IndexLoad => LocalHnswSegmentReaderError::HnswIndexLoadError,
            OpenFailure::IndexInit => LocalHnswSegmentReaderError::HnswIndexLoadError,
            OpenFailure::Disk(text) => LocalHnswSegmentReaderError::PickleFileOpenError(text),
            OpenFailure::UnreadableMetadata(
                text,
            ) => LocalHnswSegmentReaderError::PickleFileDeserializeError(text),
            OpenFailure::Database(text) => LocalHnswSegmentReaderError::SqliteError(text),
            OpenFailure::IndexConfiguration(_) => LocalHnswSegmentReaderError::HnswIndexLoadError,
        }
    }

    /// The error that a writer reports.
    pub fn writer_error(self) -> (err: LocalHnswSegmentWriterError)
        ensures
            err == match self {
                OpenFailure::UninitializedSegment =>
                    LocalHnswSegmentWriterError::UninitializedSegment,
                OpenFailure::PersistPath => LocalHnswSegmentWriterError::PersistPathError,
                OpenFailure::InvalidPersistedMetadata(
                    reason,
                ) => LocalHnswSegmentWriterError::InvalidPersistedMetadata(reason),
                OpenFailure::IndexLoad => LocalHnswSegmentWriterError::HnswIndexLoadError,
                OpenFailure::IndexInit => LocalHnswSegmentWriterError::HnswIndexInitError,
                OpenFailure::Disk(text) => LocalHnswSegmentWriterError::PickleFileOpenError(text),
                OpenFailure::UnreadableMetadata(
                    text,
                ) => LocalHnswSegmentWriterError::PickleFileDeserializeError(text),
                OpenFailure::Database(
                    text,
                ) => LocalHnswSegmentWriterError::MaxSeqIdUpdateError(text),
                OpenFailure::IndexConfiguration(
                    err,
                ) => LocalHnswSegmentWriterError::HnswConfigError(err),
            },
    {
        match self {
            OpenFailure::UninitializedSegment => LocalHnswSegmentWriterError::UninitializedSegment,
            OpenFailure::PersistPath => LocalHnswSegmentWriterError::PersistPathError,
            OpenFailure::InvalidPersistedMetadata(
                reason,
            ) => LocalHnswSegmentWriterError::InvalidPersistedMetadata(reason),
            OpenFailure::IndexLoad => LocalHnswSegmentWriterError::HnswIndexLoadError,
            OpenFailure::IndexInit => LocalHnswSegmentWriterError::HnswIndexInitError,
            OpenFailure::Disk(text) => LocalHnswSegmentWriterError::PickleFileOpenError(text),
            OpenFailure::UnreadableMetadata(
                text,
            ) => LocalHnswSegmentWriterError::PickleFileDeserializeError(text),
            OpenFailure::Database(text) => LocalHnswSegmentWriterError::MaxSeqIdUpdateError(text),
            OpenFailure::IndexConfiguration(
                err,
            ) => LocalHnswSegmentWriterError::HnswConfigError(err),
        }
    }
}

/// From where a segment takes the sequence id it goes on from.
#[derive(Clone, Copy, Debug, PartialEq, Eq, Structural)]
pub enum SeqIdSource {
    /// What the database holds stands.
    Database(Option<u64>),
    /// The sequence id of older metadata is to be recorded in the database.
    Legacy(u64),
}

/// Where the sequence id comes from: what the database holds wins over older metadata.
pub open spec fn seq_id_source(
    current_seq_id: Option<u64>,
    legacy_max_seq_id: Option<u64>,
) -> SeqIdSource {
    match (current_seq_id, legacy_max_seq_id) {
        (None, Some(max_seq_id)) => SeqIdSource::Legacy(max_seq_id),
        _ => SeqIdSource::Database(current_seq_id),
    }
}

/// Decides whether the sequence id of older metadata has to be recorded in the database.
pub fn get_or_migrate_current_seq_id(
    current_seq_id: Option<u64>,
    legacy_max_seq_id: Option<u64>,
) -> (source: SeqIdSource)
    ensures
        source == seq_id_source(current_seq_id, legacy_max_seq_id),
{
    if current_seq_id.is_some() {
        return SeqIdSource::Database(current_seq_id);
    }
    match legacy_max_seq_id {
        Some(max_seq_id) => SeqIdSource::Legacy(max_seq_id),
        None => SeqIdSource::Database(None),
    }
}

/// A segment that is being opened.
pub struct SegmentOpening {
    pub access: Access,
    pub configuration: HnswConfiguration,
    pub dimensionality: usize,
    pub folder: Option<String>,
    pub id_map: IdMap,
    pub seq_id: u64,
    pub step: OpenStep,
}

/// The mathematical content of a [`SegmentOpening`].
#[verifier::ext_equal]
pub struct OpeningView {
    pub access: Access,
    pub configuration: HnswConfiguration,
    pub dimensionality: usize,
    pub folder: Option<Seq<char>>,
    pub id_map: IdMapView,
    pub seq_id: u64,
    pub step: OpenStep,
}

impl View for SegmentOpening {
    type V = OpeningView;

    open spec fn view(&self) -> OpeningView {
        OpeningView {
            access: self.access,
            configuration: self.configuration,
            dimensionality: self.dimensionality,
            folder: opt_chars(self.folder),
            id_map: self.id_map@,
            seq_id: self.seq_id,
            step: self.step,
        }
    }
}

impl OpeningView {
    /// The start: a persistent segment is looked for on disk, any other gets a new index.
    pub open spec fn start(
        access: Access,
        configuration: HnswConfiguration,
        dimensionality: usize,
        persistent: bool,
    ) -> OpeningView {
        OpeningView {
            access,
            configuration,
            dimensionality,
            folder: None,
            id_map: IdMapView::fresh(),
            seq_id: 0,
            step: if persistent {
                OpenStep::FindFolder
            } else {
                OpenStep::InitIndex { dimensionality: dimensionality as i32 }
            },
        }
    }

    /// The same opening at another step.
    pub open spec fn at(self, step: OpenStep) -> OpeningView {
        OpeningView { step, ..self }
    }

    /// A new index is to be created, of the dimensionality of the collection.
    pub open spec fn with_new_index(self) -> OpeningView {
        self.at(OpenStep::InitIndex { dimensionality: self.dimensionality as i32 })
    }

    /// What follows once the folder was looked for: a reader needs it, a writer has it created,
    /// and its name must be told as a string.
    pub open spec fn after_folder_probe(self, exists: bool, folder: Option<Seq<char>>) -> Result<
        OpeningView,
        OpenFailure,
    > {
        if !exists {
            match self.access {
                Access::Read => Err(OpenFailure::UninitializedSegment),
                Access::Write => Ok(OpeningView { folder, ..self.at(OpenStep::CreateFolder) }),
            }
        } else if folder is Some {
            Ok(OpeningView { folder, ..self.at(OpenStep::FindMetadata) })
        } else {
            Err(OpenFailure::PersistPath)
        }
    }

    /// What follows once the folder was created.
    pub open spec fn after_folder_creation(self) -> Result<OpeningView, OpenFailure> {
        if self.folder is Some {
            Ok(self.at(OpenStep::FindMetadata))
        } else {
            Err(OpenFailure::PersistPath)
        }
    }

    /// What follows once the metadata was looked for: without it a reader finds nothing and a
    /// writer starts afresh.
    pub open spec fn after_metadata_probe(self, exists: bool) -> Result<OpeningView, OpenFailure> {
        if exists {
            Ok(self.at(OpenStep::ReadMetadata))
        } else {
            match self.access {
                Access::Read => Err(OpenFailure::UninitializedSegment),
                Access::Write => Ok(self.with_new_index()),
            }
        }
    }

    /// `result` may follow once the metadata was read: only sound metadata leads to the index
    /// being loaded, and metadata without live ids counts as none.
    pub open spec fn follows_metadata(
        self,
        id_map: IdMapView,
        result: Result<OpeningView, OpenFailure>,
    ) -> bool {
        if id_map.is_vacant() {
            result == match self.access {
                Access::Read => Err::<OpeningView, _>(OpenFailure::UninitializedSegment),
                Access::Write => Ok(self.with_new_index()),
            }
        } else if id_map.is_acceptable(self.dimensionality) {
            result == Ok::<_, OpenFailure>(
                OpeningView {
                    id_map,
                    ..self.at(OpenStep::LoadIndex { dimensionality: self.dimensionality as i32 })
                },
            )
        } else {
            &&& result matches Err(OpenFailure::InvalidPersistedMetadata(reason))
            &&& id_map.is_refused_for(self.dimensionality, reason@)
        }
    }

    /// What follows once the index was loaded, or could not be.
    pub open spec fn after_index_load(self, loaded: bool) -> Result<OpeningView, OpenFailure> {
        if loaded {
            Ok(self.at(OpenStep::ReadSeqId))
        } else {
            Err(OpenFailure::IndexLoad)
        }
    }

    /// `result` may follow once the sequence id was looked up in the database: only where the
    /// database has none is that of older metadata to be recorded.
    pub open spec fn follows_seq_id(
        self,
        current_seq_id: Option<u64>,
        result: Result<OpeningView, OpenFailure>,
    ) -> bool {
        match seq_id_source(current_seq_id, self.id_map.max_seq_id) {
            SeqIdSource::Database(seq_id) => self.settles(seq_id, result),
            SeqIdSource::Legacy(seq_id) => result == Ok::<_, OpenFailure>(
                self.at(OpenStep::StoreLegacySeqId { seq_id }),
            ),
        }
    }

    /// What follows once a new index was created, or could not be.
    pub open spec fn after_index_init(self, initialized: bool) -> Result<
        OpeningView,
        OpenFailure,
    > {
        if initialized {
            Ok(self.at(OpenStep::Ready))
        } else {
            Err(OpenFailure::IndexInit)
        }
    }

    /// `result` may follow once the sequence id is settled as what the database now holds; the
    /// maps must agree with it.
    pub open spec fn settles(
        self,
        current_seq_id: Option<u64>,
        result: Result<OpeningView, OpenFailure>,
    ) -> bool {
        match current_seq_id {
            Some(current) => if self.id_map.seq_ids_within(current as int) {
                result == Ok::<_, OpenFailure>(
                    OpeningView { seq_id: current, ..self.at(OpenStep::Ready) },
                )
            } else {
                &&& result matches Err(OpenFailure::InvalidPersistedMetadata(reason))
                &&& reason@ == "persisted SQLite max_seq_id is smaller than persisted seq ids"@
            },
            None => if self.id_map.id_to_seq_id.dom().is_empty() {
                result == Ok::<_, OpenFailure>(
                    OpeningView { seq_id: 0, ..self.at(OpenStep::Ready) },
                )
            } else {
                &&& result matches Err(OpenFailure::InvalidPersistedMetadata(reason))
                &&& reason@ == "persisted metadata has labels but SQLite max_seq_id is missing"@
            },
        }
    }
}

/// The view of an opening that went on, or the failure that ended it.
pub open spec fn outcome(result: Result<SegmentOpening, OpenFailure>) -> Result<
    OpeningView,
    OpenFailure,
> {
    match result {
        Ok(opening) => Ok(opening@),
        Err(failure) => Err(failure),
    }
}

impl SegmentOpening {
    /// Starts opening a segment. A persistent segment is looked for on disk, any other gets a
    /// new index.
    pub fn start(
        access: Access,
        configuration: HnswConfiguration,
        dimensionality: usize,
        persistent: bool,
    ) -> (opening: SegmentOpening)
        ensures
            opening@ == OpeningView::start(access, configuration, dimensionality, persistent),
    {
        SegmentOpening {
            access,
            configuration,
            dimensionality,
            folder: None,
            id_map: IdMap::default(),
            seq_id: 0,
            step: if persistent {
                OpenStep::FindFolder
            } else {
                OpenStep::InitIndex {
                    dimensionality: #[verifier::truncate]
                    (dimensionality as i32),
                }
            },
        }
    }

    /// The folder was looked for; `folder` is its name, if it can be told as a string. A reader
    /// needs the folder, a writer has it created.
    pub fn folder_probed(self, exists: bool, folder: Option<String>) -> (result: Result<
        SegmentOpening,
        OpenFailure,
    >)
        requires
            self.step == OpenStep::FindFolder,
        ensures
            outcome(result) == self@.after_folder_probe(exists, opt_chars(folder)),
    {
        let mut opening = self;
        if exists {
            if folder.is_none() {
                return Err(OpenFailure::PersistPath);
            }
            opening.folder = folder;
            opening.step = OpenStep::FindMetadata;
            Ok(opening)
        } else {
            match opening.access {
                Access::Read => Err(OpenFailure::UninitializedSegment),
                Access::Write => {
                    opening.folder = folder;
                    opening.step = OpenStep::CreateFolder;
                    Ok(opening)
                },
            }
        }
    }

    /// The folder was created.
    pub fn folder_created(self) -> (result: Result<SegmentOpening, OpenFailure>)
        requires
            self.step == OpenStep::CreateFolder,
        ensures
            outcome(result) == self@.after_folder_creation(),
    {
        let mut opening = self;
        if opening.folder.is_none() {
            return Err(OpenFailure::PersistPath);
        }
        opening.step = OpenStep::FindMetadata;
        Ok(opening)
    }

    /// The metadata was looked for. Without metadata a reader finds nothing and a writer starts
    /// afresh.
    pub fn metadata_probed(self, exists: bool) -> (result: Result<SegmentOpening, OpenFailure>)
        requires
            self.step == OpenStep::FindMetadata,
        ensures
            outcome(result) == self@.after_metadata_probe(exists),
    {
        let mut opening = self;
        if exists {
            opening.step = OpenStep::ReadMetadata;
            Ok(opening)
        } else {
            match opening.access {
                Access::Read => Err(OpenFailure::UninitializedSegment),
                Access::Write => {
                    opening.step = OpenStep::InitIndex {
                        dimensionality: #[verifier::truncate]
                        (opening.dimensionality as i32),
                    };
                    Ok(opening)
                },
            }
        }
    }

    /// The metadata was read. Only sound metadata leads to the index being loaded; metadata
    /// without live ids counts as none.
    pub fn metadata_read(self, id_map: IdMap) -> (result: Result<SegmentOpening, OpenFailure>)
        requires
            self.step == OpenStep::ReadMetadata,
        ensures
            self@.follows_metadata(id_map@, outcome(result)),
    {
        let mut opening = self;
        match validate_persisted_id_map(id_map, opening.dimensionality) {
            Err(reason) => Err(OpenFailure::InvalidPersistedMetadata(reason)),
            Ok(ValidatedIdMap::Uninitialized) => {
                match opening.access {
                    Access::Read => Err(OpenFailure::UninitializedSegment),
                    Access::Write => {
                        opening.step = OpenStep::InitIndex {
                            dimensionality: #[verifier::truncate]
                            (opening.dimensionality as i32),
                        };
                        Ok(opening)
                    },
                }
            },
            Ok(ValidatedIdMap::Initialized { id_map: accepted, dimensionality }) => {
                opening.id_map = accepted;
                opening.step = OpenStep::LoadIndex { dimensionality: dimensionality.get() };
                Ok(opening)
            },
        }
    }

    /// The index was loaded, or could not be.
    pub fn index_loaded(self, loaded: bool) -> (result: Result<SegmentOpening, OpenFailure>)
        requires
            self.step is LoadIndex,
        ensures
            outcome(result) == self@.after_index_load(loaded),
    {
        let mut opening = self;
        if !loaded {
            return Err(OpenFailure::IndexLoad);
        }
        opening.step = OpenStep::ReadSeqId;
        Ok(opening)
    }

    /// The sequence id was looked up in the database. Only where the database has none is that
    /// of older metadata to be recorded.
    pub fn seq_id_read(self, current_seq_id: Option<u64>) -> (result: Result<
        SegmentOpening,
        OpenFailure,
    >)
        requires
            self.step == OpenStep::ReadSeqId,
        ensures
            self@.follows_seq_id(current_seq_id, outcome(result)),
    {
        match get_or_migrate_current_seq_id(current_seq_id, self.id_map.max_seq_id) {
            SeqIdSource::Database(seq_id) => self.settle_seq_id(seq_id),
            SeqIdSource::Legacy(seq_id) => {
                let mut opening = self;
                opening.step = OpenStep::StoreLegacySeqId { seq_id };
                Ok(opening)
            },
        }
    }

    /// The sequence id of older metadata was recorded.
    pub fn legacy_seq_id_stored(self) -> (result: Result<SegmentOpening, OpenFailure>)
        requires
            self.step is StoreLegacySeqId,
        ensures
            self@.settles(Some(self.step->StoreLegacySeqId_seq_id), outcome(result)),
    {
        match self.step {
            OpenStep::StoreLegacySeqId { seq_id } => self.settle_seq_id(Some(seq_id)),
            _ => Err(OpenFailure::UninitializedSegment),
        }
    }

    fn settle_seq_id(self, current_seq_id: Option<u64>) -> (result: Result<
        SegmentOpening,
        OpenFailure,
    >)
        ensures
            self@.settles(current_seq_id, outcome(result)),
    {
        match validate_current_seq_id_state(current_seq_id, &self.id_map) {
            Ok(seq_id) => {
                let mut opening = self;
                opening.seq_id = seq_id;
                opening.step = OpenStep::Ready;
                Ok(opening)
            },
            Err(reason) => Err(OpenFailure::InvalidPersistedMetadata(reason)),
        }
    }

    /// A new index was created, or could not be.
    pub fn index_initialized(self, initialized: bool) -> (result: Result<
        SegmentOpening,
        OpenFailure,
    >)
        requires
            self.step is InitIndex,
        ensures
            outcome(result) == self@.after_index_init(initialized),
    {
        let mut opening = self;
        if !initialized {
            return Err(OpenFailure::IndexInit);
        }
        opening.step = OpenStep::Ready;
        Ok(opening)
    }
}

/// What the disk, the index and the database have to say to a persistent segment that is opened.
#[verifier::ext_equal]
pub struct SegmentAnswers {
    pub folder_exists: bool,
    /// The name of the folder, if it can be told as a string.
    pub folder: Option<Seq<char>>,
    pub metadata: Option<IdMapView>,
    pub index_loads: bool,
    pub index_inits: bool,
    /// The sequence id that the database holds before the segment is opened.
    pub seq_id: Option<u64>,
}

impl OpeningView {
    /// `next` may follow once the step at hand is done and its answer is handed back.
    pub open spec fn leads_to(
        self,
        answers: SegmentAnswers,
        next: Result<OpeningView, OpenFailure>,
    ) -> bool {
        match self.step {
            OpenStep::FindFolder => next == self.after_folder_probe(
                answers.folder_exists,
                answers.folder,
            ),
            OpenStep::CreateFolder => next == self.after_folder_creation(),
            OpenStep::FindMetadata => next == self.after_metadata_probe(answers.metadata is Some),
            OpenStep::ReadMetadata => self.follows_metadata(answers.metadata->0, next),
            OpenStep::LoadIndex { .. } => next == self.after_index_load(answers.index_loads),
            OpenStep::ReadSeqId => self.follows_seq_id(answers.seq_id, next),
            OpenStep::StoreLegacySeqId { seq_id } => self.settles(Some(seq_id), next),
            OpenStep::InitIndex { .. } => next == self.after_index_init(answers.index_inits),
            OpenStep::Ready => false,
        }
    }

    /// The maps are those of the metadata, and the segment goes on from the sequence id of the
    /// database, or else from that of older metadata; one of them is needed, and it must cover
    /// the maps.
    pub open spec fn resumes(
        self,
        answers: SegmentAnswers,
        end: Result<OpeningView, OpenFailure>,
    ) -> bool {
        let metadata = answers.metadata->0;
        let known = OpeningView { folder: answers.folder, id_map: metadata, ..self };
        if !metadata.is_acceptable(self.dimensionality) {
            &&& end matches Err(OpenFailure::InvalidPersistedMetadata(reason))
            &&& metadata.is_refused_for(self.dimensionality, reason@)
        } else if !answers.index_loads {
            end == Err::<OpeningView, _>(OpenFailure::IndexLoad)
        } else if answers.seq_id is Some {
            known.settles(answers.seq_id, end)
        } else {
            known.settles(metadata.max_seq_id, end)
        }
    }
}

/// One step of an opening leads to the next.
pub open spec fn goes_on(path: Seq<OpeningView>, answers: SegmentAnswers, i: int) -> bool {
    path[i].leads_to(answers, Ok(path[i + 1]))
}

/// An opening that starts as `first` can go through `path` and end as `end`.
pub open spec fn is_opening(
    first: OpeningView,
    answers: SegmentAnswers,
    path: Seq<OpeningView>,
    end: Result<OpeningView, OpenFailure>,
) -> bool {
    &&& path.len() > 0
    &&& path[0] == first
    &&& forall|i: int| 0 <= i < path.len() - 1 ==> #[trigger] goes_on(path, answers, i)
    &&& match end {
        Ok(ready) => path.last() == ready && ready.step == OpenStep::Ready,
        Err(_) => path.last().leads_to(answers, end),
    }
}

/// From the metadata on, readers and writers go the same way unless the metadata is vacant.
proof fn lemma_resumes(
    first: OpeningView,
    answers: SegmentAnswers,
    path: Seq<OpeningView>,
    end: Result<OpeningView, OpenFailure>,
    i: int,
)
    requires
        is_opening(first, answers, path, end),
        0 <= i < path.len(),
        path[i].step == OpenStep::ReadMetadata,
        path[i].folder == answers.folder,
        !(answers.metadata->0).is_vacant(),
    ensures
        path[i].resumes(answers, end),
{
    assert(i < path.len() - 1 ==> goes_on(path, answers, i));
    assert(i + 1 < path.len() - 1 ==> goes_on(path, answers, i + 1));
    assert(i + 2 < path.len() - 1 ==> goes_on(path, answers, i + 2));
    assert(i + 3 < path.len() - 1 ==> goes_on(path, answers, i + 3));
    assert(i + 4 < path.len() - 1 ==> goes_on(path, answers, i + 4));
}

/// How a persistent segment opens for reading depends on the answers in this order: the folder,
/// its name, the metadata, the index, the sequence id. Only a segment on which all of them agree
/// is opened, and it is opened with what was persisted.
pub proof fn law_reader_opens_sound_segments(
    configuration: HnswConfiguration,
    dimensionality: usize,
    answers: SegmentAnswers,
    path: Seq<OpeningView>,
    end: Result<OpeningView, OpenFailure>,
)
    requires
        is_opening(
            OpeningView::start(Access::Read, configuration, dimensionality, true),
            answers,
            path,
            end,
        ),
    ensures
        if !answers.folder_exists {
            end == Err::<OpeningView, _>(OpenFailure::UninitializedSegment)
        } else if answers.folder is None {
            end == Err::<OpeningView, _>(OpenFailure::PersistPath)
        } else if answers.metadata is None || (answers.metadata->0).is_vacant() {
            end == Err::<OpeningView, _>(OpenFailure::UninitializedSegment)
        } else {
            OpeningView::start(Access::Read, configuration, dimensionality, true).resumes(
                answers,
                end,
            )
        },
{
    let first = OpeningView::start(Access::Read, configuration, dimensionality, true);
    assert(0 < path.len() - 1 ==> goes_on(path, answers, 0));
    assert(1 < path.len() - 1 ==> goes_on(path, answers, 1));
    assert(2 < path.len() - 1 ==> goes_on(path, answers, 2));
    if answers.folder_exists && answers.folder is Some && answers.metadata is Some
        && !(answers.metadata->0).is_vacant() {
        lemma_resumes(first, answers, path, end, 2);
    }
}

/// How a persistent segment opens for writing: a missing folder is created and missing or vacant
/// metadata starts the segment afresh; otherwise it opens as for reading.
pub proof fn law_writer_opens_sound_or_new_segments(
    configuration: HnswConfiguration,
    dimensionality: usize,
    answers: SegmentAnswers,
    path: Seq<OpeningView>,
    end: Result<OpeningView, OpenFailure>,
)
    requires
        is_opening(
            OpeningView::start(Access::Write, configuration, dimensionality, true),
            answers,
            path,
            end,
        ),
    ensures
        ({
            let first = OpeningView::start(Access::Write, configuration, dimensionality, true);
            if answers.folder is None {
                end == Err::<OpeningView, _>(OpenFailure::PersistPath)
            } else if answers.metadata is None || (answers.metadata->0).is_vacant() {
                end == if answers.index_inits {
                    Ok(OpeningView { folder: answers.folder, ..first.at(OpenStep::Ready) })
                } else {
                    Err(OpenFailure::IndexInit)
                }
            } else {
                first.resumes(answers, end)
            }
        }),
{
    let first = OpeningView::start(Access::Write, configuration, dimensionality, true);
    assert(0 < path.len() - 1 ==> goes_on(path, answers, 0));
    assert(1 < path.len() - 1 ==> goes_on(path, answers, 1));
    assert(2 < path.len() - 1 ==> goes_on(path, answers, 2));
    assert(3 < path.len() - 1 ==> goes_on(path, answers, 3));
    assert(4 < path.len() - 1 ==> goes_on(path, answers, 4));
    assert(5 < path.len() - 1 ==> goes_on(path, answers, 5));
    if answers.folder is Some {
        let found = if answers.folder_exists {
            1int
        } else {
            2int
        };
        assert(path[found] == (OpeningView {
            folder: answers.folder,
            ..first.at(OpenStep::FindMetadata)
        }));
        if answers.metadata is Some && !(answers.metadata->0).is_vacant() {
            lemma_resumes(first, answers, path, end, found + 1);
        }
    }
}

} // verus!
