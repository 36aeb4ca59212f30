//! The errors of the segment reader and writer, their codes and their messages.
use crate::text::signed_decimal_text;
use vstd::prelude::*;
use vstd::string::*;

verus! {

/// The classes into which errors are sorted.
#[derive(Clone, Copy, Debug, PartialEq, Eq, Structural)]
pub enum ErrorCodes {
    Success,
    Cancelled,
    Unknown,
    InvalidArgument,
    DeadlineExceeded,
    NotFound,
    AlreadyExists,
    PermissionDenied,
    ResourceExhausted,
    FailedPrecondition,
    Aborted,
    OutOfRange,
    Unimplemented,
    Internal,
    Unavailable,
    DataLoss,
    Unauthenticated,
    VersionMismatch,
    UnprocessableEntity,
}

/// Why a configuration was refused: the code and the text that its reader gave.
#[derive(Debug)]
pub struct ConfigurationError {
    pub code: ErrorCodes,
    pub message: String,
}

/// What can go wrong while a segment is opened for reading or read.
#[derive(Debug)]
pub enum LocalHnswSegmentReaderError {
    PickleFileOpenError(String),
    PickleFileDeserializeError(String),
    HnswIndexLoadError,
    UninitializedSegment,
    MissingHnswConfiguration,
    InvalidHnswConfiguration(ConfigurationError),
    PersistPathError,
    IdNotFound,
    GetEmbeddingError,
    QueryError,
    SqliteError(String),
    InvalidPersistedMetadata(String),
}

impl LocalHnswSegmentReaderError {
    /// The code of the error.
    pub open spec fn spec_code(&self) -> ErrorCodes {
        match self {
            LocalHnswSegmentReaderError::InvalidHnswConfiguration(err) => err.code,
            _ => ErrorCodes::Internal,
        }
    }

    /// The text of the error.
    pub open spec fn spec_message(&self) -> Seq<char> {
        match self {
            LocalHnswSegmentReaderError::PickleFileOpenError(err) => "Error opening pickle file: "@
                + err@,
            LocalHnswSegmentReaderError::PickleFileDeserializeError(err) =>
                "Error deserializing pickle file: "@ + err@,
            LocalHnswSegmentReaderError::HnswIndexLoadError => "Error loading hnsw index"@,
            LocalHnswSegmentReaderError::UninitializedSegment => "Nothing found on disk"@,
            LocalHnswSegmentReaderError::MissingHnswConfiguration =>
                "Collection is missing HNSW configuration"@,
            LocalHnswSegmentReaderError::InvalidHnswConfiguration(err) =>
                "Could not parse HNSW configuration: "@ + err.message@,
            LocalHnswSegmentReaderError::PersistPathError => "Error serializing path to string"@,
            LocalHnswSegmentReaderError::IdNotFound => "Error finding id"@,
            LocalHnswSegmentReaderError::GetEmbeddingError => "Error getting embedding"@,
            LocalHnswSegmentReaderError::QueryError => "Error querying knn"@,
            LocalHnswSegmentReaderError::SqliteError(err) => "Error reading from sqlite: "@ + err@,
            LocalHnswSegmentReaderError::InvalidPersistedMetadata(reason) =>
                "Invalid persisted local HNSW metadata: "@ + reason@,
        }
    }

    /// The code of the error: that of the configuration error it wraps, else internal.
    pub fn code(&self) -> (code: ErrorCodes)
        ensures
            code == self.spec_code(),
    {
        match self {
            LocalHnswSegmentReaderError::PickleFileOpenError(_) => ErrorCodes::Internal,
            LocalHnswSegmentReaderError::PickleFileDeserializeError(_) => ErrorCodes::Internal,
            LocalHnswSegmentReaderError::HnswIndexLoadError => ErrorCodes::Internal,
            LocalHnswSegmentReaderError::UninitializedSegment => ErrorCodes::Internal,
            LocalHnswSegmentReaderError::MissingHnswConfiguration => ErrorCodes::Internal,
            LocalHnswSegmentReaderError::InvalidHnswConfiguration(err) => err.code,
            LocalHnswSegmentReaderError::PersistPathError => ErrorCodes::Internal,
            LocalHnswSegmentReaderError::IdNotFound => ErrorCodes::Internal,
            LocalHnswSegmentReaderError::GetEmbeddingError => ErrorCodes::Internal,
            LocalHnswSegmentReaderError::QueryError => ErrorCodes::Internal,
            LocalHnswSegmentReaderError::SqliteError(_) => ErrorCodes::Internal,
            LocalHnswSegmentReaderError::InvalidPersistedMetadata(_) => ErrorCodes::Internal,
        }
    }

    /// The text of the error.
    pub fn message(&self) -> (text: String)
        ensures
            text@ == self.spec_message(),
    {
        match self {
            LocalHnswSegmentReaderError::PickleFileOpenError(
                err,
            ) => "Error opening pickle file: ".to_string().concat(err.as_str()),
            LocalHnswSegmentReaderError::PickleFileDeserializeError(
                err,
            ) => "Error deserializing pickle file: ".to_string().concat(err.as_str()),
            LocalHnswSegmentReaderError::HnswIndexLoadError =>
                "Error loading hnsw index".to_string(),
            LocalHnswSegmentReaderError::UninitializedSegment =>
                "Nothing found on disk".to_string(),
            LocalHnswSegmentReaderError::MissingHnswConfiguration =>
                "Collection is missing HNSW configuration".to_string(),
            LocalHnswSegmentReaderError::InvalidHnswConfiguration(
                err,
            ) => "Could not parse HNSW configuration: ".to_string().concat(err.message.as_str()),
            LocalHnswSegmentReaderError::PersistPathError =>
                "Error serializing path to string".to_string(),
            LocalHnswSegmentReaderError::IdNotFound => "Error finding id".to_string(),
            LocalHnswSegmentReaderError::GetEmbeddingError =>
                "Error getting embedding".to_string(),
            LocalHnswSegmentReaderError::QueryError => "Error querying knn".to_string(),
            LocalHnswSegmentReaderError::SqliteError(
                err,
            ) => "Error reading from sqlite: ".to_string().concat(err.as_str()),
            LocalHnswSegmentReaderError::InvalidPersistedMetadata(
                reason,
            ) => "Invalid persisted local HNSW metadata: ".to_string().concat(reason.as_str()),
        }
    }
}

/// What can go wrong while a segment is opened for writing or written.
#[derive(Debug)]
pub enum LocalHnswSegmentWriterError {
    HnswConfigError(ConfigurationError),
    PickleFileOpenError(String),
    PickleFileSerializeError(String),
    PickleFileDeserializeError(String),
    HnswIndexLoadError,
    UninitializedSegment,
    MissingHnswConfiguration,
    InvalidHnswConfiguration(ConfigurationError),
    HnswIndexInitError,
    HnswIndexPersistError,
    EmbeddingNotFound,
    HnwsIndexAddError,
    HnswIndexResizeError,
    HnswIndexDeleteError,
    PersistPathError,
    InvalidLogOffset(i64),
    QueryBuilderError(String),
    MaxSeqIdUpdateError(String),
    InvalidPersistedMetadata(String),
}

impl LocalHnswSegmentWriterError {
    /// The code of the error.
    pub open spec fn spec_code(&self) -> ErrorCodes {
        match self {
            LocalHnswSegmentWriterError::HnswConfigError(err) => err.code,
            LocalHnswSegmentWriterError::InvalidHnswConfiguration(err) => err.code,
            LocalHnswSegmentWriterError::EmbeddingNotFound => ErrorCodes::InvalidArgument,
            _ => ErrorCodes::Internal,
        }
    }

    /// The text of the error.
    pub open spec fn spec_message(&self) -> Seq<char> {
        match self {
            LocalHnswSegmentWriterError::HnswConfigError(_) =>
                "Error creating hnsw config object"@,
            LocalHnswSegmentWriterError::PickleFileOpenError(_) => "Error opening pickle file"@,
            LocalHnswSegmentWriterError::PickleFileSerializeError(_) =>
                "Error serializing pickle file"@,
            LocalHnswSegmentWriterError::PickleFileDeserializeError(_) =>
                "Error deserializing pickle file"@,
            LocalHnswSegmentWriterError::HnswIndexLoadError => "Error loading hnsw index"@,
            LocalHnswSegmentWriterError::UninitializedSegment => "Nothing found on disk"@,
            LocalHnswSegmentWriterError::MissingHnswConfiguration =>
                "Collection is missing HNSW configuration"@,
            LocalHnswSegmentWriterError::InvalidHnswConfiguration(err) =>
                "Could not parse HNSW configuration: "@ + err.message@,
            LocalHnswSegmentWriterError::HnswIndexInitError => "Error creating hnsw index"@,
            LocalHnswSegmentWriterError::HnswIndexPersistError => "Error persisting hnsw index"@,
            LocalHnswSegmentWriterError::EmbeddingNotFound => "Error applying log chunk"@,
            LocalHnswSegmentWriterError::HnwsIndexAddError => "Error applying log chunk"@,
            LocalHnswSegmentWriterError::HnswIndexResizeError => "Error applying log chunk"@,
            LocalHnswSegmentWriterError::HnswIndexDeleteError => "Error applying log chunk"@,
            LocalHnswSegmentWriterError::PersistPathError =>
                "Error converting persistant path to string"@,
            LocalHnswSegmentWriterError::InvalidLogOffset(offset) =>
                "Invalid log offset for persisted HNSW metadata: "@ + crate::text::signed_decimal(
                *offset as int,
            ),
            LocalHnswSegmentWriterError::QueryBuilderError(_) => "Error updating max sequence id"@,
            LocalHnswSegmentWriterError::MaxSeqIdUpdateError(_) =>
                "Error updating max sequence id"@,
            LocalHnswSegmentWriterError::InvalidPersistedMetadata(reason) =>
                "Invalid persisted local HNSW metadata: "@ + reason@,
        }
    }

    /// The code of the error: that of the configuration error it wraps, invalid argument for a
    /// missing embedding, else internal.
    pub fn code(&self) -> (code: ErrorCodes)
        ensures
            code == self.spec_code(),
    {
        match self {
            LocalHnswSegmentWriterError::HnswConfigError(err) => err.code,
            LocalHnswSegmentWriterError::PickleFileOpenError(_) => ErrorCodes::Internal,
            LocalHnswSegmentWriterError::PickleFileSerializeError(_) => ErrorCodes::Internal,
            LocalHnswSegmentWriterError::PickleFileDeserializeError(_) => ErrorCodes::Internal,
            LocalHnswSegmentWriterError::HnswIndexLoadError => ErrorCodes::Internal,
            LocalHnswSegmentWriterError::UninitializedSegment => ErrorCodes::Internal,
            LocalHnswSegmentWriterError::MissingHnswConfiguration => ErrorCodes::Internal,
            LocalHnswSegmentWriterError::InvalidHnswConfiguration(err) => err.code,
            LocalHnswSegmentWriterError::HnswIndexInitError => ErrorCodes::Internal,
            LocalHnswSegmentWriterError::HnswIndexPersistError => ErrorCodes::Internal,
            LocalHnswSegmentWriterError::EmbeddingNotFound => ErrorCodes::InvalidArgument,
            LocalHnswSegmentWriterError::HnwsIndexAddError => ErrorCodes::Internal,
            LocalHnswSegmentWriterError::HnswIndexResizeError => ErrorCodes::Internal,
            LocalHnswSegmentWriterError::HnswIndexDeleteError => ErrorCodes::Internal,
            LocalHnswSegmentWriterError::PersistPathError => ErrorCodes::Internal,
            LocalHnswSegmentWriterError::InvalidLogOffset(_) => ErrorCodes::Internal,
            LocalHnswSegmentWriterError::QueryBuilderError(_) => ErrorCodes::Internal,
            LocalHnswSegmentWriterError::MaxSeqIdUpdateError(_) => ErrorCodes::Internal,
            LocalHnswSegmentWriterError::InvalidPersistedMetadata(_) => ErrorCodes::Internal,
        }
    }

    /// The text of the error.
    pub fn message(&self) -> (text: String)
        ensures
            text@ == self.spec_message(),
    {
        match self {
            LocalHnswSegmentWriterError::HnswConfigError(_) =>
                "Error creating hnsw config object".to_string(),
            LocalHnswSegmentWriterError::PickleFileOpenError(_) =>
                "Error opening pickle file".to_string(),
            LocalHnswSegmentWriterError::PickleFileSerializeError(_) =>
                "Error serializing pickle file".to_string(),
            LocalHnswSegmentWriterError::PickleFileDeserializeError(_) =>
                "Error deserializing pickle file".to_string(),
            LocalHnswSegmentWriterError::HnswIndexLoadError =>
                "Error loading hnsw index".to_string(),
            LocalHnswSegmentWriterError::UninitializedSegment =>
                "Nothing found on disk".to_string(),
            LocalHnswSegmentWriterError::MissingHnswConfiguration =>
                "Collection is missing HNSW configuration".to_string(),
            LocalHnswSegmentWriterError::InvalidHnswConfiguration(
                err,
            ) => "Could not parse HNSW configuration: ".to_string().concat(err.message.as_str()),
            LocalHnswSegmentWriterError::HnswIndexInitError =>
                "Error creating hnsw index".to_string(),
            LocalHnswSegmentWriterError::HnswIndexPersistError =>
                "Error persisting hnsw index".to_string(),
            LocalHnswSegmentWriterError::EmbeddingNotFound =>
                "Error applying log chunk".to_string(),
            LocalHnswSegmentWriterError::HnwsIndexAddError =>
                "Error applying log chunk".to_string(),
            LocalHnswSegmentWriterError::HnswIndexResizeError =>
                "Error applying log chunk".to_string(),
            LocalHnswSegmentWriterError::HnswIndexDeleteError =>
                "Error applying log chunk".to_string(),
            LocalHnswSegmentWriterError::PersistPathError =>
                "Error converting persistant path to string".to_string(),
            LocalHnswSegmentWriterError::InvalidLogOffset(
                offset,
            ) => "Invalid log offset for persisted HNSW metadata: ".to_string().concat(
                signed_decimal_text(*offset).as_str(),
            ),
            LocalHnswSegmentWriterError::QueryBuilderError(_) =>
                "Error updating max sequence id".to_string(),
            LocalHnswSegmentWriterError::MaxSeqIdUpdateError(_) =>
                "Error updating max sequence id".to_string(),
            LocalHnswSegmentWriterError::InvalidPersistedMetadata(
                reason,
            ) => "Invalid persisted local HNSW metadata: ".to_string().concat(reason.as_str()),
        }
    }
}

} // verus!
