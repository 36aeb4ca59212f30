//! The verified core of a local HNSW vector segment: the identifier maps that tie user ids to
//! index labels, the rules by which persisted metadata is accepted, the application of a log to
//! the segment, and the decisions made while a segment is opened, queried and persisted.
pub mod atomic_write;
pub mod batch;
pub mod effects;
pub mod embeddings;
pub mod error;
pub mod history;
pub mod id_map;
pub mod id_table;
pub mod laws;
pub mod log;
pub mod models;
pub mod opening;
pub mod persistence;
pub mod query;
pub mod reader;
pub mod reopening;
pub mod search;
pub mod segment;
pub mod statements;
pub mod text;
pub mod writer;
