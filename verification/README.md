# local_hnsw

The verified core of a local HNSW vector segment, and the program parts around it.

A segment ties user ids to the labels of an HNSW index, is built by applying a log to it, keeps its
identifier maps beside the index on disk, and keeps the log offset up to which it was applied in
SQLite.

- `src/` holds what a segment decides and computes: which persisted maps are accepted, what a chunk
  of the log does, in which order a segment is opened and persisted, how a query is answered, and
  the SQL it needs. Verus proves it. `laws.rs`, `history.rs`, `embeddings.rs`, `opening.rs`,
  `query.rs` and `atomic_write.rs` state what holds of a segment over its whole life.
- `app/` does the input and output: files, SQLite, and the calls into the index.
- `tests/` runs the library, on a disk, an index and a database that live in memory where a test
  needs them.

Trusted without proof are the three functions of `src/statements.rs` that have `sea_query` render a
statement.
