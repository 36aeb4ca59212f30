[package]
name = "local_hnsw"
version = "0.1.0"
edition = "2021"
publish = false

[dependencies]
rayon = "1"
sea-query = "0.32"
sea-query-binder = { version = "0.7", features = ["sqlx-sqlite"] }
serde = { version = "1", features = ["derive"] }
serde-pickle = "1"
sqlx = { version = "0.8", default-features = false, features = ["runtime-tokio", "sqlite"] }
tempfile = "3"
thiserror = "1"
tokio = { version = "1", features = ["fs", "rt", "sync"] }
tracing = "0.1"
