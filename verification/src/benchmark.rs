//! The benchmarks that are built into the store.

pub mod api;
pub mod config;
pub mod disk;
pub mod disk_laws;
pub mod guard;
pub mod ingest;
pub mod ingest_history;
pub mod ingest_laws;
pub mod latency_laws;
pub mod list;
pub mod random;
pub mod read;
pub mod validation;
