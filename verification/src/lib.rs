//! The logic of a time series object store: the record stream protocol, the write-ahead log,
//! the block index, quotas, the built-in benchmarks and the message routing.

pub mod api;
pub mod batch;
pub mod benchmark;
pub mod error;
pub mod numbers;
pub mod storage;
pub mod text;
