//! What the storage keeps on disk.

pub mod binary;
pub mod block_index;
pub mod ids;
pub mod index_laws;
pub mod quotas;
pub mod settings;
pub mod sums;
pub mod wal;
pub mod wal_laws;
