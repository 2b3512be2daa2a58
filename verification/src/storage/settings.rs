//! The settings of a bucket.

use vstd::prelude::*;

verus! {

/// What happens when a bucket reaches its size limit.
#[derive(Debug, Clone, Copy, PartialEq, Eq, Structural)]
pub enum QuotaType {
    /// There is no limit.
    NONE,
    /// The oldest blocks make room.
    FIFO,
    /// Writes are refused.
    HARD,
}

/// The settings of a bucket; what is not set takes the default.
#[derive(Debug, Clone, Copy, PartialEq, Eq)]
pub struct BucketSettings {
    pub quota_type: Option<QuotaType>,
    pub quota_size: Option<u64>,
    pub max_block_size: Option<u64>,
    pub max_block_records: Option<u64>,
}

impl Default for BucketSettings {
    fn default() -> (r: BucketSettings)
        ensures
            r == (BucketSettings {
                quota_type: None,
                quota_size: None,
                max_block_size: None,
                max_block_records: None,
            }),
    {
        BucketSettings {
            quota_type: None,
            quota_size: None,
            max_block_size: None,
            max_block_records: None,
        }
    }
}

} // verus!
