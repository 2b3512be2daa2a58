//! Quotas and free space.

use reductstore::error::{ErrorCode, ReductError};
use reductstore::storage::quotas::{
    available_disk_space, cached_size, check_free_disk_space, check_hard_quota, check_space,
    eviction_order, free_space_failure, quota_check, Eviction, EvictionAction, EvictionCandidate,
    EvictionEvent, FreeSpaceCache, QuotaCheck,
};
use reductstore::storage::settings::{BucketSettings, QuotaType};
use std::cell::Cell;

const SECOND: u128 = 1_000_000_000;

/// A bucket in memory: per entry whether its blocks may go, and its blocks with their size and
/// oldest record.
struct Bucket {
    entries: Vec<(bool, Vec<(u64, u64)>)>,
    stuck: Vec<usize>,
}

impl Bucket {
    fn size(&self) -> u64 {
        let sizes: Vec<u64> = self
            .entries
            .iter()
            .map(|(_, blocks)| blocks.iter().map(|block| block.1).sum())
            .collect();
        cached_size(&sizes)
    }

    fn keep_quota(&mut self, content_size: u64, quota_size: u64) -> Result<(), ReductError> {
        let mut eviction = Eviction::new("test".to_string(), content_size, quota_size);
        let mut event = EvictionEvent::Size(self.size());
        loop {
            event = match eviction.step(event) {
                EvictionAction::Measure => EvictionEvent::Size(self.size()),
                EvictionAction::List => EvictionEvent::Entries(
                    self.entries
                        .iter()
                        .map(|(eligible, blocks)| EvictionCandidate {
                            oldest_record: blocks.first().map(|block| block.0).unwrap_or(0),
                            eligible: *eligible,
                        })
                        .collect(),
                ),
                EvictionAction::RemoveFrom(i) => {
                    let can = !self.stuck.contains(&i) && !self.entries[i].1.is_empty();
                    if can {
                        self.entries[i].1.remove(0);
                    }
                    EvictionEvent::Removed(can)
                }
                EvictionAction::Finish(result) => return result,
            }
        }
    }
}

#[test]
fn test_fifo_quota_keeping() {
    let mut bucket = Bucket {
        entries: vec![(true, vec![(0, 44)]), (true, vec![(1, 47)])],
        stuck: vec![],
    };
    assert_eq!(bucket.size(), 91);
    bucket.keep_quota(40, 120).unwrap();
    assert!(bucket.entries[0].1.is_empty());
    assert_eq!(bucket.entries[1].1.len(), 1);
    assert!(bucket.size() + 40 <= 120);
}

#[test]
fn test_fifo_quota_ignores_meta_entries_for_eviction() {
    let mut bucket = Bucket {
        entries: vec![(false, vec![(0, 44)]), (true, vec![(1, 47)])],
        stuck: vec![],
    };
    bucket.keep_quota(40, 120).unwrap();
    assert_eq!(bucket.entries[0].1.len(), 1);
    assert!(bucket.entries[1].1.is_empty());
}

#[test]
fn test_hard_quota_keeping() {
    assert_eq!(check_hard_quota("test", 0, 40, 100), Ok(()));
    assert_eq!(check_hard_quota("test", 60, 40, 100), Ok(()));
    assert_eq!(
        check_hard_quota("test", 88, 40, 100),
        Err(ReductError::new(
            ErrorCode::BadRequest,
            "Quota of 'test' exceeded"
        ))
    );
}

#[test]
fn test_blob_bigger_than_quota() {
    let mut bucket = Bucket {
        entries: vec![(true, vec![(0, 24)])],
        stuck: vec![],
    };
    assert_eq!(bucket.size(), 24);
    assert_eq!(
        bucket.keep_quota(13, 10).err(),
        Some(ReductError::new(
            ErrorCode::InternalServerError,
            "Failed to keep quota of 'test'"
        ))
    );
}

#[test]
fn an_entry_that_is_stuck_is_passed_over() {
    let mut bucket = Bucket {
        entries: vec![
            (true, vec![(5, 10), (6, 10)]),
            (true, vec![(1, 10)]),
            (true, vec![(5, 10)]),
        ],
        stuck: vec![1],
    };
    bucket.keep_quota(10, 30).unwrap();
    assert_eq!(bucket.entries[0].1, vec![(6, 10)]);
    assert_eq!(bucket.entries[1].1.len(), 1);
    assert!(bucket.entries[2].1.is_empty());
}

#[test]
fn the_oldest_records_go_first() {
    let candidate = |oldest_record, eligible| EvictionCandidate {
        oldest_record,
        eligible,
    };
    let entries = vec![
        candidate(7, true),
        candidate(3, true),
        candidate(1, false),
        candidate(7, true),
        candidate(0, true),
        candidate(3, true),
    ];
    assert_eq!(eviction_order(&entries), vec![4, 1, 5, 0, 3]);
    assert!(eviction_order(&vec![]).is_empty());
}

#[test]
fn settings_choose_the_check() {
    let with = |quota_type, quota_size| BucketSettings {
        quota_type,
        quota_size,
        ..BucketSettings::default()
    };
    assert_eq!(
        quota_check(&BucketSettings::default()),
        QuotaCheck::Unlimited
    );
    assert_eq!(
        quota_check(&with(Some(QuotaType::NONE), Some(5))),
        QuotaCheck::Unlimited
    );
    assert_eq!(
        quota_check(&with(Some(QuotaType::FIFO), Some(5))),
        QuotaCheck::Evict(5)
    );
    assert_eq!(
        quota_check(&with(Some(QuotaType::HARD), None)),
        QuotaCheck::Limit(0)
    );
}

#[test]
fn test_write_rejected_when_disk_full() {
    let mut cache = FreeSpaceCache::default();
    let err = check_free_disk_space(&mut cache, 0, 0, 40, || Ok(10)).unwrap_err();
    assert_eq!(err.status, ErrorCode::InsufficientStorage);
    assert_eq!(
        err.message,
        "Not enough free disk space in the data folder to write a record of 40 bytes: only 10 bytes available"
    );
}

#[test]
fn test_write_allowed_when_disk_has_space() {
    let mut cache = FreeSpaceCache::default();
    assert_eq!(
        check_free_disk_space(&mut cache, 0, 0, 40, || Ok(1_000_000)),
        Ok(())
    );
    assert_eq!(check_space(10, 10), Ok(()));
}

#[test]
fn test_free_space_sampled_every_write_by_default() {
    let calls = Cell::new(0);
    let mut cache = FreeSpaceCache::default();
    for _ in 0..2 {
        check_free_disk_space(&mut cache, 5, 0, 10, || {
            calls.set(calls.get() + 1);
            Ok(1_000_000)
        })
        .unwrap();
    }
    assert_eq!(calls.get(), 2);
}

#[test]
fn test_free_space_cached_within_interval() {
    let calls = Cell::new(0);
    let mut cache = FreeSpaceCache::default();
    let mut check = |size: u64| {
        check_free_disk_space(&mut cache, 5, 3600 * SECOND, size, || {
            calls.set(calls.get() + 1);
            Ok(20)
        })
    };
    check(10).unwrap();
    check(10).unwrap();
    let err = check(30).unwrap_err();
    assert_eq!(err.status, ErrorCode::InsufficientStorage);
    assert_eq!(calls.get(), 1);
}

#[test]
fn test_free_space_cache_refreshes_when_stale() {
    let mut cache = FreeSpaceCache::default();
    assert_eq!(cache.get_or_refresh(0, 0, || Ok(5)).unwrap(), 5);
    assert_eq!(cache.get_or_refresh(0, 0, || Ok(7)).unwrap(), 7);
    assert_eq!(cache.get_or_refresh(1, 3_600_000, || Ok(9)).unwrap(), 7);
}

#[test]
fn a_failed_sample_is_not_kept() {
    let mut cache = FreeSpaceCache::default();
    cache.get_or_refresh(10, 100, || Ok(5)).unwrap();
    let failed = cache.get_or_refresh(200, 100, || Err(free_space_failure("boom")));
    assert_eq!(failed, Err(free_space_failure("boom")));
    assert_eq!(cache.get_or_refresh(109, 100, || Ok(9)), Ok(5));
    assert_eq!(cache.get_or_refresh(110, 100, || Ok(9)), Ok(9));
    assert_eq!(cache.get_or_refresh(3, 100, || Ok(1)), Ok(9));
}

#[test]
fn an_interval_below_a_millisecond_samples_every_time() {
    let mut cache = FreeSpaceCache::default();
    assert_eq!(available_disk_space(&mut cache, 1, 999_999, || Ok(5)), Ok(5));
    assert_eq!(available_disk_space(&mut cache, 1, 999_999, || Ok(6)), Ok(6));
    assert_eq!(
        available_disk_space(&mut cache, 1, 1_000_000, || Ok(7)),
        Ok(6)
    );
}

#[test]
fn test_disk_full_error_surfaces_provider_failure() {
    let mut cache = FreeSpaceCache::default();
    let err = check_free_disk_space(&mut cache, 0, 0, 40, || Err(free_space_failure("boom")))
        .unwrap_err();
    assert_eq!(err.status, ErrorCode::InternalServerError);
    assert_eq!(
        err.message(),
        "Failed to query free disk space for the data folder: boom"
    );
}
