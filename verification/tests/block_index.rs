//! The block index.

use reductstore::error::{ErrorCode, ReductError};
use reductstore::storage::block_index::{
    check_empty_index, index_decode_failure, index_not_found, index_read_failure,
    index_write_failure, is_block_descriptor, loadable, ts_to_us, us_to_ts, Block, BlockEntry, BlockIndex,
    BlockIndexProto, MinimalBlock, Timestamp,
};
use std::sync::atomic::{AtomicU64, Ordering};
use std::sync::Arc;

fn entry(block_id: u64, size: u64, metadata_size: u64) -> BlockEntry {
    BlockEntry {
        block_id,
        size,
        record_count: 1,
        metadata_size,
        latest_record_time: Some(Timestamp::default()),
        crc64: None,
        compression: None,
        corrupted: None,
        version: None,
    }
}

fn block(block_id: u64) -> Block {
    Block {
        block_id,
        size: 0,
        record_count: 0,
        metadata_size: 0,
        latest_record_time: block_id,
    }
}

fn unused() -> BlockIndex {
    BlockIndex::new("unused".to_string())
}

fn fold_size(index: &BlockIndex) -> u64 {
    index
        .info()
        .values()
        .map(|block| block.size + block.metadata_size)
        .sum()
}

fn assert_counter_matches_fold(index: &BlockIndex) {
    assert_eq!(
        index.size_counter().load(Ordering::SeqCst),
        fold_size(index)
    );
    assert_eq!(index.size(), fold_size(index));
}

#[test]
fn tracks_insert_update_remove() {
    let mut index = unused();
    let counter = index.size_counter();
    assert_eq!(counter.load(Ordering::SeqCst), 0);

    index.insert_or_update(entry(1, 10, 2));
    index.insert_or_update_with_crc(entry(2, 5, 1), 7);
    assert_eq!(counter.load(Ordering::SeqCst), 18);
    assert_counter_matches_fold(&index);

    index.insert_or_update(entry(1, 4, 2));
    assert_eq!(counter.load(Ordering::SeqCst), 12);
    assert_counter_matches_fold(&index);

    assert!(index.update_block(2, |block| {
        block.size = 50;
        block.metadata_size = 0;
    }));
    assert_eq!(counter.load(Ordering::SeqCst), 56);
    assert_counter_matches_fold(&index);

    assert!(!index.update_block(99, |block| block.size = 1));
    assert_counter_matches_fold(&index);

    assert!(index.remove_block(1).is_some());
    assert_eq!(counter.load(Ordering::SeqCst), 50);
    assert_counter_matches_fold(&index);

    assert!(index.remove_block(1).is_none());
    index.remove_block(2);
    assert_eq!(counter.load(Ordering::SeqCst), 0);
    assert_counter_matches_fold(&index);
}

#[test]
fn tracks_blocks_from_block_struct() {
    let mut index = unused();
    let block = block(3);
    index.insert_or_update(block.into());
    index.insert_or_update(BlockEntry::from(block));
    assert_counter_matches_fold(&index);
    assert_eq!(
        index.get_block(3).unwrap().latest_record_time,
        Some(us_to_ts(3))
    );
}

#[test]
fn restored_from_disk() {
    let mut index = unused();
    index.insert_or_update(entry(1, 10, 2));
    index.insert_or_update(entry(2, 30, 4));
    let proto = index.to_proto();

    let loaded = BlockIndex::from_proto("unused".to_string(), proto).unwrap();
    assert_eq!(loaded.size_counter().load(Ordering::SeqCst), 46);
    assert_counter_matches_fold(&loaded);
}

#[test]
fn adopted_counter_is_published() {
    let mut index = unused();
    index.insert_or_update(entry(1, 10, 2));
    let shared = Arc::new(AtomicU64::new(999));

    index.adopt_size_counter(Arc::clone(&shared));
    assert_eq!(shared.load(Ordering::SeqCst), 12);

    index.insert_or_update(entry(2, 1, 1));
    assert_eq!(shared.load(Ordering::SeqCst), 14);
    assert_counter_matches_fold(&index);
}

#[test]
fn skip_corrupted_blocks() {
    let mut index = unused();
    assert_eq!(index.first_active_block_id(), None);
    assert_eq!(index.last_active_block_id(), None);
    assert_eq!(index.active_block_id_at(10), None);

    for block_id in [5u64, 10, 20] {
        index.insert_or_update(block(block_id).into());
    }
    index.mark_corrupted(5);
    index.mark_corrupted(20);

    assert_eq!(index.first_active_block_id(), Some(10));
    assert_eq!(index.last_active_block_id(), Some(10));
    assert_eq!(index.active_block_id_at(4), None);
    assert_eq!(index.active_block_id_at(5), None);
    assert_eq!(index.active_block_id_at(10), Some(10));
    assert_eq!(index.active_block_id_at(25), Some(10));
    assert_eq!(
        index.active_tree().iter().next_back().copied(),
        index.last_active_block_id()
    );
}

#[test]
fn block_index_test_ok() {
    let proto = BlockIndexProto {
        blocks: vec![entry(1, 1, 1)],
        crc64: 294433432134063049,
    };
    assert!(loadable(&proto));
    let index = BlockIndex::from_proto("index".to_string(), proto).unwrap();
    assert_eq!(index.size(), 2);
    assert_eq!(index.record_count(), 1);
    assert_eq!(index.tree().len(), 1);
    assert_eq!(index.path(), "index");

    let mut index = BlockIndex::new("index".to_string());
    index.insert_or_update(entry(1, 1, 1));
    let proto = index.to_proto();
    assert_eq!(proto.crc64, 294433432134063049);
    let loaded = BlockIndex::from_proto("index".to_string(), proto).unwrap();
    assert_eq!(loaded.size(), 2);
    assert_eq!(loaded.record_count(), 1);
    assert_eq!(loaded.tree().len(), 1);
}

fn internal_server_error(message: &str) -> ReductError {
    ReductError::new(ErrorCode::InternalServerError, message)
}

#[test]
fn test_index_file_not_found() {
    assert_eq!(
        index_not_found("not_found"),
        internal_server_error("Block index \"not_found\" not found")
    );
}

#[test]
fn test_index_file_corrupted() {
    let proto = BlockIndexProto {
        blocks: vec![entry(1, 1, 1)],
        crc64: 0,
    };
    let err = BlockIndex::from_proto("some/path".to_string(), proto)
        .err()
        .unwrap();
    assert_eq!(
        err,
        internal_server_error("Block index \"some/path\" is corrupted")
    );
}

#[test]
fn test_decode_err() {
    assert_eq!(
        index_decode_failure(
            "p",
            "failed to decode Protobuf message: invalid tag value: 0"
        ),
        internal_server_error(
            "Failed to decode block index \"p\": failed to decode Protobuf message: invalid tag value: 0"
        )
    );
}

#[test]
fn other_file_errors() {
    assert_eq!(
        index_read_failure("p", "boom"),
        internal_server_error("Failed to read block index \"p\": boom")
    );
    assert_eq!(
        index_write_failure("p\"q", "boom"),
        internal_server_error("Failed to write block index \"p\\\"q\": boom")
    );
    assert_eq!(
        check_empty_index("p", 0, true),
        Err(internal_server_error("Block index \"p\" is empty"))
    );
    assert_eq!(check_empty_index("p", 0, false), Ok(()));
    assert_eq!(check_empty_index("p", 1, true), Ok(()));
}

#[test]
fn test_corrupted_round_trip() {
    let mut index = unused();
    index.insert_or_update(entry(1, 1, 1));
    index.mark_corrupted(1);

    assert!(index.is_corrupted(1));
    assert_eq!(index.corrupted_block_count(), 1);
    assert_eq!(index.corrupted_block_ids(), vec![1]);

    let index = BlockIndex::from_proto("unused".to_string(), index.to_proto()).unwrap();
    assert!(index.is_corrupted(1));
    assert_eq!(index.corrupted_block_count(), 1);
    assert_eq!(index.corrupted_block_ids(), vec![1]);
}

fn versioned(version: Option<u64>) -> BlockEntry {
    BlockEntry {
        version,
        ..entry(1, 1, 1)
    }
}

#[test]
fn keeps_version_when_update_has_none() {
    let mut index = BlockIndex::new(String::new());
    index.insert_or_update_with_crc(versioned(Some(3)), 7);
    index.insert_or_update(versioned(None));

    let block = index.get_block(1).unwrap();
    assert_eq!(block.version, Some(3));
    assert_eq!(block.crc64, None);
}

#[test]
fn takes_explicit_version() {
    let mut index = BlockIndex::new(String::new());
    index.insert_or_update(versioned(Some(3)));
    index.insert_or_update(versioned(Some(5)));

    assert_eq!(index.get_block(1).unwrap().version, Some(5));
}

#[test]
fn a_round_trip_keeps_every_field() {
    let mut index = unused();
    for id in [40u64, 7, 300] {
        index.insert_or_update(BlockEntry {
            block_id: id,
            size: id * 2,
            record_count: id + 1,
            metadata_size: 3,
            latest_record_time: Some(us_to_ts(id * 1_000_001)),
            crc64: Some(id ^ 5),
            compression: Some(1),
            corrupted: Some(id == 7),
            version: Some(id),
        });
    }
    let proto = index.to_proto();
    let ids: Vec<u64> = proto.blocks.iter().map(|block| block.block_id).collect();
    assert_eq!(ids, vec![7, 40, 300]);
    let loaded = BlockIndex::from_proto("unused".to_string(), proto).unwrap();
    assert_eq!(loaded.info(), index.info());
    assert_eq!(loaded.record_count(), 350);
    assert_eq!(loaded.corrupted_block_ids(), vec![7]);
    assert_eq!(loaded.first_active_block_id(), Some(40));
}

#[test]
fn the_checksum_covers_the_blocks() {
    let mut index = unused();
    index.insert_or_update(BlockEntry {
        crc64: Some(9),
        corrupted: Some(true),
        version: Some(2),
        latest_record_time: Some(us_to_ts(5)),
        ..entry(1, 2, 3)
    });
    let mut digest = crc64fast::Digest::new();
    for number in [1u64, 2, 1, 3, 5, 9] {
        digest.write(&number.to_be_bytes());
    }
    digest.write(&[1]);
    digest.write(&2u64.to_be_bytes());
    assert_eq!(index.to_proto().crc64, digest.sum64());
}

#[test]
fn blocks_from_descriptors() {
    let minimal = MinimalBlock {
        begin_time: Some(us_to_ts(1_500_000)),
        size: 10,
        record_count: 2,
        metadata_size: 4,
        latest_record_time: Some(us_to_ts(9)),
        corrupted: Some(false),
        version: Some(6),
    };
    assert_eq!(
        minimal.into_entry(),
        BlockEntry {
            block_id: 1_500_000,
            size: 10,
            record_count: 2,
            metadata_size: 4,
            latest_record_time: Some(Timestamp {
                seconds: 0,
                nanos: 9_000
            }),
            crc64: None,
            compression: None,
            corrupted: Some(false),
            version: Some(6),
        }
    );
}

#[test]
fn times_in_microseconds() {
    for us in [0, 1, 999_999, 1_000_000, 1_700_000_000_123_456, u64::MAX] {
        assert_eq!(ts_to_us(&us_to_ts(us)), us);
    }
    assert_eq!(
        us_to_ts(2_000_003),
        Timestamp {
            seconds: 2,
            nanos: 3_000
        }
    );
    // More nanoseconds than a second has are counted too.
    let long = Timestamp {
        seconds: 1,
        nanos: 2_000_000_500,
    };
    assert_eq!(ts_to_us(&long), 3_000_000);
}

#[test]
fn some_blocks_cannot_be_loaded() {
    let proto = |block: BlockEntry| BlockIndexProto {
        blocks: vec![block],
        crc64: 0,
    };
    assert!(loadable(&proto(entry(1, 1, 1))));
    assert!(!loadable(&proto(BlockEntry {
        latest_record_time: None,
        ..entry(1, 1, 1)
    })));
    assert!(!loadable(&proto(entry(1, u64::MAX, 1))));
    assert!(!loadable(&proto(BlockEntry {
        latest_record_time: Some(Timestamp {
            seconds: -1,
            nanos: 0
        }),
        ..entry(1, 1, 1)
    })));
    assert!(loadable(&proto(BlockEntry {
        latest_record_time: Some(us_to_ts(u64::MAX)),
        ..entry(1, 1, 1)
    })));
    assert!(!loadable(&proto(BlockEntry {
        latest_record_time: Some(Timestamp {
            seconds: 18_446_744_073_709,
            nanos: 551_616_000
        }),
        ..entry(1, 1, 1)
    })));
}

#[test]
fn the_end_of_time_is_counted() {
    let at = |seconds: i64, nanos: i32| BlockIndexProto {
        blocks: vec![BlockEntry {
            latest_record_time: Some(Timestamp { seconds, nanos }),
            ..entry(1, 1, 1)
        }],
        crc64: 0,
    };
    assert!(loadable(&at(0, i32::MAX)));
    assert!(loadable(&at(18_446_744_073_708, 1_551_615_999)));
    assert!(!loadable(&at(18_446_744_073_708, 1_551_616_000)));
    assert!(!loadable(&at(18_446_744_073_710, 0)));
    assert!(!loadable(&at(i64::MAX, 0)));
    assert!(!loadable(&at(0, -1)));
}

#[test]
fn an_update_may_fail_to_find_its_block() {
    let mut index = unused();
    index.insert_or_update(entry(1, 1, 1));
    index.mark_corrupted(2);
    assert!(!index.is_corrupted(2));
    assert_eq!(index.get_block(2), None);
    assert_eq!(index.remove_block(2), None);
    assert!(index.update_block(1, |block| block.corrupted = Some(true)));
    assert_eq!(index.first_active_block_id(), None);
    assert!(index.active_tree().is_empty());
}

#[test]
fn descriptors_have_their_names() {
    for name in ["1.meta", "1.meta.zst", "18446744073709551615.meta", ".meta"] {
        assert!(is_block_descriptor(name));
    }
    for name in ["1.blk", "blocks.idx", "meta", "1.meta.tmp", "1.zst", ""] {
        assert!(!is_block_descriptor(name));
    }
}

#[test]
fn blocks_stay_under_their_own_ids() {
    let mut index = unused();
    for block_id in [3, 1, 2] {
        index.insert_or_update(entry(block_id, 10, 1));
    }
    index.mark_corrupted(2);
    index.remove_block(3);
    index.insert_or_update_with_crc(entry(1, 20, 2), 7);
    for (block_id, block) in index.info() {
        assert_eq!(*block_id, block.block_id);
    }
    let restored = BlockIndex::from_proto("index".to_string(), index.to_proto()).unwrap();
    assert_eq!(restored.info(), index.info());
}
