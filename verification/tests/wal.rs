//! The write-ahead log, over files in memory.

use reductstore::error::{ErrorCode, ReductError};
use reductstore::storage::binary::{put_be, read_be};
use reductstore::storage::wal::{
    migrates_legacy_dir, read_entries, WalEntry, WalImpl, LEGACY_WAL_DIR, STOP_MARKER, WAL_DIR,
    WAL_FILE_SIZE,
};
use std::collections::BTreeMap;

/// A log directory in memory.
struct Dir {
    files: BTreeMap<String, Vec<u8>>,
}

impl Dir {
    fn new() -> Dir {
        Dir {
            files: BTreeMap::new(),
        }
    }

    fn open(&self) -> WalImpl {
        WalImpl::try_build(&self.files.keys().cloned().collect())
    }

    fn append(&mut self, wal: &mut WalImpl, block_id: u64, entry: WalEntry) -> u64 {
        let name = WalImpl::block_wal_name(block_id);
        let exists = wal.position_unknown(block_id) && self.files.contains_key(&name);
        let write = wal.plan_append(block_id, exists, &entry);
        let file = self.files.entry(name).or_default();
        if let Some(size) = write.grow_to {
            file.resize(size as usize, 0);
        }
        let start = write.start as usize;
        let end = start + write.bytes.len();
        if file.len() < end {
            file.resize(end, 0);
        }
        file[start..end].copy_from_slice(&write.bytes);
        wal.finish_append(block_id, &write);
        end as u64
    }

    fn read(&self, block_id: u64) -> Result<Vec<WalEntry>, ReductError> {
        let name = WalImpl::block_wal_name(block_id);
        let Some(file) = self.files.get(&name) else {
            return Err(ReductError::new(
                ErrorCode::InternalServerError,
                "no such file",
            ));
        };
        read_entries(file, &name).unwrap()
    }

    fn remove(&mut self, wal: &mut WalImpl, block_id: u64) {
        if wal.plan_remove(block_id) {
            self.files.remove(&WalImpl::block_wal_name(block_id));
        }
        wal.finish_remove(block_id);
    }
}

fn write_default() -> WalEntry {
    WalEntry::WriteRecord(vec![])
}

fn update_default() -> WalEntry {
    WalEntry::UpdateRecord(vec![])
}

#[test]
fn test_read() {
    let mut dir = Dir::new();
    let mut wal = dir.open();
    dir.append(&mut wal, 1, write_default());
    dir.append(&mut wal, 1, update_default());
    dir.append(&mut wal, 1, WalEntry::RemoveBlock);
    dir.append(&mut wal, 1, WalEntry::RemoveRecord(1));

    let entries = dir.read(1).unwrap();
    assert_eq!(
        entries,
        vec![
            write_default(),
            update_default(),
            WalEntry::RemoveBlock,
            WalEntry::RemoveRecord(1)
        ]
    );
}

#[test]
fn test_remove() {
    let mut dir = Dir::new();
    let mut wal = dir.open();
    dir.append(&mut wal, 1, write_default());

    assert_eq!(dir.read(1).unwrap().len(), 1);
    dir.remove(&mut wal, 1);

    let err = dir.read(1).err().unwrap();
    assert_eq!(&err.status, &ErrorCode::InternalServerError);
}

#[test]
fn test_list() {
    let mut dir = Dir::new();
    let mut wal = dir.open();
    dir.append(&mut wal, 1, write_default());
    dir.append(&mut wal, 2, write_default());

    let wal = dir.open();
    let blocks = wal.list();
    assert_eq!(blocks.len(), 2);
    assert!(blocks.contains(&1));
    assert!(blocks.contains(&2));
}

#[test]
fn lists_in_ascending_order() {
    let names: Vec<String> = ["30.wal", "4.wal", "100.wal", "4.wal", "x.wal", "7.tmp"]
        .iter()
        .map(|name| name.to_string())
        .collect();
    assert_eq!(WalImpl::try_build(&names).list(), vec![4, 30, 100]);
}

#[test]
fn test_parse_wal_block_id() {
    assert_eq!(WalImpl::parse_wal_block_id("42.wal"), Some(42));
    assert_eq!(WalImpl::parse_wal_block_id("42.tmp"), None);
    assert_eq!(WalImpl::parse_wal_block_id("bad.wal"), None);
}

#[test]
fn log_names() {
    for id in [0, 7, 42, u64::MAX] {
        let name = WalImpl::block_wal_name(id);
        assert_eq!(name, format!("{}.wal", id));
        assert_eq!(WalImpl::parse_wal_block_id(&name), Some(id));
    }
    for name in ["", ".wal", "wal", "42", "42.wal.tmp", "4.2.wal", "42.WAL", "ü.wal"] {
        assert_eq!(WalImpl::parse_wal_block_id(name), None);
    }
    assert_eq!(WAL_DIR, ".wal");
    assert_eq!(LEGACY_WAL_DIR, "wal");
}

#[test]
fn test_crc_error() {
    let mut dir = Dir::new();
    let mut wal = dir.open();
    dir.append(&mut wal, 1, write_default());

    let file = dir.files.get_mut("1.wal").unwrap();
    file[..10].copy_from_slice(&[0, 0, 0, 0, 0, 0, 0, 0, 0, 1]);

    let err = dir.read(1).err().unwrap();
    assert_eq!(&err.status, &ErrorCode::InternalServerError);
    assert_eq!(err.message(), "WAL \"1.wal\" is corrupted");
}

#[test]
fn cache_invalidation() {
    let mut dir = Dir::new();
    let mut wal = dir.open();
    dir.append(&mut wal, 1, update_default());
    dir.append(&mut wal, 1, write_default());

    let entries = dir.read(1).unwrap();
    assert_eq!(
        entries,
        vec![update_default(), write_default()],
        "We keep entry after cache invalidation"
    );
}

#[test]
fn test_migrate_legacy_wal_dir() {
    assert!(migrates_legacy_dir(false, true));
    assert!(!migrates_legacy_dir(true, true));
    assert!(!migrates_legacy_dir(false, false));
    assert!(!migrates_legacy_dir(true, false));
    assert_eq!(
        read_entries(&[STOP_MARKER], "1.wal").unwrap().unwrap(),
        vec![]
    );
}

#[test]
fn test_position_tracks_stream_after_append() {
    let mut dir = Dir::new();
    let mut wal = dir.open();
    for i in 1..=3u64 {
        let end = dir.append(&mut wal, 1, write_default());
        // Type, length and checksum of each entry, and one stop marker.
        assert_eq!(end, 17 * i + 1);
        assert_eq!(
            wal.plan_append(1, true, &write_default()).start,
            end - 1
        );
    }
    assert_eq!(dir.read(1).unwrap().len(), 3);
}

#[test]
fn test_append_after_remove_starts_fresh() {
    let mut dir = Dir::new();
    let mut wal = dir.open();
    dir.append(&mut wal, 1, write_default());
    dir.append(&mut wal, 1, WalEntry::RemoveRecord(7));
    dir.remove(&mut wal, 1);
    assert!(wal.position_unknown(1));

    dir.append(&mut wal, 1, update_default());
    assert!(!wal.position_unknown(1));
    assert_eq!(dir.read(1).unwrap(), vec![update_default()]);
    assert_eq!(wal.list(), vec![1]);
}

#[test]
fn test_append_to_listed_block_after_restart() {
    let mut dir = Dir::new();
    let mut wal = dir.open();
    dir.append(&mut wal, 1, write_default());

    let mut wal = dir.open();
    assert_eq!(wal.list(), vec![1]);
    assert!(wal.position_unknown(1));

    dir.append(&mut wal, 1, WalEntry::RemoveBlock);
    assert_eq!(dir.read(1).unwrap(), vec![WalEntry::RemoveBlock]);
}

#[test]
fn test_remove_retries_after_failed_file_removal() {
    let mut dir = Dir::new();
    let mut wal = dir.open();
    dir.append(&mut wal, 1, write_default());

    // The file could not be removed: nothing is forgotten.
    assert!(wal.plan_remove(1));
    assert_eq!(wal.list(), vec![1]);
    assert!(!wal.position_unknown(1));

    dir.remove(&mut wal, 1);
    assert!(wal.list().is_empty());
    assert!(!dir.files.contains_key("1.wal"));
    assert!(!wal.plan_remove(1));
}

#[test]
fn grows_new_files_only() {
    let wal = WalImpl::try_build(&vec![]);
    let entry = WalEntry::RemoveBlock;
    assert_eq!(wal.plan_append(5, false, &entry).grow_to, Some(WAL_FILE_SIZE));
    assert_eq!(wal.plan_append(5, true, &entry).grow_to, None);
    assert_eq!(WAL_FILE_SIZE, 1_000_000);
}

#[test]
fn encodes_entries() {
    assert_eq!(
        WalEntry::WriteRecord(vec![9, 8]).encode(),
        vec![0, 0, 0, 0, 0, 0, 0, 0, 2, 9, 8]
    );
    assert_eq!(
        WalEntry::UpdateRecord(vec![7]).encode(),
        vec![1, 0, 0, 0, 0, 0, 0, 0, 1, 7]
    );
    assert_eq!(
        WalEntry::RemoveBlock.encode(),
        vec![2, 0, 0, 0, 0, 0, 0, 0, 0]
    );
    assert_eq!(
        WalEntry::RemoveRecord(0x0102030405060708).encode(),
        vec![3, 0, 0, 0, 0, 0, 0, 0, 8, 1, 2, 3, 4, 5, 6, 7, 8]
    );
}

#[test]
fn decodes_entries() {
    assert_eq!(
        WalEntry::decode(0, &[1, 2]),
        Ok(WalEntry::WriteRecord(vec![1, 2]))
    );
    assert_eq!(
        WalEntry::decode(1, &[]),
        Ok(WalEntry::UpdateRecord(vec![]))
    );
    assert_eq!(WalEntry::decode(2, &[5]), Ok(WalEntry::RemoveBlock));
    assert_eq!(
        WalEntry::decode(3, &[0, 0, 0, 0, 0, 0, 1, 0]),
        Ok(WalEntry::RemoveRecord(256))
    );
    let err = WalEntry::decode(4, &[]).unwrap_err();
    assert_eq!(err.status(), ErrorCode::InternalServerError);
    assert_eq!(err.message(), "Invalid WAL entry");
}

#[test]
fn the_checksum_is_crc_64_xz() {
    let mut dir = Dir::new();
    let mut wal = dir.open();
    let text = b"123456789".to_vec();
    dir.append(&mut wal, 1, WalEntry::WriteRecord(text));
    let file = &dir.files["1.wal"];
    let mut digest = crc64fast::Digest::new();
    digest.write(&file[..18]);
    assert_eq!(&file[18..26], &digest.sum64().to_be_bytes());
    assert_eq!(file[26], STOP_MARKER);
}

#[test]
fn numbers_are_big_endian() {
    for number in [0, 1, 0x0102_0304_0506_0708, u64::MAX] {
        let mut buf = Vec::new();
        put_be(&mut buf, number);
        assert_eq!(buf, number.to_be_bytes());
        buf.push(7);
        assert_eq!(read_be(&buf), number);
    }
}

#[test]
fn short_and_senseless_logs() {
    let err = read_entries(&[], "x").unwrap().unwrap_err();
    assert_eq!(err.status(), ErrorCode::InternalServerError);
    assert_eq!(err.message(), "failed to fill whole buffer");
    for file in [
        vec![0],
        vec![0, 0, 0, 0, 0, 0, 0, 0],
        vec![0, 0, 0, 0, 0, 0, 0, 0, 4, 1, 2],
        vec![2, 0, 0, 0, 0, 0, 0, 0, 0, 1],
    ] {
        assert!(read_entries(&file, "x").unwrap().is_err());
    }
    // No file can hold as much as this length says.
    assert!(read_entries(&[0, 255, 0, 0, 0, 0, 0, 0, 0, 0], "x").is_none());
    // The checksum holds, but the data is no id.
    let mut file = vec![3, 0, 0, 0, 0, 0, 0, 0, 1, 9];
    let mut digest = crc64fast::Digest::new();
    digest.write(&file);
    file.extend_from_slice(&digest.sum64().to_be_bytes());
    file.push(STOP_MARKER);
    assert!(read_entries(&file, "x").is_none());
    // An unknown type with the right checksum.
    let mut file = vec![9, 0, 0, 0, 0, 0, 0, 0, 0];
    let mut digest = crc64fast::Digest::new();
    digest.write(&file);
    file.extend_from_slice(&digest.sum64().to_be_bytes());
    file.push(STOP_MARKER);
    let err = read_entries(&file, "x").unwrap().unwrap_err();
    assert_eq!(err.message(), "Invalid WAL entry");
}

#[test]
fn logs_hold_what_was_appended_to_each() {
    let mut dir = Dir::new();
    let mut wal = dir.open();
    for i in 0..5 {
        dir.append(&mut wal, 1, WalEntry::RemoveRecord(i));
        dir.append(&mut wal, 2, WalEntry::WriteRecord(vec![i as u8; 10]));
    }
    dir.remove(&mut wal, 2);
    dir.append(&mut wal, 2, WalEntry::RemoveBlock);
    let numbers: Vec<WalEntry> = (0..5).map(WalEntry::RemoveRecord).collect();
    assert_eq!(dir.read(1), Ok(numbers));
    assert_eq!(dir.read(2), Ok(vec![WalEntry::RemoveBlock]));
    assert_eq!(wal.list(), vec![1, 2]);

    // Who opens the logs anew finds the same, and writes over them.
    let mut again = dir.open();
    assert_eq!(again.list(), vec![1, 2]);
    assert_eq!(dir.read(1).unwrap().len(), 5);
    dir.append(&mut again, 1, WalEntry::RemoveBlock);
    assert_eq!(dir.read(1), Ok(vec![WalEntry::RemoveBlock]));
    dir.remove(&mut again, 1);
    assert!(dir.read(1).is_err());
    assert_eq!(again.list(), vec![2]);
}

#[test]
fn an_altered_entry_is_found_wherever_it_stands() {
    for at in 0..3 {
        let mut dir = Dir::new();
        let mut wal = dir.open();
        for i in 0..3 {
            dir.append(&mut wal, 1, WalEntry::RemoveRecord(i));
        }
        // Every entry takes 25 bytes; its number ends at the 17th.
        dir.files.get_mut("1.wal").unwrap()[at * 25 + 16] ^= 1;
        let err = dir.read(1).unwrap_err();
        assert_eq!(err.status(), ErrorCode::InternalServerError);
        assert_eq!(err.message(), "WAL \"1.wal\" is corrupted");
    }
}
