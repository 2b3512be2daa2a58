//! The write-ahead log of a block: changes that have not been written to the block file yet.
//!
//! Entries follow each other, numbers are big-endian:
//!
//! | Entry type (8) | Entry length (64) | Entry data (variable) | CRC (64) |
//!
//! A stop marker stands behind the last entry.

use crate::error::{ErrorCode, ErrorView, ReductError};
use crate::storage::binary::{
    be_bytes, be_value, checksum, crc64, law_be_round_trip, put_be, read_be,
};
use crate::storage::ids::ascending;
use crate::text::{
    decimal, decimal_text, law_decimal_round_trip, parse_u64, parse_unsigned, same_text,
};
use std::collections::{BTreeSet, HashMap};
use vstd::prelude::*;

verus! {

pub const WAL_FILE_SIZE: u64 = 1_000_000;

pub const STOP_MARKER: u8 = 255;

/// The directory of an entry's logs.
pub const WAL_DIR: &'static str = ".wal";

/// Where the logs were kept before.
pub const LEGACY_WAL_DIR: &'static str = "wal";

/// Whether the old directory is to be renamed: only where the new one is not there yet.
pub fn migrates_legacy_dir(wal_exists: bool, legacy_exists: bool) -> (r: bool)
    ensures
        r == (!wal_exists && legacy_exists),
{
    !wal_exists && legacy_exists
}

/// A change to a block. A record is held in its encoded form.
#[derive(PartialEq, Debug)]
pub enum WalEntry {
    WriteRecord(Vec<u8>),
    UpdateRecord(Vec<u8>),
    RemoveBlock,
    RemoveRecord(u64),
}

pub enum WalEntryView {
    WriteRecord(Seq<u8>),
    UpdateRecord(Seq<u8>),
    RemoveBlock,
    RemoveRecord(u64),
}

impl View for WalEntry {
    type V = WalEntryView;

    open spec fn view(&self) -> WalEntryView {
        match self {
            WalEntry::WriteRecord(record) => WalEntryView::WriteRecord(record@),
            WalEntry::UpdateRecord(record) => WalEntryView::UpdateRecord(record@),
            WalEntry::RemoveBlock => WalEntryView::RemoveBlock,
            WalEntry::RemoveRecord(id) => WalEntryView::RemoveRecord(*id),
        }
    }
}

impl WalEntryView {
    pub open spec fn type_code(self) -> u8 {
        match self {
            WalEntryView::WriteRecord(_) => 0,
            WalEntryView::UpdateRecord(_) => 1,
            WalEntryView::RemoveBlock => 2,
            WalEntryView::RemoveRecord(_) => 3,
        }
    }

    pub open spec fn data(self) -> Seq<u8> {
        match self {
            WalEntryView::WriteRecord(record) => record,
            WalEntryView::UpdateRecord(record) => record,
            WalEntryView::RemoveBlock => Seq::empty(),
            WalEntryView::RemoveRecord(id) => be_bytes(id),
        }
    }

    /// The type, the length of the data and the data.
    pub open spec fn encoded(self) -> Seq<u8> {
        seq![self.type_code()] + be_bytes(self.data().len() as u64) + self.data()
    }
}

pub open spec fn invalid_entry() -> ErrorView {
    ErrorView { status: ErrorCode::InternalServerError, message: "Invalid WAL entry"@ }
}

/// The entry of a type with the given data, if the type is known and takes such data.
pub open spec fn entry_of(type_code: u8, data: Seq<u8>) -> Result<WalEntryView, ErrorView> {
    if type_code == 0 {
        Ok(WalEntryView::WriteRecord(data))
    } else if type_code == 1 {
        Ok(WalEntryView::UpdateRecord(data))
    } else if type_code == 2 {
        Ok(WalEntryView::RemoveBlock)
    } else if type_code == 3 {
        Ok(WalEntryView::RemoveRecord(be_value(data)))
    } else {
        Err(invalid_entry())
    }
}

impl WalEntry {
    pub fn encode(&self) -> (r: Vec<u8>)
        ensures
            r@ == self@.encoded(),
    {
        let mut buf: Vec<u8> = Vec::new();
        match self {
            WalEntry::WriteRecord(record) => {
                buf.push(0);
                put_be(&mut buf, record.len() as u64);
                buf.extend_from_slice(record.as_slice());
            },
            WalEntry::UpdateRecord(record) => {
                buf.push(1);
                put_be(&mut buf, record.len() as u64);
                buf.extend_from_slice(record.as_slice());
            },
            WalEntry::RemoveBlock => {
                buf.push(2);
                put_be(&mut buf, 0);
            },
            WalEntry::RemoveRecord(id) => {
                buf.push(3);
                put_be(&mut buf, 8);
                put_be(&mut buf, *id);
                proof {
                    law_be_round_trip(*id);
                }
            },
        }
        assert(buf@ =~= self@.encoded());
        buf
    }

    /// Decodes the data of an entry. The data of a removed record is its eight byte id.
    pub fn decode(type_code: u8, buf: &[u8]) -> (r: Result<WalEntry, ReductError>)
        requires
            type_code == 3 ==> buf@.len() == 8,
        ensures
            match entry_of(type_code, buf@) {
                Ok(entry) => r matches Ok(got) && got@ == entry,
                Err(error) => r matches Err(got) && got@ == error,
            },
    {
        match type_code {
            0 => Ok(WalEntry::WriteRecord(vstd::slice::slice_to_vec(buf))),
            1 => Ok(WalEntry::UpdateRecord(vstd::slice::slice_to_vec(buf))),
            2 => Ok(WalEntry::RemoveBlock),
            3 => {
                assert(buf@.take(8) =~= buf@);
                Ok(WalEntry::RemoveRecord(read_be(buf)))
            },
            _ => Err(ReductError::new(ErrorCode::InternalServerError, "Invalid WAL entry")),
        }
    }
}

/// Decoding gives back the entry that was encoded.
pub proof fn law_entry_round_trip(entry: WalEntryView)
    ensures
        entry_of(entry.type_code(), entry.data()) == Ok::<WalEntryView, ErrorView>(entry),
{
    if let WalEntryView::RemoveRecord(id) = entry {
        law_be_round_trip(id);
    }
}

/// An entry with its checksum.
pub open spec fn framed(entry: WalEntryView) -> Seq<u8> {
    entry.encoded() + be_bytes(crc64(entry.encoded()))
}

/// A log that holds the given entries: each with its checksum, then the stop marker.
pub open spec fn log_bytes(entries: Seq<WalEntryView>) -> Seq<u8>
    decreases entries.len(),
{
    if entries.len() == 0 {
        seq![STOP_MARKER]
    } else {
        framed(entries[0]) + log_bytes(entries.skip(1))
    }
}

/// What `Debug` makes of a path.
pub uninterp spec fn path_debug(path: Seq<char>) -> Seq<char>;

/// `format!` with `{:?}` on a `Path`: the path in quotes, with special characters escaped.
#[verifier::external_body]
pub(crate) fn path_debug_text(path: &str) -> (r: String)
    ensures
        r@ == path_debug(path@),
{
    format!("{:?}", std::path::Path::new(path))
}

/// The error for a log that ends in the middle.
pub open spec fn log_too_short() -> ErrorView {
    ErrorView { status: ErrorCode::InternalServerError, message: "failed to fill whole buffer"@ }
}

/// The error for a log with a wrong checksum.
pub open spec fn log_corrupted(path: Seq<char>) -> ErrorView {
    ErrorView {
        status: ErrorCode::InternalServerError,
        message: "WAL "@ + path_debug(path) + " is corrupted"@,
    }
}

/// Reads the entries of a log. There is no result where a length is beyond what memory can
/// address, or where the checksum of a removed record is right but its data is no id.
pub open spec fn read_log(b: Seq<u8>, path: Seq<char>) -> Option<
    Result<Seq<WalEntryView>, ErrorView>,
>
    decreases b.len(),
{
    if b.len() == 0 {
        Some(Err(log_too_short()))
    } else if b[0] == STOP_MARKER {
        Some(Ok(Seq::empty()))
    } else if b.len() < 9 {
        Some(Err(log_too_short()))
    } else {
        let len = be_value(b.subrange(1, 9));
        if len > isize::MAX {
            None
        } else if b.len() < 17 + len {
            Some(Err(log_too_short()))
        } else if crc64(b.take(9 + len)) != be_value(b.subrange(9 + len, 17 + len)) {
            Some(Err(log_corrupted(path)))
        } else if b[0] == 3 && len != 8 {
            None
        } else {
            match entry_of(b[0], b.subrange(9, 9 + len)) {
                Err(error) => Some(Err(error)),
                Ok(entry) => match read_log(b.skip(17 + len), path) {
                    Some(Ok(rest)) => Some(Ok(seq![entry] + rest)),
                    other => other,
                },
            }
        }
    }
}

pub open spec fn entry_views(entries: Seq<WalEntry>) -> Seq<WalEntryView> {
    Seq::new(entries.len(), |i: int| entries[i]@)
}

/// Whether a result is the expected one.
pub open spec fn same_log(
    r: Option<Result<Vec<WalEntry>, ReductError>>,
    expected: Option<Result<Seq<WalEntryView>, ErrorView>>,
) -> bool {
    match expected {
        None => r is None,
        Some(Ok(entries)) => r matches Some(Ok(got)) && entry_views(got@) == entries,
        Some(Err(error)) => r matches Some(Err(got)) && got@ == error,
    }
}

fn log_error(message: &str) -> (r: Option<Result<Vec<WalEntry>, ReductError>>)
    ensures
        same_log(
            r,
            Some(
                Err(ErrorView { status: ErrorCode::InternalServerError, message: message@ }),
            ),
        ),
{
    Some(Err(ReductError::new(ErrorCode::InternalServerError, message)))
}

/// Reads the entries of a log from the contents of its file. There is no result on contents
/// that the reader cannot make sense of at all, see [`read_log`].
pub fn read_entries(file: &[u8], path: &str) -> (r: Option<Result<Vec<WalEntry>, ReductError>>)
    ensures
        same_log(r, read_log(file@, path@)),
{
    let mut entries: Vec<WalEntry> = Vec::new();
    let mut pos: usize = 0;
    assert(file@.skip(0) =~= file@);
    proof {
        if let Some(Ok(rest)) = read_log(file@, path@) {
            assert(entry_views(entries@) + rest =~= rest);
        }
    }
    loop
        invariant
            pos <= file@.len(),
            match read_log(file@.skip(pos as int), path@) {
                None => read_log(file@, path@) is None,
                Some(Err(error)) => read_log(file@, path@) == Some(
                    Err::<Seq<WalEntryView>, ErrorView>(error),
                ),
                Some(Ok(rest)) => read_log(file@, path@) == Some(
                    Ok::<Seq<WalEntryView>, ErrorView>(entry_views(entries@) + rest),
                ),
            },
        decreases file@.len() - pos,
    {
        let ghost b = file@.skip(pos as int);
        let left: usize = file.len() - pos;
        if left == 0 {
            return log_error("failed to fill whole buffer");
        }
        let entry_type: u8 = file[pos];
        if entry_type == STOP_MARKER {
            assert(entry_views(entries@) + Seq::<WalEntryView>::empty() =~= entry_views(entries@));
            return Some(Ok(entries));
        }
        if left < 9 {
            return log_error("failed to fill whole buffer");
        }
        let head: &[u8] = vstd::slice::slice_subrange(file, pos + 1, pos + 9);
        let len: u64 = read_be(head);
        assert(head@.take(8) =~= b.subrange(1, 9));
        if len > isize::MAX as u64 {
            return None;
        }
        if left < 17 || len > (left - 17) as u64 {
            return log_error("failed to fill whole buffer");
        }
        let len: usize = len as usize;
        let covered: &[u8] = vstd::slice::slice_subrange(file, pos, pos + 9 + len);
        assert(covered@ =~= b.take(9 + len));
        let tail: &[u8] = vstd::slice::slice_subrange(file, pos + 9 + len, pos + 17 + len);
        assert(tail@.take(8) =~= b.subrange(9 + len, 17 + len));
        if checksum(covered) != read_be(tail) {
            let message = "WAL ".to_owned().concat(path_debug_text(path).as_str()).concat(
                " is corrupted",
            );
            return log_error(message.as_str());
        }
        if entry_type == 3 && len != 8 {
            return None;
        }
        let data: &[u8] = vstd::slice::slice_subrange(file, pos + 9, pos + 9 + len);
        assert(data@ =~= b.subrange(9, 9 + len));
        match WalEntry::decode(entry_type, data) {
            Err(error) => {
                return Some(Err(error));
            },
            Ok(entry) => {
                let ghost before = entry_views(entries@);
                let ghost read = entry@;
                entries.push(entry);
                pos = pos + 17 + len;
                proof {
                    assert(file@.skip(pos as int) =~= b.skip(17 + len));
                    assert(entry_views(entries@) =~= before.push(read));
                    if let Some(Ok(rest)) = read_log(file@.skip(pos as int), path@) {
                        assert(before + (seq![read] + rest) =~= before.push(read) + rest);
                    }
                }
            },
        }
    }
}

/// Whether the data of an entry is of a size that can be addressed.
pub open spec fn storable(entry: WalEntryView) -> bool {
    entry.data().len() <= isize::MAX
}

/// An entry with its checksum is read, and then what stands behind it.
pub proof fn lemma_read_framed(e: WalEntryView, tail: Seq<u8>, path: Seq<char>)
    requires
        storable(e),
    ensures
        read_log(framed(e) + tail, path) == (match read_log(tail, path) {
            Some(Ok(rest)) => Some(Ok::<Seq<WalEntryView>, ErrorView>(seq![e] + rest)),
            other => other,
        }),
{
    let b = framed(e) + tail;
    let len = e.data().len() as u64;
    let size = be_bytes(len);
    let sum = be_bytes(crc64(e.encoded()));
    law_be_round_trip(len);
    law_be_round_trip(crc64(e.encoded()));
    law_entry_round_trip(e);
    if let WalEntryView::RemoveRecord(id) = e {
        law_be_round_trip(id);
    }
    assert(b =~= seq![e.type_code()] + size + e.data() + sum + tail);
    assert(b.subrange(1, 9) =~= size);
    assert(b.take(9 + len) =~= e.encoded());
    assert(b.subrange(9 + len, 17 + len) =~= sum);
    assert(b.subrange(9, 9 + len) =~= e.data());
    assert(b.skip(17 + len) =~= tail);
}

/// Reading a log gives back its entries, whatever stands behind the stop marker.
pub proof fn law_log_round_trip(entries: Seq<WalEntryView>, rest: Seq<u8>, path: Seq<char>)
    requires
        forall|i: int| 0 <= i < entries.len() ==> storable(#[trigger] entries[i]),
    ensures
        read_log(log_bytes(entries) + rest, path) == Some(
            Ok::<Seq<WalEntryView>, ErrorView>(entries),
        ),
    decreases entries.len(),
{
    let b = log_bytes(entries) + rest;
    if entries.len() == 0 {
        assert(entries =~= Seq::<WalEntryView>::empty());
    } else {
        let left = entries.skip(1);
        assert(storable(entries[0]));
        assert forall|i: int| 0 <= i < left.len() implies storable(#[trigger] left[i]) by {
            assert(left[i] == entries[i + 1]);
        }
        law_log_round_trip(left, rest, path);
        lemma_read_framed(entries[0], log_bytes(left) + rest, path);
        assert(b =~= framed(entries[0]) + (log_bytes(left) + rest));
        assert(seq![entries[0]] + left =~= entries);
    }
}

proof fn lemma_log_push(entries: Seq<WalEntryView>, e: WalEntryView)
    ensures
        log_bytes(entries).len() >= 1,
        log_bytes(entries.push(e)) == log_bytes(entries).drop_last() + framed(e) + seq![
            STOP_MARKER,
        ],
    decreases entries.len(),
{
    let longer = entries.push(e);
    if entries.len() == 0 {
        assert(longer.skip(1) =~= Seq::<WalEntryView>::empty());
        assert(log_bytes(longer.skip(1)) == seq![STOP_MARKER]);
        assert(log_bytes(longer) =~= log_bytes(entries).drop_last() + framed(e) + seq![
            STOP_MARKER,
        ]);
    } else {
        let left = entries.skip(1);
        lemma_log_push(left, e);
        assert(longer.skip(1) =~= left.push(e));
        assert(log_bytes(entries).drop_last() =~= framed(entries[0]) + log_bytes(
            left,
        ).drop_last());
        assert(log_bytes(longer) =~= log_bytes(entries).drop_last() + framed(e) + seq![
            STOP_MARKER,
        ]);
    }
}

/// The contents of a file after bytes were written at a position in it or at its end.
pub open spec fn written(file: Seq<u8>, start: int, bytes: Seq<u8>) -> Seq<u8> {
    if start + bytes.len() < file.len() {
        file.take(start) + bytes + file.skip(start + bytes.len())
    } else {
        file.take(start) + bytes
    }
}

/// Where the next entry is written: over the stop marker, or at the start of the file where no
/// position is known.
pub open spec fn append_start(position: Option<u64>) -> u64 {
    match position {
        Some(p) => if p == 0 {
            0
        } else {
            (p - 1) as u64
        },
        None => 0,
    }
}

/// What is written for the next entry.
pub open spec fn append_bytes(entry: WalEntryView) -> Seq<u8> {
    framed(entry) + seq![STOP_MARKER]
}

/// Appending keeps the entries that were there and puts the new one behind them: the file then
/// holds the longer log, the position is its end, and reading gives all entries back. Where no
/// position is known, the log starts anew with the entry.
pub proof fn law_append_then_read(
    file: Seq<u8>,
    position: Option<u64>,
    entries: Seq<WalEntryView>,
    entry: WalEntryView,
    path: Seq<char>,
)
    requires
        match position {
            Some(p) => p == log_bytes(entries).len() && log_bytes(entries).is_prefix_of(file),
            None => entries.len() == 0,
        },
        forall|i: int| 0 <= i < entries.len() ==> storable(#[trigger] entries[i]),
        storable(entry),
    ensures
        ({
            let start = append_start(position);
            let bytes = append_bytes(entry);
            let file2 = written(file, start as int, bytes);
            let log2 = log_bytes(entries.push(entry));
            &&& start <= file.len()
            &&& start + bytes.len() == log2.len()
            &&& log2.is_prefix_of(file2)
            &&& read_log(file2, path) == Some(
                Ok::<Seq<WalEntryView>, ErrorView>(entries.push(entry)),
            )
        }),
{
    let start = append_start(position) as int;
    let bytes = append_bytes(entry);
    let file2 = written(file, start, bytes);
    let longer = entries.push(entry);
    let log2 = log_bytes(longer);
    lemma_log_push(entries, entry);
    if position is Some {
        assert(file.take(start) =~= log_bytes(entries).drop_last());
    } else {
        assert(file.take(start) =~= log_bytes(entries).drop_last());
    }
    assert(file2.take(log2.len() as int) =~= log2);
    let rest = file2.skip(log2.len() as int);
    assert(file2 =~= log2 + rest);
    assert forall|i: int| 0 <= i < longer.len() implies storable(#[trigger] longer[i]) by {
        if i < entries.len() {
            assert(longer[i] == entries[i]);
        }
    }
    law_log_round_trip(longer, rest, path);
}

/// The name of the log file of a block.
pub open spec fn wal_name(block_id: u64) -> Seq<char> {
    decimal(block_id as nat) + ".wal"@
}

/// The block that a file in the log directory belongs to: the number in front of `.wal`.
pub open spec fn wal_block_id(name: Seq<char>) -> Option<u64> {
    if name.len() > 4 && name.skip(name.len() - 4) == ".wal"@ {
        parse_unsigned(name.take(name.len() - 4))
    } else {
        None
    }
}

/// The block of a log file is recovered from the name of the file.
pub proof fn law_wal_name_round_trip(block_id: u64)
    ensures
        wal_block_id(wal_name(block_id)) == Some(block_id),
{
    let digits = decimal(block_id as nat);
    let name = wal_name(block_id);
    reveal_strlit(".wal");
    law_decimal_round_trip(block_id);
    assert(digits.len() > 0);
    assert(name.take(name.len() - 4) =~= digits);
    assert(name.skip(name.len() - 4) =~= ".wal"@);
}

/// What the log manager knows of the logs: where the last write to a log ended, and which
/// blocks have one.
pub struct WalView {
    pub positions: Map<u64, u64>,
    pub known: Set<u64>,
}

impl WalView {
    pub open spec fn position(self, block_id: u64) -> Option<u64> {
        if self.positions.contains_key(block_id) {
            Some(self.positions[block_id])
        } else {
            None
        }
    }

    /// What is written for an entry: the size to which the file is grown first, where the write
    /// starts, and the bytes.
    pub open spec fn planned(self, block_id: u64, exists: bool, entry: WalEntryView) -> (
        Option<u64>,
        u64,
        Seq<u8>,
    ) {
        (
            if self.position(block_id) is None && !exists {
                Some(WAL_FILE_SIZE)
            } else {
                None
            },
            append_start(self.position(block_id)),
            append_bytes(entry),
        )
    }

    /// With a write remembered that ended at a position.
    pub open spec fn ended_at(self, block_id: u64, end: u64) -> WalView {
        WalView {
            positions: self.positions.insert(block_id, end),
            known: self.known.insert(block_id),
        }
    }

    /// Without a log whose file is gone.
    pub open spec fn forgotten(self, block_id: u64) -> WalView {
        WalView {
            positions: self.positions.remove(block_id),
            known: self.known.remove(block_id),
        }
    }

    /// Whether the file of a log has to be removed.
    pub open spec fn has_file(self, block_id: u64) -> bool {
        self.known.contains(block_id)
    }
}

/// A write to a log file.
pub struct WalWrite {
    /// The size to which a new file is grown first.
    pub grow_to: Option<u64>,
    pub start: u64,
    pub bytes: Vec<u8>,
}

/// The logs of an entry's blocks. The file positions are kept here, because the cache may hand
/// out a file at another position.
pub struct WalImpl {
    file_positions: HashMap<u64, u64>,
    known_blocks: BTreeSet<u64>,
}

impl View for WalImpl {
    type V = WalView;

    closed spec fn view(&self) -> WalView {
        WalView { positions: self.file_positions@, known: self.known_blocks@ }
    }
}

impl WalImpl {
    /// Starts with the logs that the files of the log directory show.
    pub fn try_build(file_names: &Vec<String>) -> (r: WalImpl)
        ensures
            r@.positions == Map::<u64, u64>::empty(),
            forall|id: u64| #[trigger]
                r@.known.contains(id) <==> exists|i: int|
                    0 <= i < file_names@.len() && wal_block_id((#[trigger] file_names@[i])@) == Some(
                        id,
                    ),
    {
        let mut blocks: BTreeSet<u64> = BTreeSet::new();
        let mut i: usize = 0;
        while i < file_names.len()
            invariant
                i <= file_names@.len(),
                forall|id: u64| #[trigger]
                    blocks@.contains(id) <==> exists|j: int|
                        0 <= j < i && wal_block_id((#[trigger] file_names@[j])@) == Some(id),
            decreases file_names@.len() - i,
        {
            let ghost before = blocks@;
            if let Some(id) = WalImpl::parse_wal_block_id(file_names[i].as_str()) {
                blocks.insert(id);
            }
            proof {
                assert forall|id: u64| #[trigger]
                    blocks@.contains(id) implies exists|j: int|
                    0 <= j < i + 1 && wal_block_id((#[trigger] file_names@[j])@) == Some(id) by {
                    if before.contains(id) {
                        let j = choose|j: int|
                            0 <= j < i && wal_block_id((#[trigger] file_names@[j])@) == Some(id);
                        assert(wal_block_id(file_names@[j]@) == Some(id));
                    } else {
                        assert(wal_block_id(file_names@[i as int]@) == Some(id));
                    }
                }
            }
            i = i + 1;
        }
        WalImpl { file_positions: HashMap::new(), known_blocks: blocks }
    }

    pub fn block_wal_name(block_id: u64) -> (r: String)
        ensures
            r@ == wal_name(block_id),
    {
        decimal_text(block_id).concat(".wal")
    }

    pub fn parse_wal_block_id(name: &str) -> (r: Option<u64>)
        ensures
            r == wal_block_id(name@),
    {
        let n: usize = name.unicode_len();
        if n > 4 && same_text(name.substring_char(n - 4, n), ".wal") {
            assert(name@.subrange(n - 4, n as int) =~= name@.skip(n - 4));
            let stem: &str = name.substring_char(0, n - 4);
            assert(stem@ =~= name@.take(n - 4));
            parse_u64(stem)
        } else {
            assert(n > 4 ==> name@.subrange(n - 4, n as int) =~= name@.skip(n - 4));
            None
        }
    }

    /// Whether an append has to know if the log file exists.
    pub fn position_unknown(&self, block_id: u64) -> (r: bool)
        ensures
            r == (self@.position(block_id) is None),
    {
        !self.file_positions.contains_key(&block_id)
    }

    /// What to write for the next entry of a block. A file that did not exist is grown first;
    /// one that does is written over from its start where no position is known.
    pub fn plan_append(&self, block_id: u64, exists: bool, entry: &WalEntry) -> (r: WalWrite)
        ensures
            r.start == append_start(self@.position(block_id)),
            r.bytes@ == append_bytes(entry@),
            r.grow_to == (if self@.position(block_id) is None && !exists {
                Some(WAL_FILE_SIZE)
            } else {
                None
            }),
            (r.grow_to, r.start, r.bytes@) == self@.planned(block_id, exists, entry@),
    {
        let (grow_to, start): (Option<u64>, u64) = match self.file_positions.get(&block_id) {
            Some(pos) => (
                None,
                if *pos == 0 {
                    0
                } else {
                    *pos - 1
                },
            ),
            None => (
                if exists {
                    None
                } else {
                    Some(WAL_FILE_SIZE)
                },
                0,
            ),
        };
        let mut bytes: Vec<u8> = entry.encode();
        let sum: u64 = checksum(bytes.as_slice());
        put_be(&mut bytes, sum);
        bytes.push(STOP_MARKER);
        assert(bytes@ =~= append_bytes(entry@));
        WalWrite { grow_to, start, bytes }
    }

    /// Remembers a write that was made.
    pub fn finish_append(&mut self, block_id: u64, write: &WalWrite)
        requires
            write.start + write.bytes@.len() <= u64::MAX,
        ensures
            final(self)@.positions == old(self)@.positions.insert(
                block_id,
                (write.start + write.bytes@.len()) as u64,
            ),
            final(self)@.known == old(self)@.known.insert(block_id),
            final(self)@ == old(self)@.ended_at(
                block_id,
                (write.start + write.bytes@.len()) as u64,
            ),
    {
        let end: u64 = write.start + write.bytes.len() as u64;
        self.file_positions.insert(block_id, end);
        self.known_blocks.insert(block_id);
    }

    /// Whether the log file of a block has to be removed if it exists.
    pub fn plan_remove(&self, block_id: u64) -> (r: bool)
        ensures
            r == self@.known.contains(block_id),
            r == self@.has_file(block_id),
    {
        self.known_blocks.contains(&block_id)
    }

    /// Forgets a log whose file is gone.
    pub fn finish_remove(&mut self, block_id: u64)
        ensures
            final(self)@.positions == old(self)@.positions.remove(block_id),
            final(self)@.known == old(self)@.known.remove(block_id),
            final(self)@ == old(self)@.forgotten(block_id),
    {
        self.known_blocks.remove(&block_id);
        self.file_positions.remove(&block_id);
    }

    /// The blocks that have a log, in ascending order.
    pub fn list(&self) -> (r: Vec<u64>)
        ensures
            r@.to_set() == self@.known,
            forall|i: int, j: int| 0 <= i < j < r@.len() ==> r@[i] < r@[j],
    {
        ascending(&self.known_blocks)
    }
}

} // verus!
