//! What holds of logs over a history of writes: whatever was appended is read back, and what was
//! altered is found.

use crate::error::{ErrorCode, ErrorView};
use crate::storage::binary::{be_bytes, be_value, crc64, law_be_round_trip};
use crate::storage::wal::{
    framed, law_append_then_read, lemma_read_framed, log_bytes, log_corrupted, log_too_short,
    read_log, storable, wal_block_id, written, WalEntryView, WalView, STOP_MARKER, WAL_FILE_SIZE,
};
use crate::text::parse_unsigned;
use vstd::prelude::*;

verus! {

/// What is done to the logs of an entry.
pub enum LogOp {
    /// An entry is appended to the log of a block.
    Append(u64, WalEntryView),
    /// The log of a block is removed.
    Remove(u64),
    /// The logs are opened anew, by someone who knows their files alone.
    Reopen,
}

/// The logs of an entry, with the files that hold them, by block.
pub struct Logs {
    pub wal: WalView,
    pub files: Map<u64, Seq<u8>>,
}

impl Logs {
    /// No log has been written.
    pub open spec fn start() -> Logs {
        Logs {
            wal: WalView { positions: Map::empty(), known: Set::empty() },
            files: Map::empty(),
        }
    }

    /// What a file holds before an entry is appended. A new one is grown first.
    pub open spec fn file(self, block_id: u64) -> Seq<u8> {
        if self.files.contains_key(block_id) {
            self.files[block_id]
        } else if self.wal.position(block_id) is None {
            Seq::new(WAL_FILE_SIZE as nat, |i: int| 0u8)
        } else {
            Seq::empty()
        }
    }

    /// With what is written for an entry in its place, in a file that is grown first where that is
    /// asked for, and with the end of the write remembered.
    pub open spec fn appended(self, block_id: u64, entry: WalEntryView) -> Logs {
        let (grow_to, start, bytes) = self.wal.planned(
            block_id,
            self.files.contains_key(block_id),
            entry,
        );
        let file = match grow_to {
            Some(size) => Seq::new(size as nat, |i: int| 0u8),
            None => self.file(block_id),
        };
        Logs {
            wal: self.wal.ended_at(block_id, (start + bytes.len()) as u64),
            files: self.files.insert(block_id, written(file, start as int, bytes)),
        }
    }

    /// Without the log of a block: its file is removed where there is one to remove.
    pub open spec fn removed(self, block_id: u64) -> Logs {
        Logs {
            wal: self.wal.forgotten(block_id),
            files: if self.wal.has_file(block_id) {
                self.files.remove(block_id)
            } else {
                self.files
            },
        }
    }

    pub open spec fn after(self, op: LogOp) -> Logs {
        match op {
            LogOp::Append(block_id, entry) => self.appended(block_id, entry),
            LogOp::Remove(block_id) => self.removed(block_id),
            LogOp::Reopen => Logs {
                wal: WalView { positions: Map::empty(), known: self.files.dom() },
                ..self
            },
        }
    }
}

/// The logs behind a number of operations.
pub open spec fn logs_after(ops: Seq<LogOp>) -> Logs
    decreases ops.len(),
{
    if ops.len() == 0 {
        Logs::start()
    } else {
        logs_after(ops.drop_last()).after(ops.last())
    }
}

/// The entries that the log of a block is to hold, and whether its end is known: those that were
/// appended since the log was removed last. A log that was opened anew is written over by the
/// first entry that is appended.
pub open spec fn logged(ops: Seq<LogOp>, block_id: u64) -> (Seq<WalEntryView>, bool)
    decreases ops.len(),
{
    if ops.len() == 0 {
        (Seq::empty(), false)
    } else {
        let (entries, open) = logged(ops.drop_last(), block_id);
        match ops.last() {
            LogOp::Append(id, entry) => if id != block_id {
                (entries, open)
            } else if open {
                (entries.push(entry), true)
            } else {
                (seq![entry], true)
            },
            LogOp::Remove(id) => if id == block_id {
                (Seq::empty(), false)
            } else {
                (entries, open)
            },
            LogOp::Reopen => (entries, false),
        }
    }
}

/// Whether every entry can be written, and the end of every log can be counted.
pub open spec fn writable(ops: Seq<LogOp>) -> bool
    decreases ops.len(),
{
    ops.len() > 0 ==> {
        &&& writable(ops.drop_last())
        &&& ops.last() matches LogOp::Append(block_id, entry) ==> storable(entry) && log_bytes(
            logged(ops, block_id).0,
        ).len() <= u64::MAX
    }
}

proof fn lemma_history(ops: Seq<LogOp>, block_id: u64, path: Seq<char>)
    requires
        writable(ops),
    ensures
        ({
            let w = logs_after(ops);
            let (entries, open) = logged(ops, block_id);
            &&& w.wal.known.contains(block_id) <==> entries.len() > 0
            &&& w.files.contains_key(block_id) <==> entries.len() > 0
            &&& w.wal.position(block_id) == (if open {
                Some(log_bytes(entries).len() as u64)
            } else {
                None
            })
            &&& open ==> entries.len() > 0 && log_bytes(entries).len() <= u64::MAX
            &&& entries.len() > 0 ==> log_bytes(entries).is_prefix_of(w.files[block_id])
            &&& forall|i: int| 0 <= i < entries.len() ==> storable(#[trigger] entries[i])
            &&& entries.len() > 0 ==> read_log(w.files[block_id], path) == Some(
                Ok::<Seq<WalEntryView>, ErrorView>(entries),
            )
        }),
    decreases ops.len(),
{
    if ops.len() > 0 {
        let front = ops.drop_last();
        let before = logs_after(front);
        let (entries, open) = logged(front, block_id);
        lemma_history(front, block_id, path);
        if let LogOp::Append(id, entry) = ops.last() {
            if id == block_id {
                let position = before.wal.position(id);
                if open {
                    law_append_then_read(before.files[id], position, entries, entry, path);
                } else {
                    let none = Seq::<WalEntryView>::empty();
                    let file = if before.files.contains_key(id) {
                        before.files[id]
                    } else {
                        Seq::new(WAL_FILE_SIZE as nat, |i: int| 0u8)
                    };
                    assert(none.push(entry) =~= seq![entry]);
                    law_append_then_read(file, position, none, entry, path);
                }
            }
        }
    }
}

/// Reading the log of a block gives the entries that were appended to it since it was removed
/// last, in order, whatever was done to the logs of other blocks; it does so from the file alone,
/// so that it does not matter who reads. A block has a log file exactly while there are such
/// entries, and is then listed.
pub proof fn law_log_holds_what_was_appended(ops: Seq<LogOp>, block_id: u64, path: Seq<char>)
    requires
        writable(ops),
    ensures
        ({
            let w = logs_after(ops);
            let (entries, open) = logged(ops, block_id);
            &&& w.files.contains_key(block_id) <==> entries.len() > 0
            &&& w.wal.known.contains(block_id) <==> entries.len() > 0
            &&& entries.len() > 0 ==> read_log(w.files[block_id], path) == Some(
                Ok::<Seq<WalEntryView>, ErrorView>(entries),
            )
        }),
{
    lemma_history(ops, block_id, path);
}

/// Opening the logs anew changes nothing that is read, and no block is forgotten.
pub proof fn law_reopened_logs_are_the_same(ops: Seq<LogOp>, block_id: u64)
    requires
        writable(ops),
    ensures
        ({
            let again = ops.push(LogOp::Reopen);
            &&& writable(again)
            &&& logs_after(again).files == logs_after(ops).files
            &&& logs_after(again).wal.known.contains(block_id) == logs_after(
                ops,
            ).wal.known.contains(block_id)
            &&& logged(again, block_id).0 == logged(ops, block_id).0
        }),
{
    let again = ops.push(LogOp::Reopen);
    assert(again.drop_last() =~= ops);
    lemma_history(ops, block_id, Seq::empty());
}

/// Entries one behind the other, each with its checksum.
pub open spec fn frames(entries: Seq<WalEntryView>) -> Seq<u8>
    decreases entries.len(),
{
    if entries.len() == 0 {
        Seq::empty()
    } else {
        framed(entries[0]) + frames(entries.skip(1))
    }
}

/// Whether bytes start with an entry whose checksum is not that of its bytes.
pub open spec fn altered(b: Seq<u8>) -> bool {
    let len = be_value(b.subrange(1, 9));
    &&& b.len() >= 17 + len
    &&& len <= isize::MAX
    &&& b[0] != STOP_MARKER
    &&& crc64(b.take(9 + len)) != be_value(b.subrange(9 + len, 17 + len))
}

/// An entry whose checksum is wrong is found, wherever it stands in a log.
pub proof fn law_altered_entry_is_found(
    entries: Seq<WalEntryView>,
    rest: Seq<u8>,
    path: Seq<char>,
)
    requires
        forall|i: int| 0 <= i < entries.len() ==> storable(#[trigger] entries[i]),
        altered(rest),
    ensures
        read_log(frames(entries) + rest, path) == Some(
            Err::<Seq<WalEntryView>, ErrorView>(log_corrupted(path)),
        ),
    decreases entries.len(),
{
    if entries.len() == 0 {
        assert(frames(entries) + rest =~= rest);
    } else {
        let left = entries.skip(1);
        assert forall|i: int| 0 <= i < left.len() implies storable(#[trigger] left[i]) by {
            assert(left[i] == entries[i + 1]);
        }
        law_altered_entry_is_found(left, rest, path);
        lemma_read_framed(entries[0], frames(left) + rest, path);
        assert(frames(entries) + rest =~= framed(entries[0]) + (frames(left) + rest));
    }
}

/// A new log file is grown before the first entry; a file that is there never is.
pub proof fn law_new_files_are_grown(wal: WalView, block_id: u64, exists: bool, entry: WalEntryView)
    ensures
        wal.planned(block_id, exists, entry).0 is Some <==> wal.position(block_id) is None
            && !exists,
        wal.planned(block_id, exists, entry).0 is Some ==> wal.planned(block_id, exists, entry).0->0
            == 1_000_000,
{
}

/// A file in the log directory belongs to a block exactly where its name is the number of the block
/// with `.wal` behind it, and every block finds its file by that name.
pub proof fn law_log_files_have_the_names_of_blocks(stem: Seq<char>, name: Seq<char>)
    ensures
        stem.len() > 0 ==> wal_block_id(stem + ".wal"@) == parse_unsigned(stem),
        wal_block_id(name) is Some ==> exists|s: Seq<char>|
            name == #[trigger] (s + ".wal"@) && parse_unsigned(s) == wal_block_id(name),
{
    reveal_strlit(".wal");
    let full = stem + ".wal"@;
    assert(full.skip(full.len() - 4) =~= ".wal"@);
    assert(full.take(full.len() - 4) =~= stem);
    if wal_block_id(name) is Some {
        let s = name.take(name.len() - 4);
        assert(name =~= s + ".wal"@);
    }
}

/// Every entry of a log tells its kind and its data apart from every other: what was appended as
/// one entry is never read as another.
pub proof fn law_entries_are_told_apart(a: WalEntryView, b: WalEntryView)
    requires
        storable(a),
        storable(b),
        framed(a) == framed(b),
    ensures
        a == b,
{
    let end = log_bytes(Seq::<WalEntryView>::empty());
    lemma_read_framed(a, end, Seq::empty());
    lemma_read_framed(b, end, Seq::empty());
    assert((seq![a] + Seq::<WalEntryView>::empty())[0] == a);
    assert((seq![b] + Seq::<WalEntryView>::empty())[0] == b);
}

/// What stands in a log for an entry: a byte for what was done, the length of the data, the data,
/// and the checksum of all that. The log ends with a byte that stands for nothing that is done.
pub proof fn law_entry_layout(e: WalEntryView)
    ensures
        ({
            let (code, data) = match e {
                WalEntryView::WriteRecord(record) => (0u8, record),
                WalEntryView::UpdateRecord(record) => (1u8, record),
                WalEntryView::RemoveBlock => (2u8, Seq::empty()),
                WalEntryView::RemoveRecord(id) => (3u8, be_bytes(id)),
            };
            let body = seq![code] + be_bytes(data.len() as u64) + data;
            &&& framed(e) == body + be_bytes(crc64(body))
            &&& log_bytes(Seq::<WalEntryView>::empty()) == seq![255u8]
        }),
{
}

/// A log that breaks off, be it in an entry or before the stop marker, is an error, whatever was
/// read before.
pub proof fn law_log_that_breaks_off_is_found(
    entries: Seq<WalEntryView>,
    e: WalEntryView,
    cut: int,
    path: Seq<char>,
)
    requires
        forall|i: int| 0 <= i < entries.len() ==> storable(#[trigger] entries[i]),
        storable(e),
        0 <= cut < framed(e).len(),
    ensures
        read_log(frames(entries) + framed(e).take(cut), path) == Some(
            Err::<Seq<WalEntryView>, ErrorView>(log_too_short()),
        ),
    decreases entries.len(),
{
    let rest = framed(e).take(cut);
    if entries.len() == 0 {
        assert(frames(entries) + rest =~= rest);
        let len = e.data().len() as u64;
        law_be_round_trip(len);
        law_be_round_trip(crc64(e.encoded()));
        assert(framed(e).len() == 17 + len);
        if cut >= 9 {
            assert(rest.subrange(1, 9) =~= be_bytes(len));
        }
    } else {
        let left = entries.skip(1);
        assert forall|i: int| 0 <= i < left.len() implies storable(#[trigger] left[i]) by {
            assert(left[i] == entries[i + 1]);
        }
        law_log_that_breaks_off_is_found(left, e, cut, path);
        lemma_read_framed(entries[0], frames(left) + rest, path);
        assert(frames(entries) + rest =~= framed(entries[0]) + (frames(left) + rest));
    }
}

/// An entry of a kind that there is not is an error, though its checksum is right.
pub proof fn law_unknown_entry_is_refused(code: u8, data: Seq<u8>, rest: Seq<u8>, path: Seq<char>)
    requires
        3 < code < 255,
        data.len() <= isize::MAX,
    ensures
        ({
            let body = seq![code] + be_bytes(data.len() as u64) + data;
            let r = read_log(body + be_bytes(crc64(body)) + rest, path);
            &&& r matches Some(Err(error)) && error.status == ErrorCode::InternalServerError
                && error.message == "Invalid WAL entry"@
        }),
{
    let len = data.len() as u64;
    let size = be_bytes(len);
    let body = seq![code] + size + data;
    let sum = be_bytes(crc64(body));
    let b = body + sum + rest;
    law_be_round_trip(len);
    law_be_round_trip(crc64(body));
    assert(b =~= seq![code] + size + data + sum + rest);
    assert(b.subrange(1, 9) =~= size);
    assert(b.take(9 + len) =~= body);
    assert(b.subrange(9 + len, 17 + len) =~= sum);
}

} // verus!
