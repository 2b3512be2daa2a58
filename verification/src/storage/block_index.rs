//! The index of an entry's blocks.

use crate::error::{ErrorCode, ErrorView, ReductError};
use crate::storage::binary::{be_bytes, checksum, crc64, put_be};
use crate::storage::ids::ascending;
use crate::storage::sums::{
    lemma_sum_insert, lemma_sum_listed_take, lemma_sum_of_all_keys, lemma_sum_remove, sum_listed,
    sum_values,
};
use crate::storage::wal::{path_debug, path_debug_text};
use crate::text::ends_with;
use std::collections::{BTreeSet, HashMap};
use std::sync::atomic::{AtomicU64, Ordering};
use std::sync::Arc;
use vstd::prelude::*;

verus! {

/// A point in time as the storage format has it.
#[derive(Debug, Clone, Copy, PartialEq, Eq)]
pub struct Timestamp {
    pub seconds: i64,
    pub nanos: i32,
}

impl Timestamp {
    pub open spec fn micros(self) -> int {
        self.seconds * 1_000_000 + self.nanos / 1000
    }

    /// Whether the time is not before the epoch and fits into microseconds.
    pub open spec fn valid(self) -> bool {
        self.seconds >= 0 && self.nanos >= 0 && self.micros() <= u64::MAX
    }
}

impl Default for Timestamp {
    fn default() -> (r: Timestamp)
        ensures
            r.seconds == 0,
            r.nanos == 0,
    {
        Timestamp { seconds: 0, nanos: 0 }
    }
}

/// Microseconds since the epoch.
pub fn ts_to_us(ts: &Timestamp) -> (r: u64)
    requires
        ts.valid(),
    ensures
        r == ts.micros(),
{
    ts.seconds as u64 * 1_000_000 + (ts.nanos as u64) / 1000
}

pub open spec fn timestamp_of(us: u64) -> Timestamp {
    Timestamp { seconds: (us / 1_000_000) as i64, nanos: ((us % 1_000_000) * 1000) as i32 }
}

pub fn us_to_ts(us: u64) -> (r: Timestamp)
    ensures
        r == timestamp_of(us),
{
    Timestamp { seconds: (us / 1_000_000) as i64, nanos: ((us % 1_000_000) * 1000) as i32 }
}

/// Microseconds survive the storage format.
pub proof fn law_timestamp_round_trip(us: u64)
    ensures
        timestamp_of(us).valid(),
        timestamp_of(us).micros() == us,
{
}

/// What the index keeps of a block.
#[derive(Debug, Clone, Copy, PartialEq, Eq)]
pub struct BlockEntry {
    pub block_id: u64,
    pub size: u64,
    pub record_count: u64,
    pub metadata_size: u64,
    pub latest_record_time: Option<Timestamp>,
    pub crc64: Option<u64>,
    pub compression: Option<i32>,
    pub corrupted: Option<bool>,
    pub version: Option<u64>,
}

impl BlockEntry {
    /// The bytes that the block takes on disk.
    pub open spec fn total(self) -> nat {
        (self.size + self.metadata_size) as nat
    }

    /// Whether that number fits.
    pub open spec fn fits(self) -> bool {
        self.total() <= u64::MAX
    }
}

/// The head of a block descriptor: all but the records.
pub struct MinimalBlock {
    pub begin_time: Option<Timestamp>,
    pub size: u64,
    pub record_count: u64,
    pub metadata_size: u64,
    pub latest_record_time: Option<Timestamp>,
    pub corrupted: Option<bool>,
    pub version: Option<u64>,
}

impl MinimalBlock {
    /// What the index keeps of the block.
    pub open spec fn entry(self) -> BlockEntry {
        BlockEntry {
            block_id: self.begin_time->0.micros() as u64,
            size: self.size,
            record_count: self.record_count,
            metadata_size: self.metadata_size,
            latest_record_time: self.latest_record_time,
            crc64: None,
            compression: None,
            corrupted: self.corrupted,
            version: self.version,
        }
    }

    pub fn into_entry(self) -> (r: BlockEntry)
        requires
            self.begin_time is Some && self.begin_time->0.valid(),
        ensures
            r == (BlockEntry {
                block_id: self.begin_time->0.micros() as u64,
                size: self.size,
                record_count: self.record_count,
                metadata_size: self.metadata_size,
                latest_record_time: self.latest_record_time,
                crc64: None,
                compression: None,
                corrupted: self.corrupted,
                version: self.version,
            }),
            r == self.entry(),
    {
        let begin: Timestamp = self.begin_time.unwrap();
        BlockEntry {
            block_id: ts_to_us(&begin),
            size: self.size,
            record_count: self.record_count,
            metadata_size: self.metadata_size,
            latest_record_time: self.latest_record_time,
            crc64: None,
            compression: None,
            corrupted: self.corrupted,
            version: self.version,
        }
    }
}

/// A block in memory, as far as the index looks at it.
#[derive(Debug, Clone, Copy, PartialEq, Eq)]
pub struct Block {
    pub block_id: u64,
    pub size: u64,
    pub record_count: u64,
    pub metadata_size: u64,
    pub latest_record_time: u64,
}

impl From<Block> for BlockEntry {
    fn from(block: Block) -> (r: BlockEntry) {
        BlockEntry {
            block_id: block.block_id,
            size: block.size,
            record_count: block.record_count,
            metadata_size: block.metadata_size,
            latest_record_time: Some(us_to_ts(block.latest_record_time)),
            crc64: None,
            compression: None,
            corrupted: None,
            version: None,
        }
    }
}

impl vstd::std_specs::convert::FromSpecImpl<Block> for BlockEntry {
    open spec fn obeys_from_spec() -> bool {
        true
    }

    open spec fn from_spec(block: Block) -> BlockEntry {
        BlockEntry {
            block_id: block.block_id,
            size: block.size,
            record_count: block.record_count,
            metadata_size: block.metadata_size,
            latest_record_time: Some(timestamp_of(block.latest_record_time)),
            crc64: None,
            compression: None,
            corrupted: None,
            version: None,
        }
    }
}

/// What an index says: where it is kept, and the blocks by their ids.
pub struct IndexView {
    pub path: Seq<char>,
    pub info: Map<u64, BlockEntry>,
}

/// The disk usage of each block.
pub open spec fn sizes(info: Map<u64, BlockEntry>) -> Map<u64, nat> {
    info.map_values(|block: BlockEntry| block.total())
}

/// The disk usage of a block, nothing where it is not there.
pub open spec fn size_at(info: Map<u64, BlockEntry>, block_id: u64) -> nat {
    if info.contains_key(block_id) {
        info[block_id].total()
    } else {
        0
    }
}

/// The number of records in each block.
pub open spec fn record_counts(info: Map<u64, BlockEntry>) -> Map<u64, nat> {
    info.map_values(|block: BlockEntry| block.record_count as nat)
}

/// The index after a block was inserted: an entry without a version takes over the version
/// that the index had for the block.
pub open spec fn inserted(info: Map<u64, BlockEntry>, block: BlockEntry) -> Map<u64, BlockEntry> {
    let version = if block.version is None && info.contains_key(block.block_id) {
        info[block.block_id].version
    } else {
        block.version
    };
    info.insert(block.block_id, BlockEntry { version, ..block })
}

/// Whether an index holds a block as it was put in: every field is that of the block that was put,
/// but for a version that was not given, which stays as it was; all other blocks are untouched.
pub open spec fn holds_as_put(
    before: Map<u64, BlockEntry>,
    after: Map<u64, BlockEntry>,
    put: BlockEntry,
) -> bool {
    let got = after[put.block_id];
    &&& after.dom() == before.dom().insert(put.block_id)
    &&& got.block_id == put.block_id
    &&& got.size == put.size
    &&& got.record_count == put.record_count
    &&& got.metadata_size == put.metadata_size
    &&& got.latest_record_time == put.latest_record_time
    &&& got.crc64 == put.crc64
    &&& got.compression == put.compression
    &&& got.corrupted == put.corrupted
    &&& put.version is Some ==> got.version == put.version
    &&& put.version is None && before.contains_key(put.block_id) ==> got.version
        == before[put.block_id].version
    &&& put.version is None && !before.contains_key(put.block_id) ==> got.version is None
    &&& forall|other: u64|
        other != put.block_id && before.contains_key(other) ==> #[trigger] after[other]
            == before[other]
}

/// The index after a block was removed.
pub open spec fn removed(info: Map<u64, BlockEntry>, block_id: u64) -> Map<u64, BlockEntry> {
    info.remove(block_id)
}

/// Whether an answer is the active block that is the last to start at or before a time.
pub open spec fn is_last_active_at(m: IndexView, time: u64, answer: Option<u64>) -> bool {
    match answer {
        Some(id) => m.active(id) && id <= time && forall|other: u64| #[trigger]
            m.active(other) && other <= time ==> other <= id,
        None => forall|other: u64| #[trigger] m.active(other) ==> other > time,
    }
}

/// Whether an answer is the first active block.
pub open spec fn is_first_active(m: IndexView, answer: Option<u64>) -> bool {
    match answer {
        Some(id) => m.active(id) && forall|other: u64| #[trigger] m.active(other) ==> id <= other,
        None => forall|other: u64| !#[trigger] m.active(other),
    }
}

/// Whether ids are those of the corrupted blocks, in ascending order.
pub open spec fn lists_corrupted(m: IndexView, ids: Seq<u64>) -> bool {
    ascending_ids(ids) && forall|id: u64| #[trigger] ids.contains(id) <==> m.corrupted(id)
}

/// The index after a block was marked as corrupted, if it is there.
pub open spec fn marked(info: Map<u64, BlockEntry>, block_id: u64) -> Map<u64, BlockEntry> {
    if info.contains_key(block_id) {
        info.insert(block_id, BlockEntry { corrupted: Some(true), ..info[block_id] })
    } else {
        info
    }
}

/// Whether ids are in ascending order, each once.
pub open spec fn ascending_ids(ids: Seq<u64>) -> bool {
    forall|i: int, j: int| 0 <= i < j < ids.len() ==> ids[i] < ids[j]
}

impl IndexView {
    /// The disk usage of all blocks.
    pub open spec fn size(self) -> nat {
        sum_values(sizes(self.info))
    }

    pub open spec fn corrupted(self, block_id: u64) -> bool {
        self.info.contains_key(block_id) && self.info[block_id].corrupted == Some(true)
    }

    /// Whether a block is there and not corrupted.
    pub open spec fn active(self, block_id: u64) -> bool {
        self.info.contains_key(block_id) && !self.corrupted(block_id)
    }
}

/// The blocks of an entry by their ids, and their size on disk.
#[derive(Debug)]
pub struct BlockIndex {
    path: String,
    index_info: HashMap<u64, BlockEntry>,
    index: BTreeSet<u64>,
    total_size: u64,
    /// Follows `total_size` for readers that do not lock the index.
    counter: Arc<AtomicU64>,
}

impl View for BlockIndex {
    type V = IndexView;

    closed spec fn view(&self) -> IndexView {
        IndexView { path: self.path@, info: self.index_info@ }
    }
}

impl BlockIndex {
    /// The ids are those of the entries, every entry's size fits, and the total is the sum of
    /// all sizes, modulo two to the power of 64.
    pub closed spec fn wf(self) -> bool {
        &&& self.index@ == self.index_info@.dom()
        &&& self.index_info@.dom().finite()
        &&& forall|id: u64| #[trigger] self.index_info@.contains_key(id) ==> self.index_info@[id].fits()
        &&& self.total_size as nat == sum_values(sizes(self.index_info@)) % 0x1_0000_0000_0000_0000
    }

    /// The counter through which the index publishes its size.
    pub closed spec fn counter(self) -> Arc<AtomicU64> {
        self.counter
    }

    pub fn new(path: String) -> (r: BlockIndex)
        ensures
            r.wf(),
            r@ == (IndexView { path: path@, info: Map::empty() }),
    {
        let r = BlockIndex {
            path,
            index_info: HashMap::new(),
            index: BTreeSet::new(),
            total_size: 0,
            counter: Arc::new(AtomicU64::new(0)),
        };
        assert(sizes(r.index_info@) =~= Map::<u64, nat>::empty());
        assert(r.index@ =~= r.index_info@.dom());
        r
    }

    fn adjust_total_size(&mut self, before: u64, after: u64)
        ensures
            final(self).index_info == old(self).index_info,
            final(self).index == old(self).index,
            final(self).path == old(self).path,
            final(self).counter() == old(self).counter(),
            final(self).total_size == (old(self).total_size + after - before)
                % 0x1_0000_0000_0000_0000,
    {
        if after >= before {
            self.counter.fetch_add(after - before, Ordering::AcqRel);
            self.total_size = self.total_size.wrapping_add(after - before);
        } else {
            self.counter.fetch_sub(before - after, Ordering::AcqRel);
            self.total_size = self.total_size.wrapping_sub(before - after);
        }
    }

    fn insert(&mut self, block: BlockEntry)
        requires
            old(self).wf(),
            block.fits(),
        ensures
            final(self).wf(),
            final(self).counter() == old(self).counter(),
            final(self)@ == (IndexView { info: inserted(old(self)@.info, block), ..old(self)@ }),
    {
        let id: u64 = block.block_id;
        let added: u64 = block.size + block.metadata_size;
        let previous: Option<BlockEntry> = match self.index_info.get(&id) {
            Some(previous) => Some(*previous),
            None => None,
        };
        let mut block = block;
        if block.version.is_none() {
            block.version = match previous {
                Some(previous) => previous.version,
                None => None,
            };
        }
        let removed: u64 = match previous {
            Some(previous) => previous.size + previous.metadata_size,
            None => 0,
        };
        let ghost before = self.index_info@;
        self.index_info.insert(id, block);
        self.index.insert(id);
        proof {
            assert(sizes(before).dom() =~= before.dom());
            lemma_sum_insert(sizes(before), id, block.total());
            assert(sizes(self.index_info@) =~= sizes(before).insert(id, block.total()));
        }
        self.adjust_total_size(removed, added);
        assert(self.index@ =~= self.index_info@.dom());
    }

    /// Inserts or updates a block.
    pub fn insert_or_update(&mut self, entry: BlockEntry)
        requires
            old(self).wf(),
            entry.fits(),
        ensures
            final(self).wf(),
            final(self).counter() == old(self).counter(),
            final(self)@ == (IndexView { info: inserted(old(self)@.info, entry), ..old(self)@ }),
            holds_as_put(old(self)@.info, final(self)@.info, entry),
    {
        self.insert(entry);
    }

    /// Inserts or updates a block that was written to disk, with its checksum.
    pub fn insert_or_update_with_crc(&mut self, entry: BlockEntry, crc: u64)
        requires
            old(self).wf(),
            entry.fits(),
        ensures
            final(self).wf(),
            final(self).counter() == old(self).counter(),
            final(self)@ == (IndexView {
                info: inserted(old(self)@.info, BlockEntry { crc64: Some(crc), ..entry }),
                ..old(self)@
            }),
            holds_as_put(
                old(self)@.info,
                final(self)@.info,
                BlockEntry { crc64: Some(crc), ..entry },
            ),
    {
        let mut block = entry;
        block.crc64 = Some(crc);
        self.insert(block);
    }

    pub fn get_block(&self, block_id: u64) -> (r: Option<&BlockEntry>)
        ensures
            match r {
                Some(block) => self@.info.contains_pair(block_id, *block),
                None => !self@.info.contains_key(block_id),
            },
    {
        self.index_info.get(&block_id)
    }

    /// Applies a change to a block. The result is false when the block is not in the index.
    pub fn update_block(&mut self, block_id: u64, update: impl FnOnce(&mut BlockEntry)) -> (r: bool)
        requires
            old(self).wf(),
            old(self)@.info.contains_key(block_id) ==> forall|entry: &mut BlockEntry|
                *entry == old(self)@.info[block_id] ==> #[trigger] call_requires(update, (entry,)),
            old(self)@.info.contains_key(block_id) ==> forall|entry: &mut BlockEntry|
                *entry == old(self)@.info[block_id] && #[trigger] call_ensures(update, (entry,), ())
                    ==> (*final(entry)).fits(),
        ensures
            final(self).wf(),
            final(self).counter() == old(self).counter(),
            r == old(self)@.info.contains_key(block_id),
            !r ==> final(self)@ == old(self)@,
            r ==> exists|entry: &mut BlockEntry|
                *entry == old(self)@.info[block_id] && #[trigger] call_ensures(update, (entry,), ())
                    && final(self)@ == (IndexView {
                    info: old(self)@.info.insert(block_id, *final(entry)),
                    ..old(self)@
                }),
    {
        let mut block: BlockEntry = match self.index_info.get(&block_id) {
            Some(block) => *block,
            None => {
                return false;
            },
        };
        let ghost info = self.index_info@;
        let before: u64 = block.size + block.metadata_size;
        update(&mut block);
        let after: u64 = block.size + block.metadata_size;
        self.index_info.insert(block_id, block);
        proof {
            assert(sizes(info).dom() =~= info.dom());
            lemma_sum_insert(sizes(info), block_id, block.total());
            assert(sizes(self.index_info@) =~= sizes(info).insert(block_id, block.total()));
            assert(self.index_info@.dom() =~= info.dom());
        }
        self.adjust_total_size(before, after);
        true
    }

    pub fn remove_block(&mut self, block_id: u64) -> (r: Option<BlockEntry>)
        requires
            old(self).wf(),
        ensures
            final(self).wf(),
            final(self).counter() == old(self).counter(),
            final(self)@ == (IndexView { info: old(self)@.info.remove(block_id), ..old(self)@ }),
            final(self)@.info == removed(old(self)@.info, block_id),
            r == (if old(self)@.info.contains_key(block_id) {
                Some(old(self)@.info[block_id])
            } else {
                None
            }),
    {
        let ghost info = self.index_info@;
        let block: Option<BlockEntry> = self.index_info.remove(&block_id);
        self.index.remove(&block_id);
        proof {
            assert(sizes(info).dom() =~= info.dom());
            assert(sizes(self.index_info@) =~= sizes(info).remove(block_id));
            if info.contains_key(block_id) {
                lemma_sum_remove(sizes(info), block_id);
            } else {
                assert(sizes(info).remove(block_id) =~= sizes(info));
            }
            assert(self.index@ =~= self.index_info@.dom());
        }
        if let Some(block) = &block {
            self.adjust_total_size(block.size + block.metadata_size, 0);
        }
        block
    }

    pub fn is_corrupted(&self, block_id: u64) -> (r: bool)
        ensures
            r == self@.corrupted(block_id),
    {
        match self.index_info.get(&block_id) {
            Some(block) => match block.corrupted {
                Some(corrupted) => corrupted,
                None => false,
            },
            None => false,
        }
    }

    /// Marks a block as corrupted, if it is in the index.
    pub fn mark_corrupted(&mut self, block_id: u64)
        requires
            old(self).wf(),
        ensures
            final(self).wf(),
            final(self).counter() == old(self).counter(),
            final(self)@ == (IndexView {
                info: marked(old(self)@.info, block_id),
                ..old(self)@
            }),
    {
        let found: Option<BlockEntry> = match self.index_info.get(&block_id) {
            Some(block) => Some(*block),
            None => None,
        };
        if let Some(block) = found {
            let mut block = block;
            block.corrupted = Some(true);
            let ghost info = self.index_info@;
            self.index_info.insert(block_id, block);
            proof {
                assert(sizes(self.index_info@) =~= sizes(info));
                assert(self.index_info@.dom() =~= info.dom());
            }
        }
    }

    /// The ids in ascending order.
    fn ids(&self) -> (r: Vec<u64>)
        requires
            self.wf(),
        ensures
            ascending_ids(r@),
            r@.to_set() == self@.info.dom(),
            forall|i: int| 0 <= i < r@.len() ==> self@.info.contains_key(#[trigger] r@[i]),
            forall|id: u64| #[trigger]
                self@.info.contains_key(id) ==> exists|i: int| 0 <= i < r@.len() && r@[i] == id,
    {
        let r = ascending(&self.index);
        proof {
            assert forall|i: int| 0 <= i < r@.len() implies self@.info.contains_key(
                #[trigger] r@[i],
            ) by {
                assert(r@.contains(r@[i]));
                assert(r@.to_set().contains(r@[i]));
            }
            assert forall|id: u64| #[trigger] self@.info.contains_key(id) implies exists|i: int|
                0 <= i < r@.len() && r@[i] == id by {
                assert(r@.to_set().contains(id));
            }
        }
        r
    }

    pub fn corrupted_block_count(&self) -> (r: usize)
        requires
            self.wf(),
        ensures
            r == self@.info.dom().filter(|id: u64| self@.corrupted(id)).len(),
    {
        let ids = self.corrupted_block_ids();
        proof {
            ids@.unique_seq_to_set();
            assert(ids@.to_set() =~= self@.info.dom().filter(|id: u64| self@.corrupted(id)));
        }
        ids.len()
    }

    /// The corrupted blocks in ascending order.
    pub fn corrupted_block_ids(&self) -> (r: Vec<u64>)
        requires
            self.wf(),
        ensures
            ascending_ids(r@),
            forall|id: u64| #[trigger] r@.contains(id) <==> self@.corrupted(id),
            lists_corrupted(self@, r@),
    {
        let ids = self.ids();
        let mut out: Vec<u64> = Vec::new();
        let mut i: usize = 0;
        while i < ids.len()
            invariant
                i <= ids@.len(),
                ascending_ids(ids@),
                ascending_ids(out@),
                forall|k: int| 0 <= k < out@.len() ==> self@.corrupted(#[trigger] out@[k]),
                forall|k: int|
                    0 <= k < out@.len() ==> i > 0 && #[trigger] out@[k] <= ids@[i - 1],
                forall|k: int|
                    0 <= k < i && self@.corrupted(#[trigger] ids@[k]) ==> out@.contains(ids@[k]),
            decreases ids@.len() - i,
        {
            let ghost before = out@;
            if self.is_corrupted(ids[i]) {
                out.push(ids[i]);
                assert(out@[before.len() as int] == ids@[i as int]);
            }
            proof {
                assert forall|k: int|
                    0 <= k < i + 1 && self@.corrupted(#[trigger] ids@[k]) implies out@.contains(
                    ids@[k],
                ) by {
                    if k < i {
                        let j = choose|j: int| 0 <= j < before.len() && before[j] == ids@[k];
                        assert(out@[j] == ids@[k]);
                    }
                }
            }
            i = i + 1;
        }
        out
    }

    /// The first block that is not corrupted.
    pub fn first_active_block_id(&self) -> (r: Option<u64>)
        requires
            self.wf(),
        ensures
            match r {
                Some(id) => self@.active(id) && forall|other: u64| #[trigger]
                    self@.active(other) ==> id <= other,
                None => forall|other: u64| !#[trigger] self@.active(other),
            },
            is_first_active(self@, r),
    {
        let ids = self.ids();
        let mut i: usize = 0;
        while i < ids.len()
            invariant
                i <= ids@.len(),
                ascending_ids(ids@),
                forall|k: int| 0 <= k < ids@.len() ==> self@.info.contains_key(#[trigger] ids@[k]),
                forall|id: u64| #[trigger]
                    self@.info.contains_key(id) ==> exists|k: int|
                        0 <= k < ids@.len() && ids@[k] == id,
                forall|k: int| 0 <= k < i ==> !self@.active(#[trigger] ids@[k]),
            decreases ids@.len() - i,
        {
            if !self.is_corrupted(ids[i]) {
                assert(self@.info.contains_key(ids@[i as int]));
                return Some(ids[i]);
            }
            i = i + 1;
        }
        None
    }

    /// The last block that is not corrupted.
    pub fn last_active_block_id(&self) -> (r: Option<u64>)
        requires
            self.wf(),
        ensures
            match r {
                Some(id) => self@.active(id) && forall|other: u64| #[trigger]
                    self@.active(other) ==> other <= id,
                None => forall|other: u64| !#[trigger] self@.active(other),
            },
            is_last_active_at(self@, u64::MAX, r),
    {
        self.active_block_id_at(u64::MAX)
    }

    /// The last block that starts at or before a time and is not corrupted.
    pub fn active_block_id_at(&self, time: u64) -> (r: Option<u64>)
        requires
            self.wf(),
        ensures
            match r {
                Some(id) => self@.active(id) && id <= time && forall|other: u64| #[trigger]
                    self@.active(other) && other <= time ==> other <= id,
                None => forall|other: u64| #[trigger] self@.active(other) ==> other > time,
            },
            is_last_active_at(self@, time, r),
    {
        let ids = self.ids();
        let mut i: usize = ids.len();
        while i > 0
            invariant
                i <= ids@.len(),
                ascending_ids(ids@),
                forall|k: int| 0 <= k < ids@.len() ==> self@.info.contains_key(#[trigger] ids@[k]),
                forall|id: u64| #[trigger]
                    self@.info.contains_key(id) ==> exists|k: int|
                        0 <= k < ids@.len() && ids@[k] == id,
                forall|k: int|
                    i <= k < ids@.len() ==> !(self@.active(#[trigger] ids@[k]) && ids@[k] <= time),
            decreases i,
        {
            i = i - 1;
            if ids[i] <= time && !self.is_corrupted(ids[i]) {
                assert(self@.info.contains_key(ids@[i as int]));
                return Some(ids[i]);
            }
        }
        None
    }

    /// The blocks that are not corrupted.
    pub fn active_tree(&self) -> (r: BTreeSet<u64>)
        requires
            self.wf(),
        ensures
            forall|id: u64| #[trigger] r@.contains(id) <==> self@.active(id),
    {
        let ids = self.ids();
        let mut out: BTreeSet<u64> = BTreeSet::new();
        let mut i: usize = 0;
        while i < ids.len()
            invariant
                i <= ids@.len(),
                forall|k: int| 0 <= k < ids@.len() ==> self@.info.contains_key(#[trigger] ids@[k]),
                forall|id: u64| #[trigger] out@.contains(id) ==> self@.active(id),
                forall|k: int|
                    0 <= k < i && self@.active(#[trigger] ids@[k]) ==> out@.contains(ids@[k]),
            decreases ids@.len() - i,
        {
            assert(self@.info.contains_key(ids@[i as int]));
            if !self.is_corrupted(ids[i]) {
                out.insert(ids[i]);
            }
            i = i + 1;
        }
        out
    }

    /// The disk usage of all blocks.
    pub fn size(&self) -> (r: u64)
        requires
            self.wf(),
        ensures
            r as nat == self@.size() % 0x1_0000_0000_0000_0000,
    {
        self.total_size
    }

    /// The counter that follows [`BlockIndex::size`], readable without locking the index. What
    /// the counter reads is not stated here, since others hold it too.
    pub fn size_counter(&self) -> (r: Arc<AtomicU64>)
        ensures
            r == self.counter(),
    {
        self.counter.clone()
    }

    /// Publishes the size of this index through `counter` from now on.
    pub fn adopt_size_counter(&mut self, counter: Arc<AtomicU64>)
        requires
            old(self).wf(),
        ensures
            final(self).wf(),
            final(self)@ == old(self)@,
            final(self).counter() == counter,
    {
        counter.store(self.total_size, Ordering::Release);
        self.counter = counter;
    }

    /// The number of records in all blocks.
    pub fn record_count(&self) -> (r: u64)
        requires
            self.wf(),
            sum_values(record_counts(self@.info)) <= u64::MAX,
        ensures
            r == sum_values(record_counts(self@.info)),
    {
        let ids = self.ids();
        let ghost counts = record_counts(self@.info);
        proof {
            assert(counts.dom() =~= self@.info.dom());
            lemma_sum_of_all_keys(counts, ids@);
        }
        let mut sum: u64 = 0;
        let mut i: usize = 0;
        assert(ids@.take(0) =~= Seq::<u64>::empty());
        while i < ids.len()
            invariant
                i <= ids@.len(),
                counts == record_counts(self@.info),
                forall|k: int| 0 <= k < ids@.len() ==> self@.info.contains_key(#[trigger] ids@[k]),
                sum_listed(counts, ids@) <= u64::MAX,
                sum == sum_listed(counts, ids@.take(i as int)),
            decreases ids@.len() - i,
        {
            assert(self@.info.contains_key(ids@[i as int]));
            let count: u64 = match self.index_info.get(&ids[i]) {
                Some(block) => block.record_count,
                None => 0,
            };
            proof {
                lemma_sum_listed_take(counts, ids@, i + 1);
                assert(ids@.take(i + 1).drop_last() =~= ids@.take(i as int));
            }
            sum = sum + count;
            i = i + 1;
        }
        assert(ids@.take(i as int) =~= ids@);
        sum
    }

    /// The ids of all blocks.
    pub fn tree(&self) -> (r: &BTreeSet<u64>)
        requires
            self.wf(),
        ensures
            r@ == self@.info.dom(),
    {
        &self.index
    }

    /// All blocks by their ids.
    pub fn info(&self) -> (r: &HashMap<u64, BlockEntry>)
        ensures
            r@ == self@.info,
    {
        &self.index_info
    }

    /// Where the index is kept.
    pub fn path(&self) -> (r: &str)
        ensures
            r@ == self@.path,
    {
        self.path.as_str()
    }
}

/// An index as it is written to disk.
pub struct BlockIndexProto {
    pub blocks: Vec<BlockEntry>,
    pub crc64: u64,
}

/// What the checksum of an index covers of a block.
pub open spec fn block_digest(block: BlockEntry) -> Seq<u8> {
    be_bytes(block.block_id) + be_bytes(block.size) + be_bytes(block.record_count) + be_bytes(
        block.metadata_size,
    ) + be_bytes(block.latest_record_time->0.micros() as u64) + (match block.crc64 {
        Some(crc) => be_bytes(crc),
        None => Seq::empty(),
    }) + (match block.corrupted {
        Some(corrupted) => seq![if corrupted { 1u8 } else { 0u8 }],
        None => Seq::empty(),
    }) + (match block.version {
        Some(version) => be_bytes(version),
        None => Seq::empty(),
    })
}

/// What the checksum of an index covers.
pub open spec fn index_digest(blocks: Seq<BlockEntry>) -> Seq<u8>
    decreases blocks.len(),
{
    if blocks.len() == 0 {
        Seq::empty()
    } else {
        index_digest(blocks.drop_last()) + block_digest(blocks.last())
    }
}

/// Whether a block can be written or read: it has a latest record time that can be given in
/// microseconds, and its size fits.
pub open spec fn storable_block(block: BlockEntry) -> bool {
    block.latest_record_time is Some && block.latest_record_time->0.valid() && block.fits()
}

pub open spec fn storable_blocks(blocks: Seq<BlockEntry>) -> bool {
    forall|i: int| 0 <= i < blocks.len() ==> storable_block(#[trigger] blocks[i])
}

/// The index that inserting blocks in order comes to.
pub open spec fn inserted_all(blocks: Seq<BlockEntry>) -> Map<u64, BlockEntry>
    decreases blocks.len(),
{
    if blocks.len() == 0 {
        Map::empty()
    } else {
        inserted(inserted_all(blocks.drop_last()), blocks.last())
    }
}

/// An error about an index file.
pub open spec fn index_error(path: Seq<char>, what: Seq<char>) -> ErrorView {
    ErrorView {
        status: ErrorCode::InternalServerError,
        message: "Block index "@ + path_debug(path) + what,
    }
}

/// An error in the middle of handling an index file.
pub open spec fn index_failure(doing: Seq<char>, path: Seq<char>, cause: Seq<char>) -> ErrorView {
    ErrorView {
        status: ErrorCode::InternalServerError,
        message: doing + path_debug(path) + ": "@ + cause,
    }
}

fn make_index_error(path: &str, what: &str) -> (r: ReductError)
    ensures
        r@ == index_error(path@, what@),
{
    let message = "Block index ".to_owned().concat(path_debug_text(path).as_str()).concat(what);
    ReductError { status: ErrorCode::InternalServerError, message }
}

fn make_index_failure(doing: &str, path: &str, cause: &str) -> (r: ReductError)
    ensures
        r@ == index_failure(doing@, path@, cause@),
{
    let message = doing.to_owned().concat(path_debug_text(path).as_str()).concat(": ").concat(
        cause,
    );
    ReductError { status: ErrorCode::InternalServerError, message }
}

/// The error for an index file that is not there.
pub fn index_not_found(path: &str) -> (r: ReductError)
    ensures
        r@ == index_error(path@, " not found"@),
{
    make_index_error(path, " not found")
}

/// How the name of a block's descriptor file ends.
pub const DESCRIPTOR_FILE_EXT: &'static str = ".meta";

/// How the name of a block's compressed descriptor file ends.
pub const COMPRESSED_DESCRIPTOR_FILE_EXT: &'static str = ".meta.zst";

/// Whether a file is the descriptor of a block, by its name.
pub fn is_block_descriptor(name: &str) -> (r: bool)
    ensures
        r == (".meta"@.is_suffix_of(name@) || ".meta.zst"@.is_suffix_of(name@)),
{
    ends_with(name, DESCRIPTOR_FILE_EXT) || ends_with(name, COMPRESSED_DESCRIPTOR_FILE_EXT)
}

/// An empty index file is right only for an entry without blocks.
pub fn check_empty_index(path: &str, file_len: u64, has_block_descriptors: bool) -> (r: Result<
    (),
    ReductError,
>)
    ensures
        r is Ok <==> !(file_len == 0 && has_block_descriptors),
        r matches Err(e) ==> e@ == index_error(path@, " is empty"@),
{
    if file_len == 0 && has_block_descriptors {
        Err(make_index_error(path, " is empty"))
    } else {
        Ok(())
    }
}

pub fn index_read_failure(path: &str, cause: &str) -> (r: ReductError)
    ensures
        r@ == index_failure("Failed to read block index "@, path@, cause@),
{
    make_index_failure("Failed to read block index ", path, cause)
}

pub fn index_decode_failure(path: &str, cause: &str) -> (r: ReductError)
    ensures
        r@ == index_failure("Failed to decode block index "@, path@, cause@),
{
    make_index_failure("Failed to decode block index ", path, cause)
}

pub fn index_write_failure(path: &str, cause: &str) -> (r: ReductError)
    ensures
        r@ == index_failure("Failed to write block index "@, path@, cause@),
{
    make_index_failure("Failed to write block index ", path, cause)
}

fn put_block(buf: &mut Vec<u8>, block: &BlockEntry)
    requires
        storable_block(*block),
    ensures
        final(buf)@ == old(buf)@ + block_digest(*block),
{
    let time: Timestamp = block.latest_record_time.unwrap();
    put_be(buf, block.block_id);
    put_be(buf, block.size);
    put_be(buf, block.record_count);
    put_be(buf, block.metadata_size);
    put_be(buf, ts_to_us(&time));
    if let Some(crc) = block.crc64 {
        put_be(buf, crc);
    }
    if let Some(corrupted) = block.corrupted {
        buf.push(
            if corrupted {
                1
            } else {
                0
            },
        );
    }
    if let Some(version) = block.version {
        put_be(buf, version);
    }
    assert(buf@ =~= old(buf)@ + block_digest(*block));
}

/// The checksum of an index.
fn index_checksum(blocks: &Vec<BlockEntry>) -> (r: u64)
    requires
        storable_blocks(blocks@),
    ensures
        r == crc64(index_digest(blocks@)),
{
    let mut buf: Vec<u8> = Vec::new();
    let mut i: usize = 0;
    assert(blocks@.take(0) =~= Seq::<BlockEntry>::empty());
    while i < blocks.len()
        invariant
            i <= blocks@.len(),
            storable_blocks(blocks@),
            buf@ == index_digest(blocks@.take(i as int)),
        decreases blocks@.len() - i,
    {
        assert(blocks@.take(i + 1).drop_last() =~= blocks@.take(i as int));
        assert(storable_block(blocks@[i as int]));
        put_block(&mut buf, &blocks[i]);
        i = i + 1;
    }
    assert(blocks@.take(i as int) =~= blocks@);
    checksum(buf.as_slice())
}

/// Whether all blocks of an index file can be taken in.
pub fn loadable(value: &BlockIndexProto) -> (r: bool)
    ensures
        r == storable_blocks(value.blocks@),
{
    let mut i: usize = 0;
    while i < value.blocks.len()
        invariant
            i <= value.blocks@.len(),
            forall|j: int| 0 <= j < i ==> storable_block(#[trigger] value.blocks@[j]),
        decreases value.blocks@.len() - i,
    {
        let block: BlockEntry = value.blocks[i];
        let good: bool = match block.latest_record_time {
            Some(time) => {
                let limit: i64 = 18_446_744_073_709;
                time.nanos >= 0 && time.seconds >= 0 && time.seconds <= limit && (time.nanos / 1000)
                    as u64 <= u64::MAX - time.seconds as u64 * 1_000_000 && block.size <= u64::MAX
                    - block.metadata_size
            },
            None => false,
        };
        assert(good == storable_block(value.blocks@[i as int]));
        if !good {
            return false;
        }
        i = i + 1;
    }
    true
}

impl BlockIndex {
    /// Takes in an index file, if its checksum is right.
    pub fn from_proto(path: String, value: BlockIndexProto) -> (r: Result<BlockIndex, ReductError>)
        requires
            storable_blocks(value.blocks@),
        ensures
            match r {
                Ok(index) => {
                    &&& crc64(index_digest(value.blocks@)) == value.crc64
                    &&& index.wf()
                    &&& index@ == (IndexView { path: path@, info: inserted_all(value.blocks@) })
                },
                Err(e) => {
                    &&& crc64(index_digest(value.blocks@)) != value.crc64
                    &&& e@ == index_error(path@, " is corrupted"@)
                },
            },
    {
        if index_checksum(&value.blocks) != value.crc64 {
            return Err(make_index_error(path.as_str(), " is corrupted"));
        }
        let ghost name = path@;
        let mut index = BlockIndex::new(path);
        let mut i: usize = 0;
        assert(value.blocks@.take(0) =~= Seq::<BlockEntry>::empty());
        while i < value.blocks.len()
            invariant
                i <= value.blocks@.len(),
                storable_blocks(value.blocks@),
                index.wf(),
                index@ == (IndexView {
                    path: name,
                    info: inserted_all(value.blocks@.take(i as int)),
                }),
            decreases value.blocks@.len() - i,
        {
            assert(value.blocks@.take(i + 1).drop_last() =~= value.blocks@.take(i as int));
            assert(storable_block(value.blocks@[i as int]));
            index.insert(value.blocks[i]);
            i = i + 1;
        }
        assert(value.blocks@.take(i as int) =~= value.blocks@);
        Ok(index)
    }

    /// What is written to disk: the blocks in the order of their ids, and their checksum.
    pub fn to_proto(&self) -> (r: BlockIndexProto)
        requires
            self.wf(),
            forall|id: u64| #[trigger]
                self@.info.contains_key(id) ==> storable_block(self@.info[id]),
        ensures
            exists|ids: Seq<u64>| #[trigger]
                ascending_ids(ids) && ids.to_set() == self@.info.dom() && r.blocks@ == listed(
                    self@.info,
                    ids,
                ),
            r.crc64 == crc64(index_digest(r.blocks@)),
    {
        let ids = self.ids();
        let mut blocks: Vec<BlockEntry> = Vec::new();
        let mut i: usize = 0;
        while i < ids.len()
            invariant
                i <= ids@.len(),
                forall|k: int| 0 <= k < ids@.len() ==> self@.info.contains_key(#[trigger] ids@[k]),
                blocks@ == listed(self@.info, ids@.take(i as int)),
            decreases ids@.len() - i,
        {
            assert(self@.info.contains_key(ids@[i as int]));
            if let Some(block) = self.index_info.get(&ids[i]) {
                blocks.push(*block);
            }
            assert(blocks@ =~= listed(self@.info, ids@.take(i + 1)));
            i = i + 1;
        }
        assert(ids@.take(i as int) =~= ids@);
        assert forall|k: int| 0 <= k < blocks@.len() implies storable_block(
            #[trigger] blocks@[k],
        ) by {
            assert(self@.info.contains_key(ids@[k]));
        }
        let crc64: u64 = index_checksum(&blocks);
        BlockIndexProto { blocks, crc64 }
    }
}

/// The blocks with the given ids, in order.
pub open spec fn listed(info: Map<u64, BlockEntry>, ids: Seq<u64>) -> Seq<BlockEntry> {
    Seq::new(ids.len(), |i: int| info[ids[i]])
}

proof fn lemma_inserted_all(info: Map<u64, BlockEntry>, ids: Seq<u64>)
    requires
        ascending_ids(ids),
        forall|i: int|
            0 <= i < ids.len() ==> info.contains_key(#[trigger] ids[i]) && info[ids[i]].block_id
                == ids[i],
    ensures
        inserted_all(listed(info, ids)).dom() =~= ids.to_set(),
        forall|i: int|
            0 <= i < ids.len() ==> inserted_all(listed(info, ids))[#[trigger] ids[i]]
                == info[ids[i]],
    decreases ids.len(),
{
    let blocks = listed(info, ids);
    if ids.len() > 0 {
        let front = ids.drop_last();
        let last = ids.last();
        assert forall|i: int| 0 <= i < front.len() implies info.contains_key(#[trigger] front[i])
            && info[front[i]].block_id == front[i] by {
            assert(front[i] == ids[i]);
        }
        lemma_inserted_all(info, front);
        assert(blocks.drop_last() =~= listed(info, front));
        assert(ids[ids.len() - 1] == last);
        assert(!front.contains(last));
        let before = inserted_all(listed(info, front));
        assert(!before.contains_key(last));
        assert forall|id: u64| ids.to_set().contains(id) == inserted_all(blocks).dom().contains(
            id,
        ) by {
            if ids.contains(id) && id != last {
                let i = choose|i: int| 0 <= i < ids.len() && ids[i] == id;
                assert(front[i] == id);
                assert(front.contains(id));
            }
            if front.contains(id) {
                let i = choose|i: int| 0 <= i < front.len() && front[i] == id;
                assert(ids[i] == id);
            }
        }
        assert forall|i: int| 0 <= i < ids.len() implies inserted_all(blocks)[#[trigger] ids[i]]
            == info[ids[i]] by {
            if i < front.len() {
                assert(front[i] == ids[i]);
            }
        }
    }
}

/// Whether each block is kept under its own id.
pub open spec fn under_own_ids(info: Map<u64, BlockEntry>) -> bool {
    forall|id: u64| #[trigger] info.contains_key(id) ==> info[id].block_id == id
}

/// Blocks are kept under their own ids: an empty index does so, and so does an index to which a
/// block was added, from which one was taken, in which one was marked, or in which one was
/// replaced by a block with the same id.
pub proof fn law_blocks_keep_their_ids(info: Map<u64, BlockEntry>, id: u64, block: BlockEntry)
    requires
        under_own_ids(info),
    ensures
        under_own_ids(Map::empty()),
        under_own_ids(inserted(info, block)),
        under_own_ids(info.remove(id)),
        under_own_ids(marked(info, id)),
        block.block_id == id ==> under_own_ids(info.insert(id, block)),
{
}

/// The size follows every change: a block that is added or replaced counts with its new size in
/// place of its old one, a block that is removed counts no more, and a mark changes nothing. The
/// size of an empty index is zero.
pub proof fn law_size_follows_changes(info: Map<u64, BlockEntry>, id: u64, block: BlockEntry)
    requires
        info.dom().finite(),
    ensures
        sum_values(sizes(Map::empty())) == 0,
        sum_values(sizes(info.insert(id, block))) == sum_values(sizes(info)) + block.total()
            - size_at(info, id),
        sum_values(sizes(inserted(info, block))) == sum_values(sizes(info)) + block.total()
            - size_at(info, block.block_id),
        sum_values(sizes(info.remove(id))) == sum_values(sizes(info)) - size_at(info, id),
        sum_values(sizes(marked(info, id))) == sum_values(sizes(info)),
{
    let none: Map<u64, BlockEntry> = Map::empty();
    assert(sizes(none) =~= Map::<u64, nat>::empty());
    assert(sizes(info).dom() =~= info.dom());
    lemma_sum_insert(sizes(info), id, block.total());
    assert(sizes(info.insert(id, block)) =~= sizes(info).insert(id, block.total()));
    lemma_sum_insert(sizes(info), block.block_id, block.total());
    assert(sizes(inserted(info, block)) =~= sizes(info).insert(block.block_id, block.total()));
    assert(sizes(info.remove(id)) =~= sizes(info).remove(id));
    if info.contains_key(id) {
        lemma_sum_remove(sizes(info), id);
    } else {
        assert(sizes(info).remove(id) =~= sizes(info));
    }
    assert(sizes(marked(info, id)) =~= sizes(info));
}

/// An index that is read from a file keeps each block under its own id.
pub proof fn law_read_index_keeps_ids(blocks: Seq<BlockEntry>)
    ensures
        under_own_ids(inserted_all(blocks)),
    decreases blocks.len(),
{
    if blocks.len() > 0 {
        law_read_index_keeps_ids(blocks.drop_last());
    }
}

/// An index that was written is read back as it was, provided each block is kept under its own
/// id.
pub proof fn law_index_round_trip(info: Map<u64, BlockEntry>, ids: Seq<u64>)
    requires
        ascending_ids(ids),
        ids.to_set() == info.dom(),
        under_own_ids(info),
    ensures
        inserted_all(listed(info, ids)) == info,
{
    assert forall|i: int| 0 <= i < ids.len() implies info.contains_key(#[trigger] ids[i])
        && info[ids[i]].block_id == ids[i] by {
        assert(ids.contains(ids[i]));
        assert(ids.to_set().contains(ids[i]));
    }
    lemma_inserted_all(info, ids);
    assert(inserted_all(listed(info, ids)) =~= info) by {
        assert forall|id: u64| info.contains_key(id) implies inserted_all(listed(info, ids))[id]
            == info[id] by {
            assert(ids.to_set().contains(id));
            let i = choose|i: int| 0 <= i < ids.len() && ids[i] == id;
            assert(ids[i] == id);
        }
    }
}

} // verus!
