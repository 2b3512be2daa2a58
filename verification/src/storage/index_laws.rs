//! What holds of an index over a history of changes: a block is what was put last, marks and
//! removals do what they say, the totals follow, and the checksum covers every block.

use crate::storage::binary::{be_bytes, be_value, law_be_round_trip};
use crate::storage::block_index::{
    block_digest, holds_as_put, index_digest, inserted, is_first_active,
    is_last_active_at, lists_corrupted, marked, record_counts, removed, sizes, storable_block,
    timestamp_of, Block, BlockEntry, IndexView, MinimalBlock, Timestamp,
};
use crate::storage::sums::{lemma_sum_insert, lemma_sum_remove, sum_values};
use vstd::prelude::*;
use vstd::std_specs::convert::FromSpec;

verus! {

/// What is done to an index.
pub enum IndexOp {
    Put(BlockEntry),
    Remove(u64),
    Mark(u64),
}

/// The blocks of an index behind a number of changes.
pub open spec fn blocks_after(ops: Seq<IndexOp>) -> Map<u64, BlockEntry>
    decreases ops.len(),
{
    if ops.len() == 0 {
        Map::empty()
    } else {
        let before = blocks_after(ops.drop_last());
        match ops.last() {
            IndexOp::Put(block) => inserted(before, block),
            IndexOp::Remove(id) => removed(before, id),
            IndexOp::Mark(id) => marked(before, id),
        }
    }
}

/// The block that was put last under an id, if it was not removed since.
pub open spec fn last_put(ops: Seq<IndexOp>, id: u64) -> Option<BlockEntry>
    decreases ops.len(),
{
    if ops.len() == 0 {
        None
    } else {
        match ops.last() {
            IndexOp::Put(block) if block.block_id == id => Some(block),
            IndexOp::Remove(gone) if gone == id => None,
            _ => last_put(ops.drop_last(), id),
        }
    }
}

/// The version that was given last for an id, if the block was not removed since.
pub open spec fn last_version(ops: Seq<IndexOp>, id: u64) -> Option<u64>
    decreases ops.len(),
{
    if ops.len() == 0 {
        None
    } else {
        match ops.last() {
            IndexOp::Put(block) if block.block_id == id && block.version is Some => block.version,
            IndexOp::Remove(gone) if gone == id => None,
            _ => last_version(ops.drop_last(), id),
        }
    }
}

/// Whether a block was marked since it was put last.
pub open spec fn marked_since(ops: Seq<IndexOp>, id: u64) -> bool
    decreases ops.len(),
{
    ops.len() > 0 && match ops.last() {
        IndexOp::Mark(bad) if bad == id => true,
        IndexOp::Put(block) if block.block_id == id => false,
        _ => marked_since(ops.drop_last(), id),
    }
}

/// A block in the index is the one that was put last under its id: every field is as it was put,
/// whether or not the id was there before. Only the version stays where none was given, and only a
/// mark since then makes it corrupted. A block that was removed, or never put, is not there.
pub proof fn law_block_is_what_was_put_last(ops: Seq<IndexOp>, id: u64)
    ensures
        ({
            let info = blocks_after(ops);
            &&& info.contains_key(id) <==> last_put(ops, id) is Some
            &&& match last_put(ops, id) {
                Some(put) => {
                    let got = info[id];
                    &&& got.block_id == id
                    &&& got.size == put.size
                    &&& got.record_count == put.record_count
                    &&& got.metadata_size == put.metadata_size
                    &&& got.latest_record_time == put.latest_record_time
                    &&& got.crc64 == put.crc64
                    &&& got.compression == put.compression
                    &&& got.version == last_version(ops, id)
                    &&& got.corrupted == (if marked_since(ops, id) {
                        Some(true)
                    } else {
                        put.corrupted
                    })
                },
                None => last_version(ops, id) is None,
            }
        }),
    decreases ops.len(),
{
    if ops.len() > 0 {
        law_block_is_what_was_put_last(ops.drop_last(), id);
    }
}

/// Putting a block replaces all that the index had under its id but a version that is not given
/// anew, and touches no other block. Putting it again changes nothing.
pub proof fn law_put_replaces(info: Map<u64, BlockEntry>, put: BlockEntry)
    ensures
        holds_as_put(info, inserted(info, put), put),
        inserted(info, put)[put.block_id].record_count == put.record_count,
        inserted(info, put)[put.block_id].size == put.size,
        inserted(info, put)[put.block_id].metadata_size == put.metadata_size,
        inserted(info, put)[put.block_id].latest_record_time == put.latest_record_time,
        inserted(info, put)[put.block_id].crc64 == put.crc64,
        inserted(info, put)[put.block_id].compression == put.compression,
        inserted(info, put)[put.block_id].corrupted == put.corrupted,
        put.version is Some ==> inserted(info, put)[put.block_id].version == put.version,
        inserted(inserted(info, put), put) == inserted(info, put),
        forall|other: u64|
            other != put.block_id ==> #[trigger] inserted(info, put).contains_key(other)
                == info.contains_key(other) && (info.contains_key(other) ==> inserted(
                info,
                put,
            )[other] == info[other]),
{
    assert(inserted(inserted(info, put), put) =~= inserted(info, put));
    assert(inserted(info, put).dom() =~= info.dom().insert(put.block_id));
}

/// Marking a block changes its mark alone, and only where it is there; it takes nothing away.
pub proof fn law_mark_changes_the_mark_alone(info: Map<u64, BlockEntry>, id: u64, other: u64)
    ensures
        ({
            let after = marked(info, id);
            &&& after.contains_key(other) == info.contains_key(other)
            &&& info.contains_key(other) && other != id ==> after[other] == info[other]
            &&& info.contains_key(id) ==> {
                &&& after[id].corrupted == Some(true)
                &&& after[id].block_id == info[id].block_id
                &&& after[id].size == info[id].size
                &&& after[id].record_count == info[id].record_count
                &&& after[id].metadata_size == info[id].metadata_size
                &&& after[id].latest_record_time == info[id].latest_record_time
                &&& after[id].crc64 == info[id].crc64
                &&& after[id].compression == info[id].compression
                &&& after[id].version == info[id].version
            }
            &&& marked(after, id) == after
        }),
{
    assert(marked(marked(info, id), id) =~= marked(info, id));
}

/// A removed block is gone, and no other is.
pub proof fn law_remove_takes_one_block(info: Map<u64, BlockEntry>, id: u64, other: u64)
    ensures
        !removed(info, id).contains_key(id),
        other != id ==> removed(info, id).contains_key(other) == info.contains_key(other),
        other != id && info.contains_key(other) ==> removed(info, id)[other] == info[other],
        !info.contains_key(id) ==> removed(info, id) == info,
{
    if !info.contains_key(id) {
        assert(removed(info, id) =~= info);
    }
}

/// A block that is there is either active or corrupted, and a block that is not there is neither.
/// A mark makes it corrupted; putting it anew without one makes it active again.
pub proof fn law_active_or_corrupted(m: IndexView, id: u64, put: BlockEntry)
    requires
        put.block_id == id,
    ensures
        m.active(id) || m.corrupted(id) <==> m.info.contains_key(id),
        !(m.active(id) && m.corrupted(id)),
        m.info.contains_key(id) ==> (IndexView { info: marked(m.info, id), ..m }).corrupted(id),
        put.corrupted != Some(true) ==> (IndexView { info: inserted(m.info, put), ..m }).active(id),
        put.corrupted == Some(true) ==> (IndexView { info: inserted(m.info, put), ..m }).corrupted(
            id,
        ),
{
}

/// The block of a time: the block that starts at that time where there is one, and else the one
/// before; none that lies between is passed over. A later time never gives an earlier block.
pub proof fn law_block_of_a_time(
    m: IndexView,
    time: u64,
    later: u64,
    a: Option<u64>,
    b: Option<u64>,
    other: u64,
)
    requires
        time <= later,
        is_last_active_at(m, time, a),
        is_last_active_at(m, later, b),
        m.info.contains_key(other),
        m.info[other].corrupted != Some(true),
    ensures
        other == time ==> a == Some(time),
        other <= time ==> a is Some && other <= a->0 <= time,
        a is Some ==> b is Some && a->0 <= b->0,
        a is Some ==> m.info.contains_key(a->0) && m.info[a->0].corrupted != Some(true),
        a is None ==> other > time,
{
    assert(m.active(other));
    if a is Some {
        assert(m.active(a->0));
    }
    if b is Some {
        assert(m.active(b->0));
    }
}

/// No active block comes before the first one, and where none is active there is no first one.
pub proof fn law_first_block_is_first(m: IndexView, first: Option<u64>, other: u64)
    requires
        is_first_active(m, first),
        m.info.contains_key(other),
        m.info[other].corrupted != Some(true),
    ensures
        first is Some,
        first->0 <= other,
        m.info.contains_key(first->0),
        m.info[first->0].corrupted != Some(true),
{
    assert(m.active(other));
}

/// The corrupted blocks are listed, each once, and no others.
pub proof fn law_corrupted_blocks_are_listed(m: IndexView, ids: Seq<u64>, id: u64, i: int, j: int)
    requires
        lists_corrupted(m, ids),
    ensures
        ids.contains(id) <==> m.info.contains_key(id) && m.info[id].corrupted == Some(true),
        0 <= i < j < ids.len() ==> ids[i] < ids[j],
{
    assert(ids.contains(id) <==> m.corrupted(id));
}

/// The number of records of a block, none where it is not there.
pub open spec fn count_at(info: Map<u64, BlockEntry>, id: u64) -> nat {
    if info.contains_key(id) {
        info[id].record_count as nat
    } else {
        0
    }
}

/// The number of records follows every change: a block that is put counts with its new number in
/// place of its old one, a block that is removed counts no more, and a mark changes nothing.
pub proof fn law_record_count_follows_changes(
    info: Map<u64, BlockEntry>,
    id: u64,
    put: BlockEntry,
)
    requires
        info.dom().finite(),
    ensures
        sum_values(record_counts(Map::empty())) == 0,
        sum_values(record_counts(inserted(info, put))) == sum_values(record_counts(info))
            + put.record_count - count_at(info, put.block_id),
        sum_values(record_counts(removed(info, id))) == sum_values(record_counts(info)) - count_at(
            info,
            id,
        ),
        sum_values(record_counts(marked(info, id))) == sum_values(record_counts(info)),
{
    let none: Map<u64, BlockEntry> = Map::empty();
    let counts = record_counts(info);
    assert(record_counts(none) =~= Map::<u64, nat>::empty());
    assert(counts.dom() =~= info.dom());
    lemma_sum_insert(counts, put.block_id, put.record_count as nat);
    assert(record_counts(inserted(info, put)) =~= counts.insert(
        put.block_id,
        put.record_count as nat,
    ));
    assert(record_counts(removed(info, id)) =~= counts.remove(id));
    if info.contains_key(id) {
        lemma_sum_remove(counts, id);
    } else {
        assert(counts.remove(id) =~= counts);
    }
    assert(record_counts(marked(info, id)) =~= counts);
}

/// A block counts with its size on disk and its records.
pub proof fn law_one_block_totals(id: u64, block: BlockEntry)
    ensures
        ({
            let info = Map::<u64, BlockEntry>::empty().insert(id, block);
            &&& sum_values(sizes(info)) == block.size + block.metadata_size
            &&& sum_values(record_counts(info)) == block.record_count
        }),
{
    let none = Map::<u64, nat>::empty();
    let info = Map::<u64, BlockEntry>::empty().insert(id, block);
    lemma_sum_insert(none, id, (block.size + block.metadata_size) as nat);
    lemma_sum_insert(none, id, block.record_count as nat);
    assert(sizes(info) =~= none.insert(id, (block.size + block.metadata_size) as nat));
    assert(record_counts(info) =~= none.insert(id, block.record_count as nat));
}

/// The same fields are set.
pub open spec fn same_shape(a: BlockEntry, b: BlockEntry) -> bool {
    &&& a.crc64 is Some <==> b.crc64 is Some
    &&& a.corrupted is Some <==> b.corrupted is Some
    &&& a.version is Some <==> b.version is Some
}

/// What a checksum covers of a block is all that tells the block from another: the id, the sizes,
/// the records, the time of the latest record, its own checksum, its mark and its version.
pub proof fn law_digest_tells_blocks_apart(a: BlockEntry, b: BlockEntry)
    requires
        storable_block(a),
        storable_block(b),
        same_shape(a, b),
        block_digest(a) == block_digest(b),
    ensures
        a.block_id == b.block_id,
        a.size == b.size,
        a.record_count == b.record_count,
        a.metadata_size == b.metadata_size,
        a.latest_record_time->0.micros() == b.latest_record_time->0.micros(),
        a.crc64 == b.crc64,
        a.corrupted == b.corrupted,
        a.version == b.version,
{
    lemma_digest_parts(a);
    lemma_digest_parts(b);
}

proof fn lemma_digest_parts(a: BlockEntry)
    requires
        storable_block(a),
    ensures
        ({
            let d = block_digest(a);
            let c: int = if a.crc64 is Some {
                48
            } else {
                40
            };
            let m: int = if a.corrupted is Some {
                c + 1
            } else {
                c
            };
            &&& d.len() == if a.version is Some {
                m + 8
            } else {
                m
            }
            &&& be_value(d.subrange(0, 8)) == a.block_id
            &&& be_value(d.subrange(8, 16)) == a.size
            &&& be_value(d.subrange(16, 24)) == a.record_count
            &&& be_value(d.subrange(24, 32)) == a.metadata_size
            &&& be_value(d.subrange(32, 40))
                == a.latest_record_time->0.micros()
            &&& a.crc64 matches Some(crc) ==> be_value(
                d.subrange(40, 48),
            ) == crc
            &&& a.corrupted matches Some(bad) ==> (d[c] == 1 <==> bad)
            &&& a.version matches Some(version) ==> be_value(
                d.subrange(m, m + 8),
            ) == version
        }),
{
    let d = block_digest(a);
    law_be_round_trip(a.block_id);
    law_be_round_trip(a.size);
    law_be_round_trip(a.record_count);
    law_be_round_trip(a.metadata_size);
    law_be_round_trip(a.latest_record_time->0.micros() as u64);
    let c: int = if let Some(crc) = a.crc64 {
        law_be_round_trip(crc);
        assert(d.subrange(40, 48) =~= be_bytes(crc));
        48
    } else {
        40
    };
    let m: int = if a.corrupted is Some {
        c + 1
    } else {
        c
    };
    if let Some(version) = a.version {
        law_be_round_trip(version);
        assert(d.subrange(m, m + 8) =~= be_bytes(version));
    }
    assert(d.subrange(0, 8) =~= be_bytes(a.block_id));
    assert(d.subrange(8, 16) =~= be_bytes(a.size));
    assert(d.subrange(16, 24) =~= be_bytes(a.record_count));
    assert(d.subrange(24, 32) =~= be_bytes(a.metadata_size));
    assert(d.subrange(32, 40) =~= be_bytes(a.latest_record_time->0.micros() as u64));
}

/// The checksum of an index covers every block, in order: where two indexes have the same blocks
/// set up in the same way, the bytes under their checksums are the same only if every block is.
pub proof fn law_digest_tells_indexes_apart(a: Seq<BlockEntry>, b: Seq<BlockEntry>, i: int)
    requires
        a.len() == b.len(),
        0 <= i < a.len(),
        forall|k: int|
            0 <= k < a.len() ==> storable_block(#[trigger] a[k]) && storable_block(b[k])
                && same_shape(a[k], b[k]),
        index_digest(a) == index_digest(b),
    ensures
        block_digest(a[i]) == block_digest(b[i]),
        a[i].block_id == b[i].block_id,
        a[i].size == b[i].size,
        a[i].record_count == b[i].record_count,
    decreases a.len(),
{
    let last = a.len() - 1;
    let (x, y) = (a.drop_last(), b.drop_last());
    assert(storable_block(a[last]) && storable_block(b[last]) && same_shape(a[last], b[last]));
    lemma_digest_parts(a[last]);
    lemma_digest_parts(b[last]);
    let (p, q) = (index_digest(x), index_digest(y));
    assert(p =~= index_digest(a).take(p.len() as int));
    assert(q =~= index_digest(b).take(q.len() as int));
    assert(block_digest(a[last]) =~= index_digest(a).skip(p.len() as int));
    assert(block_digest(b[last]) =~= index_digest(b).skip(q.len() as int));
    if i == last {
        law_digest_tells_blocks_apart(a[last], b[last]);
    } else {
        assert forall|k: int| 0 <= k < x.len() implies storable_block(#[trigger] x[k])
            && storable_block(y[k]) && same_shape(x[k], y[k]) by {
            assert(x[k] == a[k] && y[k] == b[k]);
            assert(storable_block(a[k]));
        }
        law_digest_tells_indexes_apart(x, y, i);
    }
}

/// Microseconds are the whole ones of a time, and no time is lost but a part of one.
pub proof fn law_micros_are_whole(ts: Timestamp)
    requires
        ts.valid(),
    ensures
        ts.micros() * 1000 <= ts.seconds * 1_000_000_000 + ts.nanos < ts.micros() * 1000 + 1000,
{
}

/// A time of the storage format has less than a second in nanoseconds.
pub proof fn law_times_are_split(us: u64)
    ensures
        0 <= timestamp_of(us).nanos < 1_000_000_000,
        timestamp_of(us).seconds * 1_000_000_000 + timestamp_of(us).nanos == us * 1000,
{
}

/// A block in memory goes into the index with what it says of itself, unmarked and without a
/// version.
pub proof fn law_block_in_memory(block: Block)
    ensures
        ({
            let entry = <BlockEntry as FromSpec<Block>>::from_spec(block);
            &&& entry.block_id == block.block_id
            &&& entry.size == block.size
            &&& entry.record_count == block.record_count
            &&& entry.metadata_size == block.metadata_size
            &&& entry.latest_record_time is Some
            &&& entry.latest_record_time->0.valid()
            &&& entry.latest_record_time->0.micros() == block.latest_record_time
            &&& entry.crc64 is None && entry.compression is None
            &&& entry.corrupted is None && entry.version is None
        }),
{
}

/// A block goes into the index the same way whether it is in memory or its descriptor was read; a
/// mark and a version come with the descriptor.
pub proof fn law_descriptor_says_what_the_block_says(head: MinimalBlock, block: Block)
    requires
        head.begin_time == Some(timestamp_of(block.block_id)),
        head.size == block.size,
        head.record_count == block.record_count,
        head.metadata_size == block.metadata_size,
        head.latest_record_time == Some(timestamp_of(block.latest_record_time)),
    ensures
        head.entry() == (BlockEntry {
            corrupted: head.corrupted,
            version: head.version,
            ..<BlockEntry as FromSpec<Block>>::from_spec(block)
        }),
{
}

} // verus!
