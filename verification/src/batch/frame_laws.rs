//! What holds of frames over a history of calls: what a writer says of the frames before, and
//! what a reader keeps where it cannot go on.

use crate::batch::decoder::{
    next, parse_content_type, parse_error, parse_frame, parse_labels, parse_string, status_of,
    FrameItem, ItemView, StateView, StreamView,
};
use crate::batch::encoder::{
    encode_frame, encode_pairs, encode_string, error_frame, flag, fold_computed, meta_frame,
    record_flags, string_code, EncoderView, FrameView, RecordFrame, RecordMeta, StringsView,
    FLAG_HAS_PAYLOAD, FLAG_SAME_CONTENT_TYPE, FLAG_SAME_ENTRY, FLAG_SAME_LABELS, MAX_STRINGS,
    TAG_END, TAG_ERROR, TAG_KEEPALIVE, TAG_RECORD,
};
use crate::batch::labels::{distinct_names, lemma_insert_pair, pairs_map, PairView};
use crate::batch::stream_laws::table_after;
use crate::batch::wire::{delta_of, malformed_error, parse_varint, varint, zigzag_code, Parse};
use crate::error::{code_number, law_number_of_a_code, ErrorCode, ErrorView};
use vstd::prelude::*;
use vstd::utf8::{decode_utf8, encode_utf8, valid_utf8};

verus! {

/// A writer behind some frames, from the start of a stream.
pub open spec fn after_frames(frames: Seq<FrameView>) -> EncoderView
    decreases frames.len(),
{
    if frames.len() == 0 {
        EncoderView::start()
    } else {
        encode_frame(after_frames(frames.drop_last()), frames.last()).0
    }
}

/// The latest of some frames that is of an entry.
pub open spec fn latest(frames: Seq<FrameView>, entry: Seq<char>) -> Option<FrameView>
    decreases frames.len(),
{
    if frames.len() == 0 {
        None
    } else if frames.last().entry == entry {
        Some(frames.last())
    } else {
        latest(frames.drop_last(), entry)
    }
}

proof fn lemma_writer_remembers(frames: Seq<FrameView>, entry: Seq<char>)
    ensures
        ({
            let e = after_frames(frames);
            &&& e.prev_entry == (if frames.len() > 0 {
                Some(frames.last().entry)
            } else {
                None
            })
            &&& match latest(frames, entry) {
                Some(l) => e.prev_meta.contains_key(entry) && e.prev_meta[entry] == (
                    l.content_type,
                    pairs_map(l.pairs),
                ),
                None => !e.prev_meta.contains_key(entry),
            }
        }),
    decreases frames.len(),
{
    if frames.len() > 0 {
        lemma_writer_remembers(frames.drop_last(), entry);
    }
}

/// A frame starts with its tag and its flags, and the flags say what the frames before were: the
/// first, whether the frame right before is of the same entry; the next two, whether the latest
/// frame of the entry has the same content type and the same labels; the last, whether a payload
/// follows. No other flag is set.
pub proof fn law_flags_tell_the_history(frames: Seq<FrameView>, f: FrameView)
    ensures
        ({
            let out = encode_frame(after_frames(frames), f).1;
            let flags = out[1];
            let before = latest(frames, f.entry);
            &&& out.len() >= 2
            &&& out[0] == TAG_RECORD
            &&& flags & FLAG_SAME_ENTRY != 0 <==> frames.len() > 0 && frames.last().entry
                == f.entry
            &&& flags & FLAG_SAME_CONTENT_TYPE != 0 <==> before is Some && before->0.content_type
                == f.content_type
            &&& flags & FLAG_SAME_LABELS != 0 <==> before is Some && pairs_map(before->0.pairs)
                == pairs_map(f.pairs)
            &&& flags & FLAG_HAS_PAYLOAD != 0 <==> f.with_payload
            &&& flags < 16
        }),
{
    let e = after_frames(frames);
    lemma_writer_remembers(frames, f.entry);
    let a = flag(e.same_entry(f), FLAG_SAME_ENTRY);
    let b = flag(e.same_content_type(f), FLAG_SAME_CONTENT_TYPE);
    let c = flag(e.same_labels(f), FLAG_SAME_LABELS);
    let d = flag(f.with_payload, FLAG_HAS_PAYLOAD);
    let flags = record_flags(e, f);
    assert(flags == a | b | c | d);
    assert(flags & 1 == a && flags & 2 == b && flags & 4 == c && flags & 8 == d && flags < 16)
        by (bit_vector)
        requires
            flags == a | b | c | d,
            a == 0 || a == 1,
            b == 0 || b == 2,
            c == 0 || c == 4,
            d == 0 || d == 8,
    ;
}

/// Computed labels, each under its name with `@` in front.
pub open spec fn marked_computed(computed: Seq<PairView>) -> Map<Seq<char>, Seq<char>>
    decreases computed.len(),
{
    if computed.len() == 0 {
        Map::empty()
    } else {
        marked_computed(computed.drop_last()).insert(
            "@"@ + computed.last().0,
            computed.last().1,
        )
    }
}

proof fn lemma_folded_map(pairs: Seq<PairView>, computed: Seq<PairView>)
    requires
        distinct_names(pairs),
    ensures
        distinct_names(fold_computed(pairs, computed)),
        pairs_map(fold_computed(pairs, computed)) == pairs_map(pairs).union_prefer_right(
            marked_computed(computed),
        ),
    decreases computed.len(),
{
    let folded = pairs_map(fold_computed(pairs, computed));
    if computed.len() > 0 {
        let front = computed.drop_last();
        lemma_folded_map(pairs, front);
        lemma_insert_pair(
            fold_computed(pairs, front),
            "@"@ + computed.last().0,
            computed.last().1,
        );
    }
    assert(folded =~= pairs_map(pairs).union_prefer_right(marked_computed(computed)));
}

/// A record of the storage is written as the record frame with the same fields is, whose labels
/// are those of the record, overridden by the computed ones under their names with `@` in front.
pub proof fn law_meta_is_written_as_a_record(e: EncoderView, meta: RecordMeta, frame: RecordFrame)
    requires
        distinct_names(meta.labels.pairs()),
        frame.entry@ == meta.entry_name@,
        frame.timestamp == meta.timestamp,
        frame.content_type@ == meta.content_type@,
        frame.content_length == meta.content_length,
        frame.labels.pairs() == fold_computed(meta.labels.pairs(), meta.computed_labels.pairs()),
    ensures
        encode_frame(e, meta_frame(meta, frame.with_payload)) == encode_frame(e, frame@),
        frame.labels@ == meta.labels@.union_prefer_right(
            marked_computed(meta.computed_labels.pairs()),
        ),
{
    lemma_folded_map(meta.labels.pairs(), meta.computed_labels.pairs());
    assert(meta_frame(meta, frame.with_payload) == frame@);
}

/// A reader that has no item, for want of bytes or because the bytes are wrong, is as it was but
/// for keepalives that it skipped: nothing of a frame that was begun stays behind. So it goes on,
/// with whatever comes next, as if it had not tried.
pub proof fn law_no_item_changes_nothing(m: StreamView, more: Seq<u8>)
    ensures
        ({
            let (item, left) = next(m);
            !(item matches Ok(Some(_))) ==> {
                &&& left.state == m.state
                &&& left.payload_left == m.payload_left
                &&& left.finished == m.finished
                &&& next(left) == next(m)
                &&& next(left.fed(more)) == next(m.fed(more))
            }
        }),
    decreases m.buf.len(),
{
    if m.payload_left == 0 && !m.finished && m.buf.len() > 0 && m.buf[0] == TAG_KEEPALIVE {
        let skipped = StreamView { buf: m.buf.skip(1), ..m };
        law_no_item_changes_nothing(skipped, more);
        assert(m.fed(more).buf.skip(1) =~= skipped.fed(more).buf);
        assert(m.fed(more).buf[0] == m.buf[0]);
    }
}
/// A string on the wire: a number of the table, or its code, its length and its bytes.
pub proof fn law_string_layout(t: StringsView, value: Seq<char>)
    ensures
        ({
            let (code, _) = string_code(t, value);
            let text = encode_utf8(value);
            encode_string(t, value).1 == if code == 0 || code == 1 {
                varint(code) + varint(text.len() as u64) + text
            } else {
                varint(code)
            }
        }),
{
}

/// What stands on the wire for a record, in order: the tag, the flags, the entry unless it is that
/// of the record right before, how much later the record is, its length, the content type and the
/// labels unless they are those of the latest record of the entry. Labels are their number, then
/// each name with its value.
pub proof fn law_frame_layout(e: EncoderView, f: FrameView)
    ensures
        ({
            let (t1, entry) = if e.prev_entry == Some(f.entry) {
                (e.strings, Seq::<u8>::empty())
            } else {
                encode_string(e.strings, f.entry)
            };
            let known = e.prev_meta.contains_key(f.entry);
            let (t2, content_type) = if known && e.prev_meta[f.entry].0 == f.content_type {
                (t1, Seq::<u8>::empty())
            } else {
                encode_string(t1, f.content_type)
            };
            let labels = if known && e.prev_meta[f.entry].1 == pairs_map(f.pairs) {
                Seq::<u8>::empty()
            } else {
                varint(f.pairs.len() as u64) + encode_pairs(t2, f.pairs).1
            };
            let later = zigzag_code(delta_of(e.prev_timestamp, f.timestamp)) as u64;
            encode_frame(e, f).1 == seq![1u8, record_flags(e, f)] + entry + (varint(later) + varint(
                f.content_length,
            )) + content_type + labels
        }),
        encode_frame(e, f).0.prev_timestamp == f.timestamp,
{
}

/// The name of a label stands before its value, and the labels in their order.
pub proof fn law_pairs_layout(t: StringsView, pairs: Seq<PairView>)
    requires
        pairs.len() > 0,
    ensures
        ({
            let (t1, name) = encode_string(t, pairs[0].0);
            let (t2, value) = encode_string(t1, pairs[0].1);
            encode_pairs(t, pairs).1 == name + value + encode_pairs(t2, pairs.skip(1)).1
        }),
{
}

/// What ends a stream, keeps it alive or tells an error: one byte, one byte, and a byte with the
/// status, the length of the message and the message.
pub proof fn law_other_frames(error: ErrorView)
    ensures
        TAG_RECORD == 1 && TAG_END == 2 && TAG_ERROR == 3 && TAG_KEEPALIVE == 4,
        ({
            let text = encode_utf8(error.message);
            let status = zigzag_code(code_number(error.status) as int) as u64;
            error_frame(error) == seq![3u8] + varint(status) + varint(text.len() as u64) + text
        }),
{
}

/// How often a string is among some uses.
pub open spec fn uses_of(uses: Seq<Seq<char>>, value: Seq<char>) -> nat
    decreases uses.len(),
{
    if uses.len() == 0 {
        0
    } else {
        uses_of(uses.drop_last(), value) + if uses.last() == value {
            1nat
        } else {
            0
        }
    }
}

proof fn lemma_table_follows_uses(uses: Seq<Seq<char>>, value: Seq<char>)
    requires
        uses.len() <= MAX_STRINGS,
    ensures
        ({
            let t = table_after(uses);
            &&& t.slots.contains_key(value) <==> uses_of(uses, value) >= 1
            &&& uses_of(uses, value) >= 1 ==> (t.slots[value] is Some <==> uses_of(uses, value)
                >= 2)
            &&& t.slots.dom().finite()
            &&& t.slots.dom().len() <= uses.len()
            &&& t.interned <= uses.len()
            &&& uses_of(uses, value) >= 2 ==> t.slots[value]->0 < t.interned
        }),
    decreases uses.len(),
{
    if uses.len() > 0 {
        lemma_table_follows_uses(uses.drop_last(), value);
        lemma_table_follows_uses(uses.drop_last(), uses.last());
    }
}

/// A string is written out on its first use, written out with an index on its second, and from then
/// on only that index is written, as long as there is room to remember it.
pub proof fn law_strings_are_written_out_twice(uses: Seq<Seq<char>>, value: Seq<char>)
    requires
        uses.len() < MAX_STRINGS,
    ensures
        ({
            let t = table_after(uses);
            let (code, after) = string_code(t, value);
            &&& uses_of(uses, value) == 0 ==> code == 0
            &&& uses_of(uses, value) == 1 ==> code == 1 && after.slots[value] == Some(
                t.interned as u64,
            ) && after.interned == t.interned + 1
            &&& uses_of(uses, value) >= 2 ==> code >= 2 && t.slots[value] == Some((code - 2) as u64)
                && after == t
        }),
{
    lemma_table_follows_uses(uses, value);
}

/// An index that a string has taken is never given to another, nor changed.
pub proof fn law_indexes_are_kept(t: StringsView, value: Seq<char>, other: Seq<char>)
    requires
        t.wf(),
        t.slots.contains_key(other),
        t.slots[other] is Some,
    ensures
        ({
            let after = string_code(t, value).1;
            &&& after.slots.contains_key(other)
            &&& after.slots[other] == t.slots[other]
            &&& value != other && after.slots.contains_key(value) && after.slots[value] is Some
                && !(t.slots.contains_key(value) && t.slots[value] is Some) ==> after.slots[value]
                != t.slots[other]
        }),
{
}

/// A string that is announced longer than a mebibyte is an error before its bytes come; one that is
/// not is waited for. A number that stands for no string is an error, and so is a string with an
/// index where the table is full.
pub proof fn law_strings_have_bounds(b: Seq<u8>, known: Seq<Seq<char>>)
    ensures
        match parse_varint(b) {
            Parse::Done(code, b1) => if code >= 2 {
                if code - 2 < known.len() {
                    parse_string(b, known) == Parse::Done((known[code - 2], known), b1)
                } else {
                    parse_string(b, known) is Malformed
                }
            } else {
                match parse_varint(b1) {
                    Parse::Done(len, b2) => if len > 1_048_576 {
                        parse_string(b, known) is Malformed
                    } else if b2.len() < len {
                        parse_string(b, known) is More
                    } else if !valid_utf8(b2.take(len as int)) || (code == 1 && known.len()
                        >= 8192) {
                        parse_string(b, known) is Malformed
                    } else {
                        let text = decode_utf8(b2.take(len as int));
                        parse_string(b, known) == Parse::Done(
                            (
                                text,
                                if code == 1 {
                                    known.push(text)
                                } else {
                                    known
                                },
                            ),
                            b2.skip(len as int),
                        )
                    },
                    Parse::More => parse_string(b, known) is More,
                    Parse::Malformed(_) => parse_string(b, known) is Malformed,
                }
            },
            Parse::More => parse_string(b, known) is More,
            Parse::Malformed(_) => parse_string(b, known) is Malformed,
        },
{
}

/// A frame with a tag that is none is an error, whatever follows; so is a record that takes over
/// from a record before what there is none of.
pub proof fn law_senseless_frames_are_errors(d: StateView, b: Seq<u8>)
    requires
        b.len() >= 2,
    ensures
        !(1 <= b[0] <= 3) ==> parse_frame(d, b) is Malformed,
        b[0] == 1 && b[1] & 1 != 0 && d.prev_entry is None ==> parse_frame(d, b) is Malformed,
        b[0] == 2 ==> parse_frame(d, b) == Parse::Done(FrameItem::End, b.skip(1)),
{
}

/// The writer remembers up to 8192 strings, and gives an index to up to 8192. A string that comes
/// then is written out each time, and changes nothing.
pub proof fn law_tables_have_bounds(t: StringsView, value: Seq<char>)
    ensures
        ({
            let (code, after) = string_code(t, value);
            let known = t.slots.contains_key(value);
            &&& !known && t.slots.dom().len() >= 8192 ==> code == 0 && after == t
            &&& !known && t.slots.dom().len() < 8192 ==> code == 0 && after.slots.contains_key(value)
                && after.slots[value] is None
            &&& known && t.slots[value] is None && t.interned >= 8192 ==> code == 0 && after == t
            &&& known && t.slots[value] is None && t.interned < 8192 ==> code == 1
                && after.slots[value] == Some(t.interned as u64)
        }),
{
}

/// A record of an entry that has none before cannot take over a content type or labels, and one
/// that can takes over those of the latest record of its entry.
pub proof fn law_entries_reuse_their_own(
    d: StateView,
    flags: u8,
    entry: Seq<char>,
    known: Seq<Seq<char>>,
    b: Seq<u8>,
)
    ensures
        flags & 2 != 0 && !d.prev_meta.contains_key(entry) ==> parse_content_type(
            d,
            flags,
            entry,
            known,
            b,
        ) is Malformed,
        flags & 4 != 0 && !d.prev_meta.contains_key(entry) ==> parse_labels(
            d,
            flags,
            entry,
            known,
            b,
        ) is Malformed,
        flags & 2 != 0 && d.prev_meta.contains_key(entry) ==> parse_content_type(
            d,
            flags,
            entry,
            known,
            b,
        ) == Parse::Done((d.prev_meta[entry].0, known), b),
        flags & 4 != 0 && d.prev_meta.contains_key(entry) ==> parse_labels(
            d,
            flags,
            entry,
            known,
            b,
        ) == Parse::Done((d.prev_meta[entry].1, known), b),
{
}

/// A status that is written as its number is read as itself; any other number is an unknown status.
pub proof fn law_statuses_are_read(code: u64, status: ErrorCode)
    ensures
        code == zigzag_code(code_number(status) as int) ==> status_of(code) == status,
        status_of(code) == status && status != ErrorCode::Unknown ==> code == zigzag_code(
            code_number(status) as int,
        ),
{
    law_number_of_a_code(crate::batch::wire::zigzag_value(code as int), status);
}

/// A message that is announced longer than a mebibyte is an error before its bytes come.
pub proof fn law_messages_have_bounds(b: Seq<u8>)
    ensures
        match parse_varint(b) {
            Parse::Done(_, b1) => match parse_varint(b1) {
                Parse::Done(len, b2) => if len > 1_048_576 {
                    parse_error(b) is Malformed
                } else if b2.len() < len {
                    parse_error(b) is More
                } else {
                    parse_error(b) is Malformed <==> !valid_utf8(b2.take(len as int))
                },
                _ => true,
            },
            _ => true,
        },
{
}

/// Behind the end of a stream, or its error, nothing is read, whatever comes; and bytes that make
/// no sense stay where they are, so that they are told again.
pub proof fn law_nothing_is_read_behind_the_end(m: StreamView, more: Seq<u8>)
    ensures
        m.finished && m.payload_left == 0 ==> next(m.fed(more)) == (
            Ok::<Option<ItemView>, ErrorView>(None),
            m.fed(more),
        ),
        next(m).0 matches Ok(Some(ItemView::End)) ==> next(m).1.finished,
        next(m).0 matches Ok(Some(ItemView::Error(_))) ==> next(m).1.finished,
        next(m).0 matches Ok(Some(ItemView::Record(_))) ==> !next(m).1.finished,
        next(m).0 is Err ==> next(next(m).1).0 == next(m).0,
        next(m).0 matches Err(e) ==> exists|what: Seq<char>| e == malformed_error(what),
    decreases m.buf.len(),
{
    if m.payload_left == 0 && !m.finished && m.buf.len() > 0 && m.buf[0] == TAG_KEEPALIVE {
        law_nothing_is_read_behind_the_end(StreamView { buf: m.buf.skip(1), ..m }, more);
    }
}

/// The payload of a record comes in order and whole, as much at a time as is there, and nothing
/// else is read before it is complete.
pub proof fn law_payload_comes_as_it_is_there(m: StreamView)
    requires
        m.payload_left > 0,
        m.buf.len() > 0,
    ensures
        match next(m).0 {
            Ok(Some(ItemView::Payload(bytes))) => {
                &&& bytes.len() + next(m).1.payload_left == m.payload_left
                &&& bytes + next(m).1.buf == m.buf
                &&& next(m).1.payload_left == 0 || next(m).1.buf.len() == 0
                &&& next(m).1.state == m.state
            },
            _ => false,
        },
{
    assert(m.buf.take(m.payload_ready()) + m.buf.skip(m.payload_ready()) =~= m.buf);
}

} // verus!
