//! What holds of the stream protocol as a whole: reading gives back what was written, wherever
//! the stream is cut into chunks.

use crate::batch::decoder::{
    next, parse_content_type, parse_entry, parse_frame, parse_labels, parse_numbers, parse_pairs,
    parse_record, parse_record_body, parse_string, parse_text, FrameItem, ItemView,
    RecordView, StateView, StreamView, MAX_STRING_LEN,
};
use crate::batch::encoder::{
    encode_content_type, encode_entry, encode_frame, encode_labels, encode_numbers, encode_pairs,
    encode_string, error_frame, flag, flags_of, record_flags, string_bytes, string_code,
    EncoderView, FrameView, StringsView, FLAG_HAS_PAYLOAD, FLAG_SAME_CONTENT_TYPE, FLAG_SAME_ENTRY,
    FLAG_SAME_LABELS, MAX_INTERNED, MAX_STRINGS, STR_REF_BASE, TAG_END, TAG_KEEPALIVE, TAG_RECORD,
};
use crate::batch::labels::{pairs_map, PairView};
use crate::batch::wire::{
    delta_of, lemma_delta_round_trip, lemma_parse_varint_stable,
    lemma_varint_round_trip, lemma_zigzag_round_trip, moved_by, parse_varint, varint, zigzag_code,
    zigzag_value, Parse,
};
use crate::error::{code_number, law_code_round_trip, ErrorView};
use vstd::prelude::*;
use vstd::utf8::{encode_utf8, encode_utf8_decode_utf8, encode_utf8_valid_utf8};

verus! {

/// Whether a read that came to `short` comes to `long` once `more` stands behind the bytes: a
/// value or an error stays, only what is left grows.
pub open spec fn stable<T>(short: Parse<T>, long: Parse<T>, more: Seq<u8>) -> bool {
    match short {
        Parse::More => true,
        Parse::Malformed(what) => long == Parse::<T>::Malformed(what),
        Parse::Done(v, rest) => long == Parse::Done(v, rest + more),
    }
}

/// Whether a read leaves no more bytes than there were.
pub open spec fn shrinks<T>(parse: Parse<T>, b: Seq<u8>) -> bool {
    parse matches Parse::Done(_, rest) ==> rest.len() <= b.len()
}

proof fn lemma_text_stable(b: Seq<u8>, too_long: Seq<char>, not_utf8: Seq<char>, more: Seq<u8>)
    ensures
        stable(parse_text(b, too_long, not_utf8), parse_text(b + more, too_long, not_utf8), more),
        shrinks(parse_text(b, too_long, not_utf8), b),
{
    lemma_parse_varint_stable(b, 0, more);
    if let Parse::Done(len, b1) = parse_varint(b) {
        if len <= MAX_STRING_LEN && len <= b1.len() {
            assert((b1 + more).take(len as int) =~= b1.take(len as int));
            assert((b1 + more).skip(len as int) =~= b1.skip(len as int) + more);
        }
    }
}

proof fn lemma_string_stable(b: Seq<u8>, known: Seq<Seq<char>>, more: Seq<u8>)
    ensures
        stable(parse_string(b, known), parse_string(b + more, known), more),
        shrinks(parse_string(b, known), b),
{
    lemma_parse_varint_stable(b, 0, more);
    if let Parse::Done(code, b1) = parse_varint(b) {
        lemma_text_stable(
            b1,
            "inline string is too long"@,
            "inline string is not valid UTF-8"@,
            more,
        );
    }
}

proof fn lemma_pairs_stable(b: Seq<u8>, known: Seq<Seq<char>>, count: nat, more: Seq<u8>)
    ensures
        stable(parse_pairs(b, known, count), parse_pairs(b + more, known, count), more),
        shrinks(parse_pairs(b, known, count), b),
    decreases count,
{
    if count > 0 {
        lemma_string_stable(b, known, more);
        if let Parse::Done((name, known1), b1) = parse_string(b, known) {
            lemma_string_stable(b1, known1, more);
            if let Parse::Done((value, known2), b2) = parse_string(b1, known1) {
                lemma_pairs_stable(b2, known2, (count - 1) as nat, more);
            }
        }
    }
}

proof fn lemma_body_stable(d: StateView, flags: u8, b: Seq<u8>, more: Seq<u8>)
    ensures
        stable(parse_record_body(d, flags, b), parse_record_body(d, flags, b + more), more),
        shrinks(parse_record_body(d, flags, b), b),
{
    lemma_string_stable(b, d.strings, more);
    if let Parse::Done((entry, known1), b1) = parse_entry(d, flags, b) {
        lemma_parse_varint_stable(b1, 0, more);
        if let Parse::Done(delta, c1) = parse_varint(b1) {
            lemma_parse_varint_stable(c1, 0, more);
        }
        if let Parse::Done(numbers, b2) = parse_numbers(b1) {
            lemma_string_stable(b2, known1, more);
            if let Parse::Done((content_type, known2), b3) = parse_content_type(
                d,
                flags,
                entry,
                known1,
                b2,
            ) {
                lemma_parse_varint_stable(b3, 0, more);
                if let Parse::Done(count, b4) = parse_varint(b3) {
                    lemma_pairs_stable(b4, known2, count as nat, more);
                }
            }
        }
    }
}

/// Once a frame can be read, or is known to be wrong, bytes behind it change nothing; and a
/// frame takes at least one byte.
pub proof fn law_frame_stable(d: StateView, b: Seq<u8>, more: Seq<u8>)
    ensures
        stable(parse_frame(d, b), parse_frame(d, b + more), more),
        parse_frame(d, b) matches Parse::Done(_, rest) ==> rest.len() < b.len(),
{
    if b.len() > 0 {
        let b1 = b.skip(1);
        assert((b + more).skip(1) =~= b1 + more);
        if b1.len() > 0 {
            assert((b1 + more).skip(1) =~= b1.skip(1) + more);
            lemma_body_stable(d, b1[0], b1.skip(1), more);
        }
        lemma_parse_varint_stable(b1, 0, more);
        if let Parse::Done(code, c1) = parse_varint(b1) {
            lemma_text_stable(
                c1,
                "error message is too long"@,
                "error message is not valid UTF-8"@,
                more,
            );
        }
    }
}

/// Taking an item uses up at least one byte.
pub proof fn law_next_progresses(m: StreamView)
    ensures
        next(m).1.buf.len() <= m.buf.len(),
        next(m).0 matches Ok(Some(_)) ==> next(m).1.buf.len() < m.buf.len(),
    decreases m.buf.len(),
{
    if m.payload_left == 0 && !m.finished && m.buf.len() > 0 {
        if m.buf[0] == TAG_KEEPALIVE {
            law_next_progresses(StreamView { buf: m.buf.skip(1), ..m });
        } else {
            law_frame_stable(m.state, m.buf, Seq::empty());
        }
    }
}

/// What a stream says, with payloads taken byte by byte, so that it does not matter in how
/// many pieces a payload is handed over.
pub enum Event {
    Record(RecordView),
    Byte(u8),
    Error(ErrorView),
    End,
}

pub open spec fn byte_events(bytes: Seq<u8>) -> Seq<Event> {
    Seq::new(bytes.len(), |i: int| Event::Byte(bytes[i]))
}

pub open spec fn item_events(item: ItemView) -> Seq<Event> {
    match item {
        ItemView::Record(record) => seq![Event::Record(record)],
        ItemView::Payload(bytes) => byte_events(bytes),
        ItemView::Error(error) => seq![Event::Error(error)],
        ItemView::End => seq![Event::End],
    }
}

/// What taking items until there is none comes to: what was said, the decoder after it, and
/// the error if the stream was malformed.
pub struct Drained {
    pub events: Seq<Event>,
    pub left: StreamView,
    pub failure: Option<ErrorView>,
}

/// Takes items until there is none.
pub open spec fn drain(m: StreamView) -> Drained
    decreases m.buf.len(),
{
    match next(m) {
        (Ok(None), left) => Drained { events: Seq::empty(), left, failure: None },
        (Err(error), left) => Drained { events: Seq::empty(), left, failure: Some(error) },
        (Ok(Some(item)), left) => {
            proof {
                law_next_progresses(m);
            }
            let rest = drain(left);
            Drained { events: item_events(item) + rest.events, ..rest }
        },
    }
}

/// `first`, then `second` on what the first left.
pub open spec fn followed_by(first: Drained, second: Drained) -> Drained {
    Drained { events: first.events + second.events, ..second }
}

/// What more bytes change of the next item, where no payload is cut short.
proof fn lemma_next_fed(m: StreamView, more: Seq<u8>)
    requires
        m.payload_left <= m.buf.len(),
    ensures
        match next(m) {
            (Ok(None), m1) => next(m.fed(more)) == next(m1.fed(more)),
            (Err(error), m1) => next(m.fed(more)).0 == Err::<Option<ItemView>, ErrorView>(error),
            (Ok(Some(item)), m1) => next(m.fed(more)) == (
                Ok::<Option<ItemView>, ErrorView>(Some(item)),
                m1.fed(more),
            ),
        },
    decreases m.buf.len(),
{
    let long = m.fed(more);
    if m.payload_left > 0 {
        let take = m.payload_ready();
        assert(long.buf.take(take) =~= m.buf.take(take));
        assert(long.buf.skip(take) =~= m.buf.skip(take) + more);
    } else if m.finished || m.buf.len() == 0 {
    } else if m.buf[0] == TAG_KEEPALIVE {
        let skipped = StreamView { buf: m.buf.skip(1), ..m };
        assert(long.buf.skip(1) =~= m.buf.skip(1) + more);
        lemma_next_fed(skipped, more);
    } else {
        law_frame_stable(m.state, m.buf, more);
        assert(long.buf[0] == m.buf[0]);
    }
}

/// More bytes for a payload that was cut short.
proof fn lemma_payload_fed(m: StreamView, more: Seq<u8>)
    requires
        m.payload_left > m.buf.len(),
        m.buf.len() > 0,
    ensures
        drain(m).failure is None,
        drain(m.fed(more)) == followed_by(drain(m), drain(drain(m).left.fed(more))),
{
    let long = m.fed(more);
    let m1 = next(m).1;
    let n = m.buf.len() as int;
    assert(m.buf.take(n) =~= m.buf);
    assert(m.buf.skip(n) =~= Seq::<u8>::empty());
    assert(next(m1) == (Ok::<Option<ItemView>, ErrorView>(None), m1));
    assert(drain(m1).events =~= Seq::<Event>::empty());
    assert(drain(m).events =~= byte_events(m.buf));
    assert(drain(m).left == m1);
    let second = m1.fed(more);
    assert(second.buf =~= more);
    if more.len() == 0 {
        assert(long.buf =~= m.buf);
        assert(second == m1);
        assert(drain(long).events =~= drain(m).events + drain(second).events);
    } else {
        let take = second.payload_ready();
        assert(long.payload_ready() == n + take);
        assert(long.buf.skip(n + take) =~= second.buf.skip(take));
        assert(next(long).1 == next(second).1);
        let tail = drain(next(long).1);
        assert(byte_events(long.buf.take(n + take)) =~= byte_events(m.buf) + byte_events(
            second.buf.take(take),
        ));
        assert(drain(long).events =~= byte_events(m.buf) + (byte_events(second.buf.take(take))
            + tail.events));
    }
}

/// A decoder that was drained before more bytes came in says, in all, what one that got all
/// bytes at once says.
pub proof fn law_feed_in_two(m: StreamView, more: Seq<u8>)
    ensures
        match drain(m).failure {
            None => drain(m.fed(more)) == followed_by(
                drain(m),
                drain(drain(m).left.fed(more)),
            ),
            Some(error) => drain(m.fed(more)).events == drain(m).events && drain(
                m.fed(more),
            ).failure == Some(error),
        },
    decreases m.buf.len(),
{
    law_next_progresses(m);
    if m.payload_left > m.buf.len() {
        if m.buf.len() == 0 {
            assert(drain(m.fed(more)).events =~= drain(m).events + drain(m.fed(more)).events);
        } else {
            lemma_payload_fed(m, more);
        }
    } else {
        lemma_next_fed(m, more);
        match next(m) {
            (Ok(None), m1) => {
                assert(drain(m.fed(more)) == drain(m1.fed(more)));
                assert(drain(m).events + drain(m1.fed(more)).events =~= drain(m1.fed(more)).events);
            },
            (Err(error), m1) => {},
            (Ok(Some(item)), m1) => {
                law_feed_in_two(m1, more);
                lemma_prepend(item, m, m1, more);
            },
        }
    }
}

proof fn lemma_prepend(item: ItemView, m: StreamView, m1: StreamView, more: Seq<u8>)
    requires
        next(m) == (Ok::<Option<ItemView>, ErrorView>(Some(item)), m1),
        next(m.fed(more)) == (Ok::<Option<ItemView>, ErrorView>(Some(item)), m1.fed(more)),
        match drain(m1).failure {
            None => drain(m1.fed(more)) == followed_by(
                drain(m1),
                drain(drain(m1).left.fed(more)),
            ),
            Some(error) => drain(m1.fed(more)).events == drain(m1).events && drain(
                m1.fed(more),
            ).failure == Some(error),
        },
    ensures
        match drain(m).failure {
            None => drain(m.fed(more)) == followed_by(
                drain(m),
                drain(drain(m).left.fed(more)),
            ),
            Some(error) => drain(m.fed(more)).events == drain(m).events && drain(
                m.fed(more),
            ).failure == Some(error),
        },
{
    let head = item_events(item);
    let tail = drain(drain(m1).left.fed(more));
    assert(head + (drain(m1).events + tail.events) =~= head + drain(m1).events + tail.events);
}

/// Whether a decoder needs more bytes before it can hand out anything.
pub open spec fn settled(m: StreamView) -> bool {
    next(m) == (Ok::<Option<ItemView>, ErrorView>(None), m)
}

proof fn lemma_drained_is_settled(m: StreamView)
    ensures
        drain(m).failure is None ==> settled(drain(m).left),
    decreases m.buf.len(),
{
    law_next_progresses(m);
    match next(m) {
        (Ok(None), m1) => {
            lemma_none_is_settled(m);
        },
        (Err(error), m1) => {},
        (Ok(Some(item)), m1) => {
            lemma_drained_is_settled(m1);
        },
    }
}

proof fn lemma_none_is_settled(m: StreamView)
    ensures
        next(m).0 matches Ok(None) ==> settled(next(m).1),
    decreases m.buf.len(),
{
    if m.payload_left == 0 && !m.finished && m.buf.len() > 0 && m.buf[0] == TAG_KEEPALIVE {
        lemma_none_is_settled(StreamView { buf: m.buf.skip(1), ..m });
    }
}

/// Chunks one behind the other.
pub open spec fn joined(chunks: Seq<Seq<u8>>) -> Seq<u8>
    decreases chunks.len(),
{
    if chunks.len() == 0 {
        Seq::empty()
    } else {
        chunks[0] + joined(chunks.skip(1))
    }
}

/// Feeds chunks in order and drains the decoder after each, up to the first error.
pub open spec fn drain_chunks(m: StreamView, chunks: Seq<Seq<u8>>) -> Drained
    decreases chunks.len(),
{
    if chunks.len() == 0 {
        Drained { events: Seq::empty(), left: m, failure: None }
    } else {
        let first = drain(m.fed(chunks[0]));
        if first.failure is Some {
            first
        } else {
            followed_by(first, drain_chunks(first.left, chunks.skip(1)))
        }
    }
}

/// Whether two drains say the same and, where there was no error, leave the same decoder.
pub open spec fn same_message(a: Drained, b: Drained) -> bool {
    &&& a.events == b.events
    &&& a.failure == b.failure
    &&& a.failure is None ==> a.left == b.left
}

/// A stream says the same at any chunk boundary: it does not matter into which chunks the
/// bytes are cut.
pub proof fn law_any_chunk_boundary(m: StreamView, chunks: Seq<Seq<u8>>)
    requires
        settled(m),
    ensures
        same_message(drain_chunks(m, chunks), drain(m.fed(joined(chunks)))),
    decreases chunks.len(),
{
    if chunks.len() == 0 {
        assert(m.fed(joined(chunks)).buf =~= m.buf);
    } else {
        let x = m.fed(chunks[0]);
        let y = joined(chunks.skip(1));
        assert(x.fed(y).buf =~= m.fed(joined(chunks)).buf);
        law_feed_in_two(x, y);
        let first = drain(x);
        if first.failure is None {
            lemma_drained_is_settled(x);
            law_any_chunk_boundary(first.left, chunks.skip(1));
            let rest = drain_chunks(first.left, chunks.skip(1));
            let whole = drain(first.left.fed(y));
            assert(first.events + rest.events == first.events + whole.events);
        }
    }
}

/// Whether the reader's string table is that of the writer.
pub open spec fn tables_agree(t: StringsView, known: Seq<Seq<char>>) -> bool {
    &&& t.wf()
    &&& t.interned == known.len()
    &&& forall|s: Seq<char>| #[trigger]
        t.slots.contains_key(s) && t.slots[s] is Some ==> known[t.slots[s]->0 as int] == s
}

/// Whether a reader stands where the writer stands.
pub open spec fn in_step(e: EncoderView, d: StateView) -> bool {
    &&& tables_agree(e.strings, d.strings)
    &&& e.prev_timestamp == d.prev_timestamp
    &&& e.prev_entry == d.prev_entry
    &&& e.prev_meta == d.prev_meta
}

/// Whether text is short enough for the reader.
pub open spec fn short(value: Seq<char>) -> bool {
    encode_utf8(value).len() <= MAX_STRING_LEN
}

pub open spec fn short_pairs(pairs: Seq<PairView>) -> bool {
    forall|i: int| 0 <= i < pairs.len() ==> short((#[trigger] pairs[i]).0) && short(pairs[i].1)
}

/// Whether all strings of a record are short enough for the reader, and their number fits.
pub open spec fn short_frame(f: FrameView) -> bool {
    &&& short(f.entry)
    &&& short(f.content_type)
    &&& short_pairs(f.pairs)
    &&& f.pairs.len() <= u64::MAX
}

proof fn lemma_text_round_trip(
    value: Seq<char>,
    too_long: Seq<char>,
    not_utf8: Seq<char>,
    rest: Seq<u8>,
)
    requires
        short(value),
    ensures
        parse_text(
            varint(encode_utf8(value).len() as u64) + encode_utf8(value) + rest,
            too_long,
            not_utf8,
        ) == Parse::Done(value, rest),
{
    let bytes = encode_utf8(value);
    let len = bytes.len() as u64;
    lemma_varint_round_trip(len, bytes + rest);
    assert(varint(len) + bytes + rest =~= varint(len) + (bytes + rest));
    assert((bytes + rest).take(len as int) =~= bytes);
    assert((bytes + rest).skip(len as int) =~= rest);
    encode_utf8_valid_utf8(value);
    encode_utf8_decode_utf8(value);
}

proof fn lemma_string_round_trip(
    t: StringsView,
    known: Seq<Seq<char>>,
    value: Seq<char>,
    rest: Seq<u8>,
) -> (known2: Seq<Seq<char>>)
    requires
        tables_agree(t, known),
        short(value),
    ensures
        parse_string(encode_string(t, value).1 + rest, known) == Parse::Done(
            (value, known2),
            rest,
        ),
        tables_agree(encode_string(t, value).0, known2),
{
    let (code, t2) = string_code(t, value);
    let bytes = string_bytes(code, value);
    if code >= STR_REF_BASE {
        lemma_varint_round_trip(code, rest);
        known
    } else {
        let len = varint(encode_utf8(value).len() as u64);
        let tail = len + encode_utf8(value) + rest;
        lemma_varint_round_trip(code, tail);
        assert(bytes + rest =~= varint(code) + tail);
        lemma_text_round_trip(
            value,
            "inline string is too long"@,
            "inline string is not valid UTF-8"@,
            rest,
        );
        if t.slots.contains_key(value) && t.interned < MAX_INTERNED {
            known.push(value)
        } else {
            known
        }
    }
}

proof fn lemma_pairs_round_trip(
    t: StringsView,
    known: Seq<Seq<char>>,
    pairs: Seq<PairView>,
    rest: Seq<u8>,
) -> (known2: Seq<Seq<char>>)
    requires
        tables_agree(t, known),
        short_pairs(pairs),
    ensures
        parse_pairs(encode_pairs(t, pairs).1 + rest, known, pairs.len()) == Parse::Done(
            (pairs, known2),
            rest,
        ),
        tables_agree(encode_pairs(t, pairs).0, known2),
    decreases pairs.len(),
{
    if pairs.len() == 0 {
        assert(encode_pairs(t, pairs).1 + rest =~= rest);
        assert(pairs =~= Seq::<PairView>::empty());
        known
    } else {
        let s1 = encode_string(t, pairs[0].0);
        let s2 = encode_string(s1.0, pairs[0].1);
        let s3 = encode_pairs(s2.0, pairs.skip(1));
        assert(short(pairs[0].0) && short(pairs[0].1));
        assert(s1.1 + s2.1 + s3.1 + rest =~= s1.1 + (s2.1 + (s3.1 + rest)));
        let known1 = lemma_string_round_trip(t, known, pairs[0].0, s2.1 + (s3.1 + rest));
        let known2 = lemma_string_round_trip(s1.0, known1, pairs[0].1, s3.1 + rest);
        assert forall|i: int| 0 <= i < pairs.skip(1).len() implies short(
            (#[trigger] pairs.skip(1)[i]).0,
        ) && short(pairs.skip(1)[i].1) by {
            assert(pairs.skip(1)[i] == pairs[i + 1]);
        }
        let known3 = lemma_pairs_round_trip(s2.0, known2, pairs.skip(1), rest);
        assert(seq![(pairs[0].0, pairs[0].1)] + pairs.skip(1) =~= pairs);
        known3
    }
}

proof fn lemma_flags(a: bool, b: bool, c: bool, d: bool)
    ensures
        (flags_of(a, b, c, d) & FLAG_SAME_ENTRY != 0) == a,
        (flags_of(a, b, c, d) & FLAG_SAME_CONTENT_TYPE != 0) == b,
        (flags_of(a, b, c, d) & FLAG_SAME_LABELS != 0) == c,
        (flags_of(a, b, c, d) & FLAG_HAS_PAYLOAD != 0) == d,
{
    let x = flag(a, FLAG_SAME_ENTRY);
    let y = flag(b, FLAG_SAME_CONTENT_TYPE);
    let z = flag(c, FLAG_SAME_LABELS);
    let w = flag(d, FLAG_HAS_PAYLOAD);
    assert((x | y | z | w) & 1u8 == x && (x | y | z | w) & 2u8 == y && (x | y | z | w) & 4u8 == z
        && (x | y | z | w) & 8u8 == w) by (bit_vector)
        requires
            x == 0 || x == 1,
            y == 0 || y == 2,
            z == 0 || z == 4,
            w == 0 || w == 8,
    ;
}

/// The record that a frame carries.
pub open spec fn record_of(f: FrameView) -> RecordView {
    RecordView {
        entry: f.entry,
        timestamp: f.timestamp,
        content_type: f.content_type,
        content_length: f.content_length,
        labels: pairs_map(f.pairs),
        has_payload: f.with_payload,
    }
}

proof fn lemma_entry_round_trip(e: EncoderView, d: StateView, f: FrameView, rest: Seq<u8>) -> (known:
    Seq<Seq<char>>)
    requires
        in_step(e, d),
        short_frame(f),
    ensures
        parse_entry(d, record_flags(e, f), encode_entry(e, f).1 + rest) == Parse::Done(
            (f.entry, known),
            rest,
        ),
        tables_agree(encode_entry(e, f).0, known),
{
    lemma_flags(e.same_entry(f), e.same_content_type(f), e.same_labels(f), f.with_payload);
    if e.same_entry(f) {
        assert(encode_entry(e, f).1 + rest =~= rest);
        d.strings
    } else {
        lemma_string_round_trip(e.strings, d.strings, f.entry, rest)
    }
}

proof fn lemma_numbers_round_trip(e: EncoderView, f: FrameView, rest: Seq<u8>)
    ensures
        parse_numbers(encode_numbers(e, f) + rest) == Parse::Done(
            (zigzag_code(delta_of(e.prev_timestamp, f.timestamp)) as u64, f.content_length),
            rest,
        ),
        moved_by(
            e.prev_timestamp,
            zigzag_value(
                zigzag_code(delta_of(e.prev_timestamp, f.timestamp)) as u64 as int,
            ),
        ) == f.timestamp,
{
    let delta = delta_of(e.prev_timestamp, f.timestamp);
    lemma_delta_round_trip(e.prev_timestamp, f.timestamp);
    lemma_zigzag_round_trip(delta);
    let code = zigzag_code(delta) as u64;
    assert(encode_numbers(e, f) + rest =~= varint(code) + (varint(f.content_length) + rest));
    lemma_varint_round_trip(code, varint(f.content_length) + rest);
    lemma_varint_round_trip(f.content_length, rest);
}

proof fn lemma_content_type_round_trip(
    e: EncoderView,
    d: StateView,
    f: FrameView,
    t: StringsView,
    known: Seq<Seq<char>>,
    rest: Seq<u8>,
) -> (known2: Seq<Seq<char>>)
    requires
        in_step(e, d),
        short_frame(f),
        tables_agree(t, known),
    ensures
        parse_content_type(
            d,
            record_flags(e, f),
            f.entry,
            known,
            encode_content_type(e, f, t).1 + rest,
        ) == Parse::Done((f.content_type, known2), rest),
        tables_agree(encode_content_type(e, f, t).0, known2),
{
    lemma_flags(e.same_entry(f), e.same_content_type(f), e.same_labels(f), f.with_payload);
    if e.same_content_type(f) {
        assert(encode_content_type(e, f, t).1 + rest =~= rest);
        known
    } else {
        lemma_string_round_trip(t, known, f.content_type, rest)
    }
}

proof fn lemma_labels_round_trip(
    e: EncoderView,
    d: StateView,
    f: FrameView,
    t: StringsView,
    known: Seq<Seq<char>>,
    rest: Seq<u8>,
) -> (known2: Seq<Seq<char>>)
    requires
        in_step(e, d),
        short_frame(f),
        tables_agree(t, known),
    ensures
        parse_labels(
            d,
            record_flags(e, f),
            f.entry,
            known,
            encode_labels(e, f, t).1 + rest,
        ) == Parse::Done((pairs_map(f.pairs), known2), rest),
        tables_agree(encode_labels(e, f, t).0, known2),
{
    lemma_flags(e.same_entry(f), e.same_content_type(f), e.same_labels(f), f.with_payload);
    if e.same_labels(f) {
        assert(encode_labels(e, f, t).1 + rest =~= rest);
        known
    } else {
        let count = f.pairs.len() as u64;
        let pairs = encode_pairs(t, f.pairs).1;
        assert(encode_labels(e, f, t).1 + rest =~= varint(count) + (pairs + rest));
        lemma_varint_round_trip(count, pairs + rest);
        lemma_pairs_round_trip(t, known, f.pairs, rest)
    }
}

/// What a record frame holds behind its flags.
spec fn frame_body(e: EncoderView, f: FrameView) -> Seq<u8> {
    let s1 = encode_entry(e, f);
    let s2 = encode_content_type(e, f, s1.0);
    let s3 = encode_labels(e, f, s2.0);
    s1.1 + (encode_numbers(e, f) + (s2.1 + s3.1))
}

proof fn lemma_frame_body(e: EncoderView, f: FrameView)
    ensures
        encode_frame(e, f).1 == seq![TAG_RECORD, record_flags(e, f)] + frame_body(e, f),
{
    let s1 = encode_entry(e, f);
    let s2 = encode_content_type(e, f, s1.0);
    let s3 = encode_labels(e, f, s2.0);
    let head = seq![TAG_RECORD, record_flags(e, f)];
    let nums = encode_numbers(e, f);
    assert(head + s1.1 + nums + s2.1 + s3.1 =~= head + (s1.1 + (nums + (s2.1 + s3.1))));
}

#[verifier::rlimit(40)]
proof fn lemma_body_round_trip(e: EncoderView, d: StateView, f: FrameView, rest: Seq<u8>) -> (d2:
    StateView)
    requires
        in_step(e, d),
        short_frame(f),
    ensures
        parse_record_body(d, record_flags(e, f), frame_body(e, f) + rest) == Parse::Done(
            (record_of(f), d2),
            rest,
        ),
        in_step(encode_frame(e, f).0, d2),
{
    let flags = record_flags(e, f);
    let s1 = encode_entry(e, f);
    let nums = encode_numbers(e, f);
    let s2 = encode_content_type(e, f, s1.0);
    let s3 = encode_labels(e, f, s2.0);
    let b3 = s3.1 + rest;
    let b2 = s2.1 + b3;
    let b1 = nums + b2;
    assert(frame_body(e, f) + rest =~= s1.1 + b1);
    let known1 = lemma_entry_round_trip(e, d, f, b1);
    lemma_numbers_round_trip(e, f, b2);
    let known2 = lemma_content_type_round_trip(e, d, f, s1.0, known1, b3);
    let known3 = lemma_labels_round_trip(e, d, f, s2.0, known2, rest);
    lemma_flags(e.same_entry(f), e.same_content_type(f), e.same_labels(f), f.with_payload);
    StateView {
        strings: known3,
        prev_timestamp: f.timestamp,
        prev_entry: Some(f.entry),
        prev_meta: d.prev_meta.insert(f.entry, (f.content_type, pairs_map(f.pairs))),
    }
}

/// Reading gives back the record that was written, and the reader stays in step.
pub proof fn law_record_round_trip(e: EncoderView, d: StateView, f: FrameView, rest: Seq<u8>)
    requires
        in_step(e, d),
        short_frame(f),
    ensures
        match parse_frame(d, encode_frame(e, f).1 + rest) {
            Parse::Done(FrameItem::Record(record, d2), tail) => {
                &&& record == record_of(f)
                &&& tail == rest
                &&& in_step(encode_frame(e, f).0, d2)
            },
            _ => false,
        },
{
    let flags = record_flags(e, f);
    let body = frame_body(e, f) + rest;
    let all = encode_frame(e, f).1 + rest;
    lemma_frame_body(e, f);
    assert(all =~= seq![TAG_RECORD, flags] + body);
    assert(all.skip(1) =~= seq![flags] + body);
    assert(all.skip(1).skip(1) =~= body);
    let d2 = lemma_body_round_trip(e, d, f, rest);
    assert(parse_record(d, all.skip(1)) == parse_record_body(d, flags, body));
}

/// Reading gives back the error that was written.
pub proof fn law_error_round_trip(d: StateView, error: ErrorView, rest: Seq<u8>)
    requires
        short(error.message),
    ensures
        parse_frame(d, error_frame(error) + rest) == Parse::Done(FrameItem::Error(error), rest),
{
    let number = code_number(error.status) as int;
    let code = zigzag_code(number) as u64;
    let text = varint(encode_utf8(error.message).len() as u64) + encode_utf8(error.message) + rest;
    let all = error_frame(error) + rest;
    assert(all.skip(1) =~= varint(code) + text);
    lemma_varint_round_trip(code, text);
    lemma_text_round_trip(
        error.message,
        "error message is too long"@,
        "error message is not valid UTF-8"@,
        rest,
    );
    lemma_zigzag_round_trip(number);
    law_code_round_trip(error.status);
}

/// A part of a stream before its end.
pub enum Part {
    Keepalive,
    /// A record frame and its payload.
    Record(FrameView, Seq<u8>),
}

/// How a stream ends.
pub enum Ending {
    End,
    Error(ErrorView),
}

/// Whether a part can be sent: its strings are short, and its payload has the length that the
/// frame announces, or is left out.
pub open spec fn sendable(part: Part) -> bool {
    match part {
        Part::Keepalive => true,
        Part::Record(f, payload) => short_frame(f) && payload.len() == (if f.with_payload {
            f.content_length as int
        } else {
            0
        }),
    }
}

pub open spec fn all_sendable(parts: Seq<Part>) -> bool {
    forall|i: int| 0 <= i < parts.len() ==> sendable(#[trigger] parts[i])
}

pub open spec fn sendable_ending(ending: Ending) -> bool {
    ending matches Ending::Error(error) ==> short(error.message)
}

pub open spec fn ending_bytes(ending: Ending) -> Seq<u8> {
    match ending {
        Ending::End => seq![TAG_END],
        Ending::Error(error) => error_frame(error),
    }
}

/// The bytes of a stream.
pub open spec fn encode_stream(e: EncoderView, parts: Seq<Part>, ending: Ending) -> Seq<u8>
    decreases parts.len(),
{
    if parts.len() == 0 {
        ending_bytes(ending)
    } else {
        match parts[0] {
            Part::Keepalive => seq![TAG_KEEPALIVE] + encode_stream(e, parts.skip(1), ending),
            Part::Record(f, payload) => {
                let (e2, frame) = encode_frame(e, f);
                frame + (payload + encode_stream(e2, parts.skip(1), ending))
            },
        }
    }
}

/// What a stream is to say.
pub open spec fn stream_events(parts: Seq<Part>, ending: Ending) -> Seq<Event>
    decreases parts.len(),
{
    if parts.len() == 0 {
        match ending {
            Ending::End => seq![Event::End],
            Ending::Error(error) => seq![Event::Error(error)],
        }
    } else {
        match parts[0] {
            Part::Keepalive => stream_events(parts.skip(1), ending),
            Part::Record(f, payload) => seq![Event::Record(record_of(f))] + (byte_events(payload)
                + stream_events(parts.skip(1), ending)),
        }
    }
}

/// Whether a drain says `events`, without error, and comes to the end of the stream with
/// nothing left over.
pub open spec fn says_all(drained: Drained, events: Seq<Event>) -> bool {
    &&& drained.events == events
    &&& drained.failure is None
    &&& drained.left.finished
    &&& drained.left.buf.len() == 0
}

proof fn lemma_ending_round_trip(d: StateView, ending: Ending)
    requires
        sendable_ending(ending),
    ensures
        says_all(
            drain(
                StreamView {
                    buf: ending_bytes(ending),
                    state: d,
                    payload_left: 0,
                    finished: false,
                },
            ),
            stream_events(Seq::empty(), ending),
        ),
{
    let bytes = ending_bytes(ending);
    let m = StreamView { buf: bytes, state: d, payload_left: 0, finished: false };
    match ending {
        Ending::End => {},
        Ending::Error(error) => {
            law_error_round_trip(d, error, Seq::empty());
            assert(bytes + Seq::<u8>::empty() =~= bytes);
        },
    }
    let m1 = next(m).1;
    assert(drain(m1).events =~= Seq::<Event>::empty());
    assert(drain(m).events =~= stream_events(Seq::empty(), ending));
}

/// What reading the first record of a stream comes to.
proof fn lemma_first_record(e: EncoderView, d: StateView, f: FrameView, payload: Seq<u8>, tail: Seq<u8>) -> (d2:
    StateView)
    requires
        in_step(e, d),
        sendable(Part::Record(f, payload)),
    ensures
        in_step(encode_frame(e, f).0, d2),
        ({
            let first = StreamView {
                buf: encode_frame(e, f).1 + (payload + tail),
                state: d,
                payload_left: 0,
                finished: false,
            };
            let second = StreamView { buf: tail, state: d2, payload_left: 0, finished: false };
            drain(first) == (Drained {
                events: seq![Event::Record(record_of(f))] + (byte_events(payload) + drain(
                    second,
                ).events),
                ..drain(second)
            })
        }),
{
    let m = StreamView {
        buf: encode_frame(e, f).1 + (payload + tail),
        state: d,
        payload_left: 0,
        finished: false,
    };
    law_record_round_trip(e, d, f, payload + tail);
    assert(m.buf[0] == TAG_RECORD);
    let m1 = next(m).1;
    let d2 = m1.state;
    let second = StreamView { buf: tail, state: d2, payload_left: 0, finished: false };
    assert(m1.buf == payload + tail);
    if payload.len() == 0 {
        assert(m1.buf =~= tail);
        assert(m1 == second);
        assert(byte_events(payload) + drain(second).events =~= drain(second).events);
    } else {
        let n = payload.len() as int;
        assert((payload + tail).take(n) =~= payload);
        assert((payload + tail).skip(n) =~= tail);
        assert(next(m1).1 == second);
    }
    d2
}

/// A reader in step with the writer reads back a whole stream: every record with its payload,
/// in order, and the end; keepalives are skipped.
pub proof fn law_stream_round_trip(
    e: EncoderView,
    d: StateView,
    parts: Seq<Part>,
    ending: Ending,
)
    requires
        in_step(e, d),
        all_sendable(parts),
        sendable_ending(ending),
    ensures
        says_all(
            drain(
                StreamView {
                    buf: encode_stream(e, parts, ending),
                    state: d,
                    payload_left: 0,
                    finished: false,
                },
            ),
            stream_events(parts, ending),
        ),
    decreases parts.len(),
{
    let m = StreamView {
        buf: encode_stream(e, parts, ending),
        state: d,
        payload_left: 0,
        finished: false,
    };
    if parts.len() == 0 {
        lemma_ending_round_trip(d, ending);
        assert(parts =~= Seq::<Part>::empty());
    } else {
        let left = parts.skip(1);
        assert forall|i: int| 0 <= i < left.len() implies sendable(#[trigger] left[i]) by {
            assert(left[i] == parts[i + 1]);
        }
        assert(sendable(parts[0]));
        match parts[0] {
            Part::Keepalive => {
                law_stream_round_trip(e, d, left, ending);
                let m1 = StreamView { buf: encode_stream(e, left, ending), ..m };
                assert(m.buf.skip(1) =~= m1.buf);
                assert(next(m) == next(m1));
                assert(drain(m) == drain(m1));
            },
            Part::Record(f, payload) => {
                let e2 = encode_frame(e, f).0;
                let tail = encode_stream(e2, left, ending);
                let d2 = lemma_first_record(e, d, f, payload, tail);
                law_stream_round_trip(e2, d2, left, ending);
            },
        }
    }
}

proof fn lemma_start_in_step()
    ensures
        in_step(EncoderView::start(), StateView::start()),
        settled(StreamView::start()),
{
}

/// A stream that a new writer wrote is read back by a new reader, whatever chunks it comes in.
pub proof fn law_read_back_in_chunks(parts: Seq<Part>, ending: Ending, chunks: Seq<Seq<u8>>)
    requires
        all_sendable(parts),
        sendable_ending(ending),
        joined(chunks) == encode_stream(EncoderView::start(), parts, ending),
    ensures
        says_all(drain_chunks(StreamView::start(), chunks), stream_events(parts, ending)),
{
    lemma_start_in_step();
    law_stream_round_trip(EncoderView::start(), StateView::start(), parts, ending);
    law_any_chunk_boundary(StreamView::start(), chunks);
    assert(StreamView::start().fed(joined(chunks)).buf =~= encode_stream(
        EncoderView::start(),
        parts,
        ending,
    ));
}

/// A stream that stops before its end is not taken for a whole one: what is there is read
/// without error, but the reader does not come to the end.
pub proof fn law_truncation_is_seen(parts: Seq<Part>, ending: Ending, cut: int)
    requires
        all_sendable(parts),
        sendable_ending(ending),
        0 <= cut < encode_stream(EncoderView::start(), parts, ending).len(),
    ensures
        ({
            let whole = encode_stream(EncoderView::start(), parts, ending);
            let drained = drain(StreamView::start().fed(whole.take(cut)));
            &&& drained.failure is None
            &&& !drained.left.finished
            &&& drained.events.is_prefix_of(stream_events(parts, ending))
        }),
{
    let whole = encode_stream(EncoderView::start(), parts, ending);
    let front = whole.take(cut);
    let back = whole.skip(cut);
    let m = StreamView::start().fed(front);
    lemma_start_in_step();
    law_stream_round_trip(EncoderView::start(), StateView::start(), parts, ending);
    assert(m.fed(back).buf =~= whole);
    law_feed_in_two(m, back);
    let first = drain(m);
    if first.failure is None {
        lemma_finished_has_no_payload(m);
        if first.left.finished {
            let second = first.left.fed(back);
            assert(next(second) == (Ok::<Option<ItemView>, ErrorView>(None), second));
            assert(drain(second).left.buf.len() > 0);
        }
        let all = stream_events(parts, ending);
        assert(first.events =~= all.take(first.events.len() as int));
    }
}

proof fn lemma_finished_has_no_payload(m: StreamView)
    requires
        m.finished ==> m.payload_left == 0,
    ensures
        drain(m).left.finished ==> drain(m).left.payload_left == 0,
    decreases m.buf.len(),
{
    law_next_progresses(m);
    lemma_next_keeps_payload_rule(m);
    if let (Ok(Some(item)), m1) = next(m) {
        lemma_finished_has_no_payload(m1);
    }
}

proof fn lemma_next_keeps_payload_rule(m: StreamView)
    requires
        m.finished ==> m.payload_left == 0,
    ensures
        next(m).1.finished ==> next(m).1.payload_left == 0,
    decreases m.buf.len(),
{
    if m.payload_left == 0 && !m.finished && m.buf.len() > 0 && m.buf[0] == TAG_KEEPALIVE {
        lemma_next_keeps_payload_rule(StreamView { buf: m.buf.skip(1), ..m });
    }
}

proof fn lemma_string_keeps_bound(b: Seq<u8>, known: Seq<Seq<char>>)
    requires
        known.len() <= MAX_INTERNED,
    ensures
        parse_string(b, known) matches Parse::Done(v, _) ==> v.1.len() <= MAX_INTERNED,
{
}

proof fn lemma_pairs_keep_bound(b: Seq<u8>, known: Seq<Seq<char>>, count: nat)
    requires
        known.len() <= MAX_INTERNED,
    ensures
        parse_pairs(b, known, count) matches Parse::Done(v, _) ==> v.1.len() <= MAX_INTERNED,
    decreases count,
{
    if count > 0 {
        lemma_string_keeps_bound(b, known);
        if let Parse::Done((name, known1), b1) = parse_string(b, known) {
            lemma_string_keeps_bound(b1, known1);
            if let Parse::Done((value, known2), b2) = parse_string(b1, known1) {
                lemma_pairs_keep_bound(b2, known2, (count - 1) as nat);
            }
        }
    }
}

/// Interleaved entries each keep their own baseline: a record of one entry changes nothing in
/// what is remembered of another, neither in the writer nor in the reader.
pub proof fn law_entries_keep_their_baselines(
    e: EncoderView,
    d: StateView,
    f: FrameView,
    b: Seq<u8>,
    other: FrameView,
)
    requires
        other.entry != f.entry,
    ensures
        encode_frame(e, f).0.same_content_type(other) == e.same_content_type(other),
        encode_frame(e, f).0.same_labels(other) == e.same_labels(other),
        match parse_frame(d, b) {
            Parse::Done(FrameItem::Record(record, d2), _) => record.entry == f.entry ==> {
                &&& d2.prev_meta.contains_key(other.entry) == d.prev_meta.contains_key(other.entry)
                &&& d2.prev_meta[other.entry] == d.prev_meta[other.entry]
            },
            _ => true,
        },
{
}

/// Whatever bytes come in, the reader's string table stays bounded.
pub proof fn law_reader_table_bounded(d: StateView, b: Seq<u8>)
    requires
        d.strings.len() <= MAX_INTERNED,
    ensures
        match parse_frame(d, b) {
            Parse::Done(FrameItem::Record(_, d2), _) => d2.strings.len() <= MAX_INTERNED,
            _ => true,
        },
{
    if b.len() > 1 && b[0] == TAG_RECORD {
        let flags = b.skip(1)[0];
        let b0 = b.skip(1).skip(1);
        lemma_string_keeps_bound(b0, d.strings);
        if let Parse::Done((entry, known1), b1) = parse_entry(d, flags, b0) {
            if let Parse::Done(numbers, b2) = parse_numbers(b1) {
                lemma_string_keeps_bound(b2, known1);
                if let Parse::Done((content_type, known2), b3) = parse_content_type(
                    d,
                    flags,
                    entry,
                    known1,
                    b2,
                ) {
                    if let Parse::Done(count, b4) = parse_varint(b3) {
                        lemma_pairs_keep_bound(b4, known2, count as nat);
                    }
                }
            }
        }
    }
}

/// The writer's string table after the given uses, from the start of a stream.
pub open spec fn table_after(uses: Seq<Seq<char>>) -> StringsView
    decreases uses.len(),
{
    if uses.len() == 0 {
        EncoderView::start().strings
    } else {
        string_code(table_after(uses.drop_last()), uses.last()).1
    }
}

/// Whatever strings a writer writes, it remembers no more than a constant number of them, and
/// gives no more than a constant number an index.
pub proof fn law_writer_table_bounded(uses: Seq<Seq<char>>)
    ensures
        table_after(uses).slots.dom().finite(),
        table_after(uses).slots.dom().len() <= MAX_STRINGS,
        table_after(uses).interned <= MAX_INTERNED,
    decreases uses.len(),
{
    if uses.len() > 0 {
        law_writer_table_bounded(uses.drop_last());
    }
}

/// A string takes an index only on its second use: one that is used once costs one inline copy
/// and no place in the table.
pub proof fn law_index_takes_two_uses(uses: Seq<Seq<char>>, value: Seq<char>)
    ensures
        table_after(uses).wf(),
        table_after(uses).slots.contains_key(value) ==> exists|i: int|
            0 <= i < uses.len() && #[trigger] uses[i] == value,
        table_after(uses).slots.contains_key(value) && table_after(uses).slots[value] is Some
            ==> exists|i: int, j: int|
            0 <= i < j < uses.len() && #[trigger] uses[i] == value && #[trigger] uses[j] == value,
    decreases uses.len(),
{
    if uses.len() > 0 {
        let front = uses.drop_last();
        let last = uses.len() - 1;
        let t = table_after(front);
        law_index_takes_two_uses(front, value);
        assert(uses[last] == uses.last());
        if t.slots.contains_key(value) {
            let i = choose|i: int| 0 <= i < front.len() && #[trigger] front[i] == value;
            assert(uses[i] == value);
            if t.slots[value] is Some {
                let (i, j) = choose|i: int, j: int|
                    0 <= i < j < front.len() && #[trigger] front[i] == value && #[trigger] front[j]
                        == value;
                assert(uses[i] == value && uses[j] == value);
            } else if uses.last() == value {
                assert(uses[i] == value && uses[last] == value);
            }
        }
    }
}

} // verus!
