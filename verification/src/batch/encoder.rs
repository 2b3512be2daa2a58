//! The writing side of the record stream.
//!
//! A stream is a run of frames, each introduced by a one-byte tag:
//!
//! - `1` RECORD: record metadata, then `content_length` payload bytes if it has a payload;
//! - `2` END: the query is exhausted, nothing follows;
//! - `3` ERROR: zigzag varint status, then a length-prefixed message, nothing follows;
//! - `4` KEEPALIVE: nothing, keeps an idle connection warm.
//!
//! A record frame holds flags, the entry name, the timestamp as a zigzag difference from the
//! previous record, the content length, the content type and the labels. The flags tell which
//! of them are left out because they repeat: the entry name of the previous record, and the
//! content type and labels of the previous record of the same entry.
//!
//! A string carries a varint code: `0` inline, `1` inline and take the next index of the string
//! table, from `2` on a reference into the table. A string takes an index on its second use, if
//! the writer still remembers the first.

use crate::batch::buffer::{buffer_bytes, put_slice, put_u8};
use crate::batch::labels::{
    distinct_names, insert_pair, lemma_insert_pair, pairs_map, Labels, PairView,
};
use crate::batch::wire::{delta_of, put_varint, timestamp_delta, varint, zigzag, zigzag_code};
use crate::error::{code_number, ErrorView, ReductError};
use crate::text::same_text;
use bytes::BytesMut;
use vstd::hash_map::StringHashMap;
use vstd::prelude::*;
use vstd::utf8::encode_utf8;

verus! {

pub const TAG_RECORD: u8 = 1;

pub const TAG_END: u8 = 2;

pub const TAG_ERROR: u8 = 3;

pub const TAG_KEEPALIVE: u8 = 4;

pub const FLAG_SAME_ENTRY: u8 = 1;

pub const FLAG_SAME_CONTENT_TYPE: u8 = 2;

pub const FLAG_SAME_LABELS: u8 = 4;

pub const FLAG_HAS_PAYLOAD: u8 = 8;

pub const STR_INLINE: u64 = 0;

pub const STR_INLINE_INTERN: u64 = 1;

pub const STR_REF_BASE: u64 = 2;

/// Upper bound on the shared string table, so that a stream of values that never repeat does
/// not grow either side's memory without bound.
pub const MAX_INTERNED: usize = 8192;

/// Upper bound on the strings that the writer remembers, those without an index among them. A
/// string that is new once there are so many is written inline and not remembered.
pub const MAX_STRINGS: usize = 8192;

/// The writer's string table: which strings were used, and which of them have an index.
pub struct StringsView {
    pub slots: Map<Seq<char>, Option<u64>>,
    pub interned: nat,
}

impl StringsView {
    /// Indices are below the number of strings that took one, which is bounded, and so is the
    /// number of strings.
    pub open spec fn wf(self) -> bool {
        &&& self.interned <= MAX_INTERNED
        &&& self.slots.dom().finite()
        &&& self.slots.dom().len() <= MAX_STRINGS
        &&& forall|s: Seq<char>| #[trigger]
            self.slots.contains_key(s) && self.slots[s] is Some ==> self.slots[s]->0
                < self.interned
    }
}

/// The code for the next use of a string, and the table after it.
pub open spec fn string_code(t: StringsView, value: Seq<char>) -> (u64, StringsView) {
    if !t.slots.contains_key(value) {
        if t.slots.dom().len() < MAX_STRINGS {
            (STR_INLINE, StringsView { slots: t.slots.insert(value, None), ..t })
        } else {
            (STR_INLINE, t)
        }
    } else {
        match t.slots[value] {
            Some(index) => ((STR_REF_BASE + index) as u64, t),
            None => if t.interned < MAX_INTERNED {
                (
                    STR_INLINE_INTERN,
                    StringsView {
                        slots: t.slots.insert(value, Some(t.interned as u64)),
                        interned: t.interned + 1,
                    },
                )
            } else {
                (STR_INLINE, t)
            },
        }
    }
}

/// A string on the wire: its code, and where the code says so its length and bytes.
pub open spec fn string_bytes(code: u64, value: Seq<char>) -> Seq<u8> {
    if code < STR_REF_BASE {
        varint(code) + varint(encode_utf8(value).len() as u64) + encode_utf8(value)
    } else {
        varint(code)
    }
}

/// Writes the next use of a string.
pub open spec fn encode_string(t: StringsView, value: Seq<char>) -> (StringsView, Seq<u8>) {
    let (code, t2) = string_code(t, value);
    (t2, string_bytes(code, value))
}

/// Writes names and values in order.
pub open spec fn encode_pairs(t: StringsView, pairs: Seq<PairView>) -> (StringsView, Seq<u8>)
    decreases pairs.len(),
{
    if pairs.len() == 0 {
        (t, Seq::empty())
    } else {
        let (t1, name) = encode_string(t, pairs[0].0);
        let (t2, value) = encode_string(t1, pairs[0].1);
        let (t3, rest) = encode_pairs(t2, pairs.skip(1));
        (t3, name + value + rest)
    }
}

/// The metadata of one record on its way onto the wire.
pub struct FrameView {
    pub entry: Seq<char>,
    pub timestamp: u64,
    pub content_type: Seq<char>,
    pub content_length: u64,
    pub pairs: Seq<PairView>,
    pub with_payload: bool,
}

/// What the writer remembers of the records before.
pub struct EncoderView {
    pub strings: StringsView,
    pub prev_timestamp: u64,
    pub prev_entry: Option<Seq<char>>,
    pub prev_meta: Map<Seq<char>, (Seq<char>, Map<Seq<char>, Seq<char>>)>,
}

impl EncoderView {
    pub open spec fn wf(self) -> bool {
        self.strings.wf()
    }

    /// The start of a stream.
    pub open spec fn start() -> EncoderView {
        EncoderView {
            strings: StringsView { slots: Map::empty(), interned: 0 },
            prev_timestamp: 0,
            prev_entry: None,
            prev_meta: Map::empty(),
        }
    }

    pub open spec fn same_entry(self, f: FrameView) -> bool {
        self.prev_entry == Some(f.entry)
    }

    pub open spec fn same_content_type(self, f: FrameView) -> bool {
        self.prev_meta.contains_key(f.entry) && self.prev_meta[f.entry].0 == f.content_type
    }

    pub open spec fn same_labels(self, f: FrameView) -> bool {
        self.prev_meta.contains_key(f.entry) && self.prev_meta[f.entry].1 == pairs_map(f.pairs)
    }
}

pub open spec fn flag(set: bool, bit: u8) -> u8 {
    if set {
        bit
    } else {
        0
    }
}

/// The flags of a record frame in one byte.
pub open spec fn flags_of(
    same_entry: bool,
    same_content_type: bool,
    same_labels: bool,
    has_payload: bool,
) -> u8 {
    flag(same_entry, FLAG_SAME_ENTRY) | flag(same_content_type, FLAG_SAME_CONTENT_TYPE) | flag(
        same_labels,
        FLAG_SAME_LABELS,
    ) | flag(has_payload, FLAG_HAS_PAYLOAD)
}

fn flags_byte(
    same_entry: bool,
    same_content_type: bool,
    same_labels: bool,
    has_payload: bool,
) -> (r: u8)
    ensures
        r == flags_of(same_entry, same_content_type, same_labels, has_payload),
{
    let mut flags: u8 = 0;
    if same_entry {
        flags = flags | FLAG_SAME_ENTRY;
    }
    if same_content_type {
        flags = flags | FLAG_SAME_CONTENT_TYPE;
    }
    if same_labels {
        flags = flags | FLAG_SAME_LABELS;
    }
    if has_payload {
        flags = flags | FLAG_HAS_PAYLOAD;
    }
    assert(forall|x: u8| #[trigger] (x | 0u8) == x) by (bit_vector);
    assert(forall|x: u8| #[trigger] (0u8 | x) == x) by (bit_vector);
    flags
}

pub open spec fn record_flags(e: EncoderView, f: FrameView) -> u8 {
    flags_of(e.same_entry(f), e.same_content_type(f), e.same_labels(f), f.with_payload)
}

/// The entry name, unless it is that of the previous record.
pub open spec fn encode_entry(e: EncoderView, f: FrameView) -> (StringsView, Seq<u8>) {
    if e.same_entry(f) {
        (e.strings, Seq::empty())
    } else {
        encode_string(e.strings, f.entry)
    }
}

/// The timestamp and the content length.
pub open spec fn encode_numbers(e: EncoderView, f: FrameView) -> Seq<u8> {
    varint(zigzag_code(delta_of(e.prev_timestamp, f.timestamp)) as u64) + varint(f.content_length)
}

/// The content type, unless it is that of the entry's previous record.
pub open spec fn encode_content_type(
    e: EncoderView,
    f: FrameView,
    t: StringsView,
) -> (StringsView, Seq<u8>) {
    if e.same_content_type(f) {
        (t, Seq::empty())
    } else {
        encode_string(t, f.content_type)
    }
}

/// The labels, unless they are those of the entry's previous record.
pub open spec fn encode_labels(
    e: EncoderView,
    f: FrameView,
    t: StringsView,
) -> (StringsView, Seq<u8>) {
    if e.same_labels(f) {
        (t, Seq::empty())
    } else {
        let (t2, bytes) = encode_pairs(t, f.pairs);
        (t2, varint(f.pairs.len() as u64) + bytes)
    }
}

/// A record frame without its payload, and the writer after it.
pub open spec fn encode_frame(e: EncoderView, f: FrameView) -> (EncoderView, Seq<u8>) {
    let (t1, entry) = encode_entry(e, f);
    let (t2, content_type) = encode_content_type(e, f, t1);
    let (t3, labels) = encode_labels(e, f, t2);
    (
        EncoderView {
            strings: t3,
            prev_timestamp: f.timestamp,
            prev_entry: Some(f.entry),
            prev_meta: e.prev_meta.insert(f.entry, (f.content_type, pairs_map(f.pairs))),
        },
        seq![TAG_RECORD, record_flags(e, f)] + entry + encode_numbers(e, f) + content_type + labels,
    )
}

/// An error frame.
pub open spec fn error_frame(error: ErrorView) -> Seq<u8> {
    seq![TAG_ERROR] + varint(zigzag_code(code_number(error.status) as int) as u64) + varint(
        encode_utf8(error.message).len() as u64,
    ) + encode_utf8(error.message)
}

/// One record's metadata on its way onto the wire.
pub struct RecordFrame<'a> {
    pub entry: &'a str,
    pub timestamp: u64,
    pub content_type: &'a str,
    pub content_length: u64,
    pub labels: &'a Labels,
    /// False for a metadata-only query, where the payload bytes are left out.
    pub with_payload: bool,
}

impl<'a> View for RecordFrame<'a> {
    type V = FrameView;

    open spec fn view(&self) -> FrameView {
        FrameView {
            entry: self.entry@,
            timestamp: self.timestamp,
            content_type: self.content_type@,
            content_length: self.content_length,
            pairs: self.labels.pairs(),
            with_payload: self.with_payload,
        }
    }
}

/// A record's metadata as the storage keeps it.
pub struct RecordMeta {
    pub entry_name: String,
    pub timestamp: u64,
    pub content_type: String,
    pub content_length: u64,
    pub labels: Labels,
    /// Labels that a query computed for the record.
    pub computed_labels: Labels,
}

/// Labels with the computed ones set behind them, each under its name with `@` in front.
pub open spec fn fold_computed(pairs: Seq<PairView>, computed: Seq<PairView>) -> Seq<PairView>
    decreases computed.len(),
{
    if computed.len() == 0 {
        pairs
    } else {
        insert_pair(
            fold_computed(pairs, computed.drop_last()),
            "@"@ + computed.last().0,
            computed.last().1,
        )
    }
}

/// What is written for a record of the storage.
pub open spec fn meta_frame(meta: RecordMeta, with_payload: bool) -> FrameView {
    FrameView {
        entry: meta.entry_name@,
        timestamp: meta.timestamp,
        content_type: meta.content_type@,
        content_length: meta.content_length,
        pairs: fold_computed(meta.labels.pairs(), meta.computed_labels.pairs()),
        with_payload,
    }
}

/// Every computed label is found under its name with `@` in front, and the other names keep
/// their values.
pub proof fn law_computed_labels_folded(pairs: Seq<PairView>, computed: Seq<PairView>)
    requires
        distinct_names(pairs),
        distinct_names(computed),
    ensures
        distinct_names(fold_computed(pairs, computed)),
        forall|i: int|
            0 <= i < computed.len() ==> pairs_map(fold_computed(pairs, computed)).contains_pair(
                "@"@ + (#[trigger] computed[i]).0,
                computed[i].1,
            ),
        forall|name: Seq<char>|
            (forall|i: int| 0 <= i < computed.len() ==> name != "@"@ + (#[trigger] computed[i]).0)
                ==> {
                &&& pairs_map(fold_computed(pairs, computed)).contains_key(name) == #[trigger]
                pairs_map(pairs).contains_key(name)
                &&& pairs_map(fold_computed(pairs, computed))[name] == pairs_map(pairs)[name]
            },
    decreases computed.len(),
{
    if computed.len() > 0 {
        let front = computed.drop_last();
        let at = "@"@ + computed.last().0;
        law_computed_labels_folded(pairs, front);
        lemma_insert_pair(fold_computed(pairs, front), at, computed.last().1);
        assert forall|i: int| 0 <= i < computed.len() implies pairs_map(
            fold_computed(pairs, computed),
        ).contains_pair("@"@ + (#[trigger] computed[i]).0, computed[i].1) by {
            if i < front.len() {
                assert(front[i] == computed[i]);
                assert(computed[computed.len() - 1].0 != computed[i].0);
                assert(("@"@ + computed[i].0).skip("@"@.len() as int) =~= computed[i].0);
                assert(at.skip("@"@.len() as int) =~= computed.last().0);
            }
        }
        assert forall|name: Seq<char>|
            (forall|i: int| 0 <= i < computed.len() ==> name != "@"@ + (#[trigger] computed[i]).0)
            implies {
            &&& pairs_map(fold_computed(pairs, computed)).contains_key(name) == #[trigger] pairs_map(
                pairs,
            ).contains_key(name)
            &&& pairs_map(fold_computed(pairs, computed))[name] == pairs_map(pairs)[name]
        } by {
            assert forall|i: int| 0 <= i < front.len() implies name != "@"@ + (
            #[trigger] front[i]).0 by {
                assert(front[i] == computed[i]);
            }
            assert(computed[computed.len() - 1] == computed.last());
            assert(name != at);
        }
    }
}

/// Encoder state for one stream. Records are to be fed in stream order; the decoder rebuilds
/// the string table and the per-entry baselines from the same sequence.
pub struct StreamEncoder {
    strings: StringHashMap<Option<u64>>,
    interned: usize,
    prev_timestamp: u64,
    prev_entry: Option<String>,
    prev_meta: StringHashMap<(String, Labels)>,
}

impl View for StreamEncoder {
    type V = EncoderView;

    closed spec fn view(&self) -> EncoderView {
        EncoderView {
            strings: StringsView { slots: self.strings@, interned: self.interned as nat },
            prev_timestamp: self.prev_timestamp,
            prev_entry: match self.prev_entry {
                Some(entry) => Some(entry@),
                None => None,
            },
            prev_meta: self.prev_meta@.map_values(|meta: (String, Labels)| (meta.0@, meta.1@)),
        }
    }
}

impl Default for StreamEncoder {
    fn default() -> (r: StreamEncoder)
        ensures
            r@ == EncoderView::start(),
            r@.wf(),
    {
        StreamEncoder::new()
    }
}

fn put_string(buf: &mut BytesMut, code: u64, value: &str)
    requires
        buffer_bytes(*old(buf)).len() + string_bytes(code, value@).len() <= isize::MAX,
    ensures
        buffer_bytes(*final(buf)) == buffer_bytes(*old(buf)) + string_bytes(code, value@),
{
    let bytes: &[u8] = value.as_bytes();
    put_varint(buf, code);
    if code < STR_REF_BASE {
        put_varint(buf, bytes.len() as u64);
        put_slice(buf, bytes);
        assert(buffer_bytes(*buf) =~= buffer_bytes(*old(buf)) + string_bytes(code, value@));
    }
}

impl StreamEncoder {
    pub fn new() -> (r: StreamEncoder)
        ensures
            r@ == EncoderView::start(),
            r@.wf(),
    {
        let r = StreamEncoder {
            strings: StringHashMap::new(),
            interned: 0,
            prev_timestamp: 0,
            prev_entry: None,
            prev_meta: StringHashMap::new(),
        };
        assert(r@.prev_meta =~= EncoderView::start().prev_meta);
        r
    }

    fn string_code(&mut self, value: &str) -> (r: u64)
        requires
            old(self)@.wf(),
        ensures
            final(self)@.wf(),
            (r, final(self)@.strings) == string_code(old(self)@.strings, value@),
            final(self)@ == (EncoderView { strings: final(self)@.strings, ..old(self)@ }),
    {
        let slot: Option<Option<u64>> = match self.strings.get(value) {
            Some(slot) => Some(*slot),
            None => None,
        };
        match slot {
            Some(Some(index)) => STR_REF_BASE + index,
            Some(None) => {
                if self.interned < MAX_INTERNED {
                    self.strings.insert(value.to_owned(), Some(self.interned as u64));
                    self.interned = self.interned + 1;
                    STR_INLINE_INTERN
                } else {
                    STR_INLINE
                }
            },
            None => {
                if self.strings.len() < MAX_STRINGS {
                    self.strings.insert(value.to_owned(), None);
                }
                STR_INLINE
            },
        }
    }

    /// Writes the next use of a string.
    fn put_text(&mut self, buf: &mut BytesMut, value: &str)
        requires
            old(self)@.wf(),
            buffer_bytes(*old(buf)).len() + encode_string(old(self)@.strings, value@).1.len()
                <= isize::MAX,
        ensures
            final(self)@.wf(),
            final(self)@ == (EncoderView {
                strings: encode_string(old(self)@.strings, value@).0,
                ..old(self)@
            }),
            buffer_bytes(*final(buf)) == buffer_bytes(*old(buf)) + encode_string(
                old(self)@.strings,
                value@,
            ).1,
    {
        let code = self.string_code(value);
        put_string(buf, code, value);
    }

    fn put_labels(&mut self, buf: &mut BytesMut, labels: &Labels)
        requires
            old(self)@.wf(),
            buffer_bytes(*old(buf)).len() + varint(labels.pairs().len() as u64).len()
                + encode_pairs(old(self)@.strings, labels.pairs()).1.len() <= isize::MAX,
        ensures
            final(self)@.wf(),
            final(self)@ == (EncoderView {
                strings: encode_pairs(old(self)@.strings, labels.pairs()).0,
                ..old(self)@
            }),
            buffer_bytes(*final(buf)) == buffer_bytes(*old(buf)) + (varint(
                labels.pairs().len() as u64,
            ) + encode_pairs(old(self)@.strings, labels.pairs()).1),
    {
        let count: usize = labels.len();
        put_varint(buf, count as u64);
        let ghost pairs = labels.pairs();
        let ghost whole = encode_pairs(self@.strings, pairs);
        let ghost start = buffer_bytes(*buf);
        let mut i: usize = 0;
        assert(pairs.skip(0) =~= pairs);
        while i < count
            invariant
                i <= count,
                count == pairs.len(),
                pairs == labels.pairs(),
                self@.wf(),
                self@ == (EncoderView { strings: self@.strings, ..old(self)@ }),
                start.len() + whole.1.len() <= isize::MAX,
                encode_pairs(self@.strings, pairs.skip(i as int)).0 == whole.0,
                buffer_bytes(*buf) + encode_pairs(self@.strings, pairs.skip(i as int)).1 == start
                    + whole.1,
            decreases count - i,
        {
            let ghost left = pairs.skip(i as int);
            let ghost t = self@.strings;
            let ghost t1 = encode_string(t, left[0].0);
            let ghost t2 = encode_string(t1.0, left[0].1);
            let ghost t3 = encode_pairs(t2.0, left.skip(1));
            let ghost before = buffer_bytes(*buf);
            assert(left.skip(1) =~= pairs.skip(i + 1));
            assert(before + (t1.1 + t2.1 + t3.1) =~= before + t1.1 + t2.1 + t3.1);
            assert((before + t1.1 + t2.1 + t3.1).len() == (start + whole.1).len());
            let (name, value) = labels.pair(i);
            self.put_text(buf, name);
            self.put_text(buf, value);
            i = i + 1;
        }
        assert(pairs.skip(i as int).len() == 0);
        assert(buffer_bytes(*buf) =~= start + whole.1);
    }

    fn put_frame(
        &mut self,
        buf: &mut BytesMut,
        frame: &RecordFrame,
        same_entry: bool,
        same_content_type: bool,
        same_labels: bool,
    )
        requires
            old(self)@.wf(),
            same_entry == old(self)@.same_entry(frame@),
            same_content_type == old(self)@.same_content_type(frame@),
            same_labels == old(self)@.same_labels(frame@),
            buffer_bytes(*old(buf)).len() + encode_frame(old(self)@, frame@).1.len()
                <= isize::MAX,
        ensures
            final(self)@.wf(),
            final(self)@ == (EncoderView {
                strings: encode_frame(old(self)@, frame@).0.strings,
                ..old(self)@
            }),
            buffer_bytes(*final(buf)) == buffer_bytes(*old(buf)) + encode_frame(
                old(self)@,
                frame@,
            ).1,
    {
        let ghost e = self@;
        let ghost f = frame@;
        let ghost p0 = buffer_bytes(*buf);
        let ghost s1 = encode_entry(e, f);
        let ghost nums = encode_numbers(e, f);
        let ghost s2 = encode_content_type(e, f, s1.0);
        let ghost s3 = encode_labels(e, f, s2.0);
        let flags: u8 = flags_byte(same_entry, same_content_type, same_labels, frame.with_payload);
        let ghost head = seq![TAG_RECORD, flags];
        let ghost whole = head + s1.1 + nums + s2.1 + s3.1;
        assert(encode_frame(e, f).1 == whole);
        assert(p0.len() + head.len() + s1.1.len() + nums.len() + s2.1.len() + s3.1.len()
            <= isize::MAX);
        put_u8(buf, TAG_RECORD);
        put_u8(buf, flags);
        assert(buffer_bytes(*buf) =~= p0 + head);
        if !same_entry {
            self.put_text(buf, frame.entry);
        }
        assert(buffer_bytes(*buf) =~= p0 + head + s1.1);
        let delta = timestamp_delta(self.prev_timestamp, frame.timestamp);
        put_varint(buf, zigzag(delta));
        put_varint(buf, frame.content_length);
        assert(buffer_bytes(*buf) =~= p0 + head + s1.1 + nums);
        if !same_content_type {
            self.put_text(buf, frame.content_type);
        }
        assert(buffer_bytes(*buf) =~= p0 + head + s1.1 + nums + s2.1);
        if !same_labels {
            self.put_labels(buf, frame.labels);
        }
        assert(buffer_bytes(*buf) =~= p0 + head + s1.1 + nums + s2.1 + s3.1);
        assert(buffer_bytes(*buf) =~= p0 + whole);
    }

    /// Writes a record frame. The caller writes `content_length` payload bytes straight after
    /// the frame when `with_payload` is set.
    pub fn encode_record(&mut self, buf: &mut BytesMut, frame: RecordFrame)
        requires
            old(self)@.wf(),
            buffer_bytes(*old(buf)).len() + encode_frame(old(self)@, frame@).1.len()
                <= isize::MAX,
        ensures
            final(self)@.wf(),
            final(self)@ == encode_frame(old(self)@, frame@).0,
            buffer_bytes(*final(buf)) == buffer_bytes(*old(buf)) + encode_frame(
                old(self)@,
                frame@,
            ).1,
    {
        let ghost e = self@;
        let ghost f = frame@;
        let same_entry: bool = match &self.prev_entry {
            Some(prev) => same_text(prev.as_str(), frame.entry),
            None => false,
        };
        let (same_content_type, same_labels): (bool, bool) = match self.prev_meta.get(frame.entry) {
            Some(meta) => (
                same_text(meta.0.as_str(), frame.content_type),
                meta.1 == *frame.labels,
            ),
            None => (false, false),
        };
        assert(same_entry == e.same_entry(f));
        assert(same_content_type == e.same_content_type(f));
        assert(same_labels == e.same_labels(f));
        self.put_frame(buf, &frame, same_entry, same_content_type, same_labels);
        self.prev_timestamp = frame.timestamp;
        if !same_entry {
            self.prev_entry = Some(frame.entry.to_owned());
        }
        if !same_content_type || !same_labels {
            self.prev_meta.insert(
                frame.entry.to_owned(),
                (frame.content_type.to_owned(), frame.labels.duplicate()),
            );
        }
        assert(self@.prev_meta =~= encode_frame(e, f).0.prev_meta);
    }

    /// Writes a record frame. Computed labels are folded into the labels under an `@` prefix.
    pub fn encode_record_meta(&mut self, buf: &mut BytesMut, meta: &RecordMeta, with_payload: bool)
        requires
            old(self)@.wf(),
            buffer_bytes(*old(buf)).len() + encode_frame(
                old(self)@,
                meta_frame(*meta, with_payload),
            ).1.len() <= isize::MAX,
        ensures
            final(self)@.wf(),
            final(self)@ == encode_frame(old(self)@, meta_frame(*meta, with_payload)).0,
            buffer_bytes(*final(buf)) == buffer_bytes(*old(buf)) + encode_frame(
                old(self)@,
                meta_frame(*meta, with_payload),
            ).1,
    {
        let mut merged: Labels = meta.labels.duplicate();
        let count: usize = meta.computed_labels.len();
        let ghost computed = meta.computed_labels.pairs();
        let mut i: usize = 0;
        while i < count
            invariant
                i <= count,
                count == computed.len(),
                computed == meta.computed_labels.pairs(),
                merged.pairs() == fold_computed(meta.labels.pairs(), computed.take(i as int)),
            decreases count - i,
        {
            let (name, value) = meta.computed_labels.pair(i);
            assert(computed.take(i + 1).drop_last() =~= computed.take(i as int));
            merged.insert("@".to_owned().concat(name), value.to_owned());
            i = i + 1;
        }
        assert(computed.take(i as int) =~= computed);
        self.encode_record(
            buf,
            RecordFrame {
                entry: meta.entry_name.as_str(),
                timestamp: meta.timestamp,
                content_type: meta.content_type.as_str(),
                content_length: meta.content_length,
                labels: &merged,
                with_payload,
            },
        );
    }

    /// Writes the frame that ends a stream whose query is exhausted.
    pub fn encode_end(&self, buf: &mut BytesMut)
        requires
            buffer_bytes(*old(buf)).len() + 1 <= isize::MAX,
        ensures
            buffer_bytes(*final(buf)) == buffer_bytes(*old(buf)) + seq![TAG_END],
    {
        put_u8(buf, TAG_END);
        assert(buffer_bytes(*buf) =~= buffer_bytes(*old(buf)) + seq![TAG_END]);
    }

    /// Writes the frame that ends a stream whose query failed.
    pub fn encode_error(&self, buf: &mut BytesMut, error: &ReductError)
        requires
            buffer_bytes(*old(buf)).len() + error_frame(error@).len() <= isize::MAX,
        ensures
            buffer_bytes(*final(buf)) == buffer_bytes(*old(buf)) + error_frame(error@),
    {
        let bytes: &[u8] = error.message().as_bytes();
        put_u8(buf, TAG_ERROR);
        put_varint(buf, zigzag(error.status().int_value() as i64));
        put_varint(buf, bytes.len() as u64);
        put_slice(buf, bytes);
        assert(buffer_bytes(*buf) =~= buffer_bytes(*old(buf)) + error_frame(error@));
    }

    /// Writes a frame that carries nothing; it keeps an idle connection from being reaped.
    pub fn encode_keepalive(&self, buf: &mut BytesMut)
        requires
            buffer_bytes(*old(buf)).len() + 1 <= isize::MAX,
        ensures
            buffer_bytes(*final(buf)) == buffer_bytes(*old(buf)) + seq![TAG_KEEPALIVE],
    {
        put_u8(buf, TAG_KEEPALIVE);
        assert(buffer_bytes(*buf) =~= buffer_bytes(*old(buf)) + seq![TAG_KEEPALIVE]);
    }
}

} // verus!
