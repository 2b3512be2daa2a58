//! The reading side of the record stream.

use crate::batch::buffer::{advance, as_slice, buffer_bytes, put_slice, shared_bytes};
use crate::batch::encoder::{
    FLAG_HAS_PAYLOAD, FLAG_SAME_CONTENT_TYPE, FLAG_SAME_ENTRY, FLAG_SAME_LABELS, MAX_INTERNED,
    STR_INLINE_INTERN, STR_REF_BASE, TAG_END, TAG_ERROR, TAG_KEEPALIVE, TAG_RECORD,
};
use crate::batch::labels::{pairs_map, Labels, PairView};
use crate::batch::wire::{
    apply_delta, malformed, malformed_error, moved_by, parse_slice, parse_u8, parse_varint,
    text_from_utf8, unzigzag, zigzag_value, Cursor, Parse,
};
use crate::error::{code_of_number, ErrorCode, ErrorView, ReductError};
use crate::text::{hex_byte, hex_byte_text};
use bytes::{Bytes, BytesMut};
use vstd::hash_map::StringHashMap;
use vstd::prelude::*;
use vstd::utf8::{decode_utf8, valid_utf8};

verus! {

/// Upper bound on an inline string, so that a corrupt length does not make the decoder wait
/// forever for bytes that will never arrive.
pub const MAX_STRING_LEN: u64 = 1048576;

/// A record's metadata as it came off the wire.
pub struct RecordView {
    pub entry: Seq<char>,
    pub timestamp: u64,
    pub content_type: Seq<char>,
    pub content_length: u64,
    pub labels: Map<Seq<char>, Seq<char>>,
    pub has_payload: bool,
}

/// What the reader remembers of the records before.
pub struct StateView {
    pub strings: Seq<Seq<char>>,
    pub prev_timestamp: u64,
    pub prev_entry: Option<Seq<char>>,
    pub prev_meta: Map<Seq<char>, (Seq<char>, Map<Seq<char>, Seq<char>>)>,
}

impl StateView {
    /// The start of a stream.
    pub open spec fn start() -> StateView {
        StateView {
            strings: Seq::empty(),
            prev_timestamp: 0,
            prev_entry: None,
            prev_meta: Map::empty(),
        }
    }
}

/// A frame that carries something, with the reader's state after it.
pub enum FrameItem {
    Record(RecordView, StateView),
    Error(ErrorView),
    End,
}

/// Reads length-prefixed text.
pub open spec fn parse_text(b: Seq<u8>, too_long: Seq<char>, not_utf8: Seq<char>) -> Parse<
    Seq<char>,
> {
    match parse_varint(b) {
        Parse::More => Parse::More,
        Parse::Malformed(what) => Parse::Malformed(what),
        Parse::Done(len, b1) => if len > MAX_STRING_LEN {
            Parse::Malformed(too_long)
        } else {
            match parse_slice(b1, len as nat) {
                Parse::More => Parse::More,
                Parse::Malformed(what) => Parse::Malformed(what),
                Parse::Done(bytes, rest) => if valid_utf8(bytes) {
                    Parse::Done(decode_utf8(bytes), rest)
                } else {
                    Parse::Malformed(not_utf8)
                },
            }
        },
    }
}

/// Reads a string, given the strings that have an index so far; the result holds the table
/// after it.
pub open spec fn parse_string(b: Seq<u8>, known: Seq<Seq<char>>) -> Parse<
    (Seq<char>, Seq<Seq<char>>),
> {
    match parse_varint(b) {
        Parse::More => Parse::More,
        Parse::Malformed(what) => Parse::Malformed(what),
        Parse::Done(code, b1) => if code >= STR_REF_BASE {
            if code - STR_REF_BASE < known.len() {
                Parse::Done((known[code - STR_REF_BASE], known), b1)
            } else {
                Parse::Malformed("string reference is out of range"@)
            }
        } else {
            match parse_text(b1, "inline string is too long"@, "inline string is not valid UTF-8"@) {
                Parse::More => Parse::More,
                Parse::Malformed(what) => Parse::Malformed(what),
                Parse::Done(value, rest) => if code != STR_INLINE_INTERN {
                    Parse::Done((value, known), rest)
                } else if known.len() >= MAX_INTERNED {
                    Parse::Malformed("string table is full"@)
                } else {
                    Parse::Done((value, known.push(value)), rest)
                },
            }
        },
    }
}

/// Reads `count` names and values.
pub open spec fn parse_pairs(b: Seq<u8>, known: Seq<Seq<char>>, count: nat) -> Parse<
    (Seq<PairView>, Seq<Seq<char>>),
>
    decreases count,
{
    if count == 0 {
        Parse::Done((Seq::empty(), known), b)
    } else {
        match parse_string(b, known) {
            Parse::More => Parse::More,
            Parse::Malformed(what) => Parse::Malformed(what),
            Parse::Done((name, known1), b1) => match parse_string(b1, known1) {
                Parse::More => Parse::More,
                Parse::Malformed(what) => Parse::Malformed(what),
                Parse::Done((value, known2), b2) => match parse_pairs(
                    b2,
                    known2,
                    (count - 1) as nat,
                ) {
                    Parse::More => Parse::More,
                    Parse::Malformed(what) => Parse::Malformed(what),
                    Parse::Done((pairs, known3), rest) => Parse::Done(
                        (seq![(name, value)] + pairs, known3),
                        rest,
                    ),
                },
            },
        }
    }
}

/// Reads the entry name, or takes that of the previous record.
pub open spec fn parse_entry(d: StateView, flags: u8, b: Seq<u8>) -> Parse<
    (Seq<char>, Seq<Seq<char>>),
> {
    if flags & FLAG_SAME_ENTRY != 0 {
        match d.prev_entry {
            Some(entry) => Parse::Done((entry, d.strings), b),
            None => Parse::Malformed("first record reuses an entry name"@),
        }
    } else {
        parse_string(b, d.strings)
    }
}

/// Reads the wire difference of the timestamp and the content length.
pub open spec fn parse_numbers(b: Seq<u8>) -> Parse<(u64, u64)> {
    match parse_varint(b) {
        Parse::More => Parse::More,
        Parse::Malformed(what) => Parse::Malformed(what),
        Parse::Done(delta, b1) => match parse_varint(b1) {
            Parse::More => Parse::More,
            Parse::Malformed(what) => Parse::Malformed(what),
            Parse::Done(length, rest) => Parse::Done((delta, length), rest),
        },
    }
}

/// Reads the content type, or takes that of the entry's previous record.
pub open spec fn parse_content_type(
    d: StateView,
    flags: u8,
    entry: Seq<char>,
    known: Seq<Seq<char>>,
    b: Seq<u8>,
) -> Parse<(Seq<char>, Seq<Seq<char>>)> {
    if flags & FLAG_SAME_CONTENT_TYPE != 0 {
        if d.prev_meta.contains_key(entry) {
            Parse::Done((d.prev_meta[entry].0, known), b)
        } else {
            Parse::Malformed("first record of an entry reuses a content type"@)
        }
    } else {
        parse_string(b, known)
    }
}

/// Reads the labels, or takes those of the entry's previous record.
pub open spec fn parse_labels(
    d: StateView,
    flags: u8,
    entry: Seq<char>,
    known: Seq<Seq<char>>,
    b: Seq<u8>,
) -> Parse<(Map<Seq<char>, Seq<char>>, Seq<Seq<char>>)> {
    if flags & FLAG_SAME_LABELS != 0 {
        if d.prev_meta.contains_key(entry) {
            Parse::Done((d.prev_meta[entry].1, known), b)
        } else {
            Parse::Malformed("first record of an entry reuses labels"@)
        }
    } else {
        match parse_varint(b) {
            Parse::More => Parse::More,
            Parse::Malformed(what) => Parse::Malformed(what),
            Parse::Done(count, b1) => match parse_pairs(b1, known, count as nat) {
                Parse::More => Parse::More,
                Parse::Malformed(what) => Parse::Malformed(what),
                Parse::Done((pairs, known1), rest) => Parse::Done(
                    (pairs_map(pairs), known1),
                    rest,
                ),
            },
        }
    }
}

/// Reads what a record frame holds behind its flags.
pub open spec fn parse_record_body(d: StateView, flags: u8, b: Seq<u8>) -> Parse<
    (RecordView, StateView),
> {
    match parse_entry(d, flags, b) {
        Parse::More => Parse::More,
        Parse::Malformed(what) => Parse::Malformed(what),
        Parse::Done((entry, known1), b1) => match parse_numbers(b1) {
            Parse::More => Parse::More,
            Parse::Malformed(what) => Parse::Malformed(what),
            Parse::Done((delta, content_length), b2) => match parse_content_type(
                d,
                flags,
                entry,
                known1,
                b2,
            ) {
                Parse::More => Parse::More,
                Parse::Malformed(what) => Parse::Malformed(what),
                Parse::Done((content_type, known2), b3) => match parse_labels(
                    d,
                    flags,
                    entry,
                    known2,
                    b3,
                ) {
                    Parse::More => Parse::More,
                    Parse::Malformed(what) => Parse::Malformed(what),
                    Parse::Done((labels, known3), rest) => {
                        let timestamp = moved_by(d.prev_timestamp, zigzag_value(delta as int)) as u64;
                        Parse::Done(
                            (
                                RecordView {
                                    entry,
                                    timestamp,
                                    content_type,
                                    content_length,
                                    labels,
                                    has_payload: flags & FLAG_HAS_PAYLOAD != 0,
                                },
                                StateView {
                                    strings: known3,
                                    prev_timestamp: timestamp,
                                    prev_entry: Some(entry),
                                    prev_meta: d.prev_meta.insert(entry, (content_type, labels)),
                                },
                            ),
                            rest,
                        )
                    },
                },
            },
        },
    }
}

/// Reads a record frame behind its tag.
pub open spec fn parse_record(d: StateView, b: Seq<u8>) -> Parse<(RecordView, StateView)> {
    match parse_u8(b) {
        Parse::More => Parse::More,
        Parse::Malformed(what) => Parse::Malformed(what),
        Parse::Done(flags, b1) => parse_record_body(d, flags, b1),
    }
}

/// The status that an error frame's code stands for.
pub open spec fn status_of(code: u64) -> ErrorCode {
    match code_of_number(zigzag_value(code as int)) {
        Some(status) => status,
        None => ErrorCode::Unknown,
    }
}

/// Reads an error frame behind its tag.
pub open spec fn parse_error(b: Seq<u8>) -> Parse<ErrorView> {
    match parse_varint(b) {
        Parse::More => Parse::More,
        Parse::Malformed(what) => Parse::Malformed(what),
        Parse::Done(code, b1) => match parse_text(
            b1,
            "error message is too long"@,
            "error message is not valid UTF-8"@,
        ) {
            Parse::More => Parse::More,
            Parse::Malformed(what) => Parse::Malformed(what),
            Parse::Done(message, rest) => Parse::Done(
                ErrorView { status: status_of(code), message },
                rest,
            ),
        },
    }
}

/// Reads a frame other than a keepalive.
pub open spec fn parse_frame(d: StateView, b: Seq<u8>) -> Parse<FrameItem> {
    match parse_u8(b) {
        Parse::More => Parse::More,
        Parse::Malformed(what) => Parse::Malformed(what),
        Parse::Done(tag, b1) => if tag == TAG_RECORD {
            match parse_record(d, b1) {
                Parse::More => Parse::More,
                Parse::Malformed(what) => Parse::Malformed(what),
                Parse::Done((record, next), rest) => Parse::Done(
                    FrameItem::Record(record, next),
                    rest,
                ),
            }
        } else if tag == TAG_ERROR {
            match parse_error(b1) {
                Parse::More => Parse::More,
                Parse::Malformed(what) => Parse::Malformed(what),
                Parse::Done(error, rest) => Parse::Done(FrameItem::Error(error), rest),
            }
        } else if tag == TAG_END {
            Parse::Done(FrameItem::End, b1)
        } else {
            Parse::Malformed("unknown frame tag "@ + hex_byte(tag))
        },
    }
}

/// What the decoder hands back.
pub enum ItemView {
    Record(RecordView),
    Payload(Seq<u8>),
    Error(ErrorView),
    End,
}

/// A decoder: the bytes that were fed and not decoded, what it remembers, how many payload
/// bytes of the last record are to come, and whether the stream has ended.
pub struct StreamView {
    pub buf: Seq<u8>,
    pub state: StateView,
    pub payload_left: u64,
    pub finished: bool,
}

impl StreamView {
    pub open spec fn start() -> StreamView {
        StreamView {
            buf: Seq::empty(),
            state: StateView::start(),
            payload_left: 0,
            finished: false,
        }
    }

    /// With a chunk added behind.
    pub open spec fn fed(self, chunk: Seq<u8>) -> StreamView {
        StreamView { buf: self.buf + chunk, ..self }
    }

    /// How many bytes of a pending payload are there.
    pub open spec fn payload_ready(self) -> int {
        if self.payload_left <= self.buf.len() {
            self.payload_left as int
        } else {
            self.buf.len() as int
        }
    }
}

/// The next item and the decoder after it; no item where more bytes are needed. Keepalives
/// are skipped.
pub open spec fn next(m: StreamView) -> (Result<Option<ItemView>, ErrorView>, StreamView)
    decreases m.buf.len(),
{
    if m.payload_left > 0 {
        if m.buf.len() == 0 {
            (Ok(None), m)
        } else {
            let take = m.payload_ready();
            (
                Ok(Some(ItemView::Payload(m.buf.take(take)))),
                StreamView {
                    buf: m.buf.skip(take),
                    payload_left: (m.payload_left - take) as u64,
                    ..m
                },
            )
        }
    } else if m.finished || m.buf.len() == 0 {
        (Ok(None), m)
    } else if m.buf[0] == TAG_KEEPALIVE {
        next(StreamView { buf: m.buf.skip(1), ..m })
    } else {
        match parse_frame(m.state, m.buf) {
            Parse::More => (Ok(None), m),
            Parse::Malformed(what) => (Err(malformed_error(what)), m),
            Parse::Done(FrameItem::Record(record, state), rest) => (
                Ok(Some(ItemView::Record(record))),
                StreamView {
                    buf: rest,
                    state,
                    payload_left: if record.has_payload {
                        record.content_length
                    } else {
                        0
                    },
                    finished: false,
                },
            ),
            Parse::Done(FrameItem::Error(error), rest) => (
                Ok(Some(ItemView::Error(error))),
                StreamView { buf: rest, finished: true, ..m },
            ),
            Parse::Done(FrameItem::End, rest) => (
                Ok(Some(ItemView::End)),
                StreamView { buf: rest, finished: true, ..m },
            ),
        }
    }
}

/// One record's metadata as it came off the wire.
#[derive(Debug, PartialEq)]
pub struct StreamRecord {
    pub entry: String,
    pub timestamp: u64,
    pub content_type: String,
    pub content_length: u64,
    pub labels: Labels,
    /// False for a metadata-only query, where no payload follows the record.
    pub has_payload: bool,
}

impl View for StreamRecord {
    type V = RecordView;

    open spec fn view(&self) -> RecordView {
        RecordView {
            entry: self.entry@,
            timestamp: self.timestamp,
            content_type: self.content_type@,
            content_length: self.content_length,
            labels: self.labels@,
            has_payload: self.has_payload,
        }
    }
}

impl Clone for StreamRecord {
    fn clone(&self) -> (r: StreamRecord)
        ensures
            r@ == self@,
    {
        StreamRecord {
            entry: self.entry.clone(),
            timestamp: self.timestamp,
            content_type: self.content_type.clone(),
            content_length: self.content_length,
            labels: self.labels.duplicate(),
            has_payload: self.has_payload,
        }
    }
}

/// What [`StreamDecoder::next_item`] hands back.
#[derive(Debug, PartialEq)]
pub enum StreamItem {
    /// Followed by `content_length` bytes as `Payload` items when `has_payload` is set.
    Record(StreamRecord),
    Payload(Bytes),
    Error(ReductError),
    End,
}

impl View for StreamItem {
    type V = ItemView;

    open spec fn view(&self) -> ItemView {
        match self {
            StreamItem::Record(record) => ItemView::Record(record@),
            StreamItem::Payload(bytes) => ItemView::Payload(shared_bytes(*bytes)),
            StreamItem::Error(error) => ItemView::Error(error@),
            StreamItem::End => ItemView::End,
        }
    }
}

impl Clone for StreamItem {
    fn clone(&self) -> (r: StreamItem)
        ensures
            r@ == self@,
    {
        match self {
            StreamItem::Record(record) => StreamItem::Record(record.clone()),
            StreamItem::Payload(bytes) => StreamItem::Payload(bytes.clone()),
            StreamItem::Error(error) => StreamItem::Error(error.clone()),
            StreamItem::End => StreamItem::End,
        }
    }
}

/// The text of a list of strings.
pub open spec fn texts(strings: Seq<String>) -> Seq<Seq<char>> {
    Seq::new(strings.len(), |i: int| strings[i]@)
}

struct DecoderState {
    strings: Vec<String>,
    prev_timestamp: u64,
    prev_entry: Option<String>,
    prev_meta: StringHashMap<(String, Labels)>,
}

impl View for DecoderState {
    type V = StateView;

    closed spec fn view(&self) -> StateView {
        StateView {
            strings: texts(self.strings@),
            prev_timestamp: self.prev_timestamp,
            prev_entry: match self.prev_entry {
                Some(entry) => Some(entry@),
                None => None,
            },
            prev_meta: self.prev_meta@.map_values(|meta: (String, Labels)| (meta.0@, meta.1@)),
        }
    }
}

/// Whether reading text came to what `parse` says, with `after` left behind it.
spec fn reads_text(
    r: Result<Option<String>, ReductError>,
    parse: Parse<Seq<char>>,
    after: Seq<u8>,
) -> bool {
    match parse {
        Parse::More => r matches Ok(None),
        Parse::Malformed(what) => r matches Err(e) && e@ == malformed_error(what),
        Parse::Done(v, rest) => r matches Ok(Some(w)) && w@ == v && after == rest,
    }
}

/// Whether reading text came to what `parse` says, with `known` and `after` left behind it. Where
/// there is no text, the known strings are those of before.
spec fn reads_string(
    r: Result<Option<String>, ReductError>,
    parse: Parse<(Seq<char>, Seq<Seq<char>>)>,
    before: Seq<Seq<char>>,
    known: Seq<Seq<char>>,
    after: Seq<u8>,
) -> bool {
    match parse {
        Parse::More => r matches Ok(None) && known == before,
        Parse::Malformed(what) => r matches Err(e) && e@ == malformed_error(what) && known
            == before,
        Parse::Done(v, rest) => r matches Ok(Some(w)) && w@ == v.0 && known == v.1 && after == rest,
    }
}

/// Reads length-prefixed text.
fn read_text(cursor: &mut Cursor, too_long: &str, not_utf8: &str) -> (r: Result<
    Option<String>,
    ReductError,
>)
    requires
        old(cursor).wf(),
    ensures
        final(cursor).wf(),
        final(cursor).buf == old(cursor).buf,
        reads_text(
            r,
            parse_text(old(cursor).rest(), too_long@, not_utf8@),
            final(cursor).rest(),
        ),
{
    let len: u64 = match cursor.varint() {
        Err(e) => {
            return Err(e);
        },
        Ok(None) => {
            return Ok(None);
        },
        Ok(Some(len)) => len,
    };
    if len > MAX_STRING_LEN {
        return Err(malformed(too_long));
    }
    let bytes: &[u8] = match cursor.slice(len as usize) {
        None => {
            return Ok(None);
        },
        Some(bytes) => bytes,
    };
    match text_from_utf8(bytes) {
        Some(value) => Ok(Some(value)),
        None => Err(malformed(not_utf8)),
    }
}

impl DecoderState {
    /// Newly interned strings are collected rather than added straight away, because the frame
    /// they belong to may still be incomplete.
    fn read_string(&self, cursor: &mut Cursor, pending: &mut Vec<String>) -> (r: Result<
        Option<String>,
        ReductError,
    >)
        requires
            old(cursor).wf(),
        ensures
            final(cursor).wf(),
            final(cursor).buf == old(cursor).buf,
            reads_string(
                r,
                parse_string(old(cursor).rest(), self@.strings + texts(old(pending)@)),
                self@.strings + texts(old(pending)@),
                self@.strings + texts(final(pending)@),
                final(cursor).rest(),
            ),
            !(r matches Ok(Some(_))) ==> final(pending)@ == old(pending)@,
    {
        let ghost known = self@.strings + texts(pending@);
        let code: u64 = match cursor.varint() {
            Err(e) => {
                return Err(e);
            },
            Ok(None) => {
                return Ok(None);
            },
            Ok(Some(code)) => code,
        };
        if code >= STR_REF_BASE {
            let index: u64 = code - STR_REF_BASE;
            let settled: usize = self.strings.len();
            if index < settled as u64 {
                return Ok(Some(self.strings[index as usize].clone()));
            }
            let index: u64 = index - settled as u64;
            if index < pending.len() as u64 {
                return Ok(Some(pending[index as usize].clone()));
            }
            return Err(malformed("string reference is out of range"));
        }
        let value: String = match read_text(
            cursor,
            "inline string is too long",
            "inline string is not valid UTF-8",
        ) {
            Err(e) => {
                return Err(e);
            },
            Ok(None) => {
                return Ok(None);
            },
            Ok(Some(value)) => value,
        };
        if code == STR_INLINE_INTERN {
            let settled: usize = self.strings.len();
            if settled >= MAX_INTERNED || pending.len() >= MAX_INTERNED - settled {
                return Err(malformed("string table is full"));
            }
            pending.push(value.clone());
            assert(self@.strings + texts(pending@) =~= known.push(value@));
        }
        Ok(Some(value))
    }

    fn decode_entry(&self, flags: u8, cursor: &mut Cursor, pending: &mut Vec<String>) -> (r: Result<
        Option<String>,
        ReductError,
    >)
        requires
            old(cursor).wf(),
            old(pending)@.len() == 0,
        ensures
            final(cursor).wf(),
            final(cursor).buf == old(cursor).buf,
            reads_string(
                r,
                parse_entry(self@, flags, old(cursor).rest()),
                self@.strings,
                self@.strings + texts(final(pending)@),
                final(cursor).rest(),
            ),
            !(r matches Ok(Some(_))) ==> final(pending)@ == old(pending)@,
    {
        assert(self@.strings + texts(pending@) =~= self@.strings);
        if flags & FLAG_SAME_ENTRY != 0 {
            match &self.prev_entry {
                Some(entry) => Ok(Some(entry.clone())),
                None => Err(malformed("first record reuses an entry name")),
            }
        } else {
            self.read_string(cursor, pending)
        }
    }

    fn decode_content_type(
        &self,
        flags: u8,
        entry: &str,
        cursor: &mut Cursor,
        pending: &mut Vec<String>,
    ) -> (r: Result<Option<String>, ReductError>)
        requires
            old(cursor).wf(),
        ensures
            final(cursor).wf(),
            final(cursor).buf == old(cursor).buf,
            reads_string(
                r,
                parse_content_type(
                    self@,
                    flags,
                    entry@,
                    self@.strings + texts(old(pending)@),
                    old(cursor).rest(),
                ),
                self@.strings + texts(old(pending)@),
                self@.strings + texts(final(pending)@),
                final(cursor).rest(),
            ),
            !(r matches Ok(Some(_))) ==> final(pending)@ == old(pending)@,
    {
        if flags & FLAG_SAME_CONTENT_TYPE != 0 {
            match self.prev_meta.get(entry) {
                Some(meta) => Ok(Some(meta.0.clone())),
                None => Err(malformed("first record of an entry reuses a content type")),
            }
        } else {
            self.read_string(cursor, pending)
        }
    }

    /// Reads `count` names and values.
    fn read_labels(&self, count: u64, cursor: &mut Cursor, pending: &mut Vec<String>) -> (r: Result<
        Option<Labels>,
        ReductError,
    >)
        requires
            old(cursor).wf(),
        ensures
            final(cursor).wf(),
            final(cursor).buf == old(cursor).buf,
            match parse_pairs(
                old(cursor).rest(),
                self@.strings + texts(old(pending)@),
                count as nat,
            ) {
                Parse::More => r matches Ok(None),
                Parse::Malformed(what) => r matches Err(e) && e@ == malformed_error(what),
                Parse::Done(v, rest) => r matches Ok(Some(w)) && w@ == pairs_map(v.0)
                    && self@.strings + texts(final(pending)@) == v.1 && final(cursor).rest() == rest,
            },
    {
        let ghost whole = parse_pairs(
            cursor.rest(),
            self@.strings + texts(pending@),
            count as nat,
        );
        let ghost mut done: Seq<PairView> = Seq::empty();
        let mut labels = Labels::new();
        let mut left: u64 = count;
        proof {
            match whole {
                Parse::Done(v, rest) => {
                    assert(done + v.0 =~= v.0);
                },
                _ => {},
            }
        }
        while left > 0
            invariant
                cursor.wf(),
                cursor.buf == old(cursor).buf,
                whole == parse_pairs(
                    old(cursor).rest(),
                    self@.strings + texts(old(pending)@),
                    count as nat,
                ),
                labels@ == pairs_map(done),
                match parse_pairs(cursor.rest(), self@.strings + texts(pending@), left as nat) {
                    Parse::More => whole is More,
                    Parse::Malformed(what) => whole == Parse::<
                        (Seq<PairView>, Seq<Seq<char>>),
                    >::Malformed(what),
                    Parse::Done(v, rest) => whole == Parse::Done((done + v.0, v.1), rest),
                },
            decreases left,
        {
            let ghost here = cursor.rest();
            let ghost known = self@.strings + texts(pending@);
            let name: String = match self.read_string(cursor, pending) {
                Err(e) => {
                    return Err(e);
                },
                Ok(None) => {
                    return Ok(None);
                },
                Ok(Some(name)) => name,
            };
            let value: String = match self.read_string(cursor, pending) {
                Err(e) => {
                    return Err(e);
                },
                Ok(None) => {
                    return Ok(None);
                },
                Ok(Some(value)) => value,
            };
            proof {
                let pair = (name@, value@);
                match parse_pairs(
                    cursor.rest(),
                    self@.strings + texts(pending@),
                    (left - 1) as nat,
                ) {
                    Parse::Done(v, rest) => {
                        assert(done + (seq![pair] + v.0) =~= done.push(pair) + v.0);
                    },
                    _ => {},
                }
                assert(done.push(pair).drop_last() =~= done);
                done = done.push(pair);
            }
            labels.insert(name, value);
            left = left - 1;
        }
        assert(done + Seq::<PairView>::empty() =~= done);
        Ok(Some(labels))
    }

    fn decode_labels(
        &self,
        flags: u8,
        entry: &str,
        cursor: &mut Cursor,
        pending: &mut Vec<String>,
    ) -> (r: Result<Option<Labels>, ReductError>)
        requires
            old(cursor).wf(),
        ensures
            final(cursor).wf(),
            final(cursor).buf == old(cursor).buf,
            match parse_labels(
                self@,
                flags,
                entry@,
                self@.strings + texts(old(pending)@),
                old(cursor).rest(),
            ) {
                Parse::More => r matches Ok(None),
                Parse::Malformed(what) => r matches Err(e) && e@ == malformed_error(what),
                Parse::Done(v, rest) => r matches Ok(Some(w)) && w@ == v.0 && self@.strings + texts(
                    final(pending)@,
                ) == v.1 && final(cursor).rest() == rest,
            },
    {
        if flags & FLAG_SAME_LABELS != 0 {
            match self.prev_meta.get(entry) {
                Some(meta) => Ok(Some(meta.1.duplicate())),
                None => Err(malformed("first record of an entry reuses labels")),
            }
        } else {
            match cursor.varint() {
                Err(e) => Err(e),
                Ok(None) => Ok(None),
                Ok(Some(count)) => self.read_labels(count, cursor, pending),
            }
        }
    }

    /// Decodes a record frame behind its tag. The state changes only where the frame is
    /// complete.
    fn decode_record(&mut self, cursor: &mut Cursor) -> (r: Result<Option<StreamRecord>, ReductError>)
        requires
            old(cursor).wf(),
        ensures
            final(cursor).wf(),
            final(cursor).buf == old(cursor).buf,
            match parse_record(old(self)@, old(cursor).rest()) {
                Parse::More => r matches Ok(None) && final(self)@ == old(self)@,
                Parse::Malformed(what) => r matches Err(e) && e@ == malformed_error(what)
                    && final(self)@ == old(self)@,
                Parse::Done(v, rest) => r matches Ok(Some(w)) && w@ == v.0 && final(self)@ == v.1
                    && final(cursor).rest() == rest,
            },
    {
        let flags: u8 = match cursor.u8() {
            None => {
                return Ok(None);
            },
            Some(flags) => flags,
        };
        let mut pending: Vec<String> = Vec::new();
        let entry: String = match self.decode_entry(flags, cursor, &mut pending) {
            Err(e) => {
                return Err(e);
            },
            Ok(None) => {
                return Ok(None);
            },
            Ok(Some(entry)) => entry,
        };
        let delta: u64 = match cursor.varint() {
            Err(e) => {
                return Err(e);
            },
            Ok(None) => {
                return Ok(None);
            },
            Ok(Some(delta)) => delta,
        };
        let content_length: u64 = match cursor.varint() {
            Err(e) => {
                return Err(e);
            },
            Ok(None) => {
                return Ok(None);
            },
            Ok(Some(content_length)) => content_length,
        };
        let timestamp: u64 = apply_delta(self.prev_timestamp, unzigzag(delta));
        let content_type: String = match self.decode_content_type(
            flags,
            entry.as_str(),
            cursor,
            &mut pending,
        ) {
            Err(e) => {
                return Err(e);
            },
            Ok(None) => {
                return Ok(None);
            },
            Ok(Some(content_type)) => content_type,
        };
        let labels: Labels = match self.decode_labels(flags, entry.as_str(), cursor, &mut pending) {
            Err(e) => {
                return Err(e);
            },
            Ok(None) => {
                return Ok(None);
            },
            Ok(Some(labels)) => labels,
        };
        let ghost before = self@;
        let ghost known = self@.strings + texts(pending@);
        self.strings.append(&mut pending);
        assert(texts(self.strings@) =~= known);
        self.prev_timestamp = timestamp;
        self.prev_entry = Some(entry.clone());
        self.prev_meta.insert(entry.clone(), (content_type.clone(), labels.duplicate()));
        assert(self@.prev_meta =~= before.prev_meta.insert(
            entry@,
            (content_type@, labels@),
        ));
        Ok(
            Some(
                StreamRecord {
                    entry,
                    timestamp,
                    content_type,
                    content_length,
                    labels,
                    has_payload: flags & FLAG_HAS_PAYLOAD != 0,
                },
            ),
        )
    }
}

/// Decodes an error frame behind its tag.
fn decode_error(cursor: &mut Cursor) -> (r: Result<Option<ReductError>, ReductError>)
    requires
        old(cursor).wf(),
    ensures
        final(cursor).wf(),
        final(cursor).buf == old(cursor).buf,
        match parse_error(old(cursor).rest()) {
            Parse::More => r matches Ok(None),
            Parse::Malformed(what) => r matches Err(e) && e@ == malformed_error(what),
            Parse::Done(v, rest) => r matches Ok(Some(w)) && w@ == v && final(cursor).rest() == rest,
        },
{
    let code: u64 = match cursor.varint() {
        Err(e) => {
            return Err(e);
        },
        Ok(None) => {
            return Ok(None);
        },
        Ok(Some(code)) => code,
    };
    let message: String = match read_text(
        cursor,
        "error message is too long",
        "error message is not valid UTF-8",
    ) {
        Err(e) => {
            return Err(e);
        },
        Ok(None) => {
            return Ok(None);
        },
        Ok(Some(message)) => message,
    };
    let status: ErrorCode = match ErrorCode::from_int(unzigzag(code)) {
        Some(status) => status,
        None => ErrorCode::Unknown,
    };
    Ok(Some(ReductError { status, message }))
}

/// Incremental decoder for a stream. Feed it response chunks in order and drain
/// [`StreamDecoder::next_item`] after each; a record larger than a chunk is handed over as
/// several `Payload` items, so nothing larger than one chunk is ever held.
pub struct StreamDecoder {
    buf: BytesMut,
    state: DecoderState,
    payload_left: u64,
    finished: bool,
}

impl View for StreamDecoder {
    type V = StreamView;

    closed spec fn view(&self) -> StreamView {
        StreamView {
            buf: buffer_bytes(self.buf),
            state: self.state@,
            payload_left: self.payload_left,
            finished: self.finished,
        }
    }
}

impl Default for StreamDecoder {
    fn default() -> (r: StreamDecoder)
        ensures
            r@ == StreamView::start(),
    {
        StreamDecoder::new()
    }
}

/// Whether an outcome is what `next` says.
pub open spec fn same_outcome(
    r: Result<Option<StreamItem>, ReductError>,
    expected: Result<Option<ItemView>, ErrorView>,
) -> bool {
    match expected {
        Ok(Some(item)) => r matches Ok(Some(got)) && got@ == item,
        Ok(None) => r matches Ok(None),
        Err(error) => r matches Err(got) && got@ == error,
    }
}

impl StreamDecoder {
    pub fn new() -> (r: StreamDecoder)
        ensures
            r@ == StreamView::start(),
    {
        let r = StreamDecoder {
            buf: BytesMut::new(),
            state: DecoderState {
                strings: Vec::new(),
                prev_timestamp: 0,
                prev_entry: None,
                prev_meta: StringHashMap::new(),
            },
            payload_left: 0,
            finished: false,
        };
        assert(r@.state.strings =~= StateView::start().strings);
        assert(r@.state.prev_meta =~= StateView::start().prev_meta);
        r
    }

    /// Adds a chunk of the response body.
    pub fn feed(&mut self, chunk: &[u8])
        requires
            old(self)@.buf.len() + chunk@.len() <= isize::MAX,
        ensures
            final(self)@ == old(self)@.fed(chunk@),
    {
        put_slice(&mut self.buf, chunk);
    }

    /// Hands over what is there of a pending payload.
    fn take_payload(&mut self) -> (r: Bytes)
        requires
            old(self)@.payload_left > 0,
            old(self)@.buf.len() > 0,
        ensures
            next(old(self)@) == (
                Ok::<Option<ItemView>, ErrorView>(Some(ItemView::Payload(shared_bytes(r)))),
                final(self)@,
            ),
    {
        let held: usize = self.buf.len();
        let take: usize = if self.payload_left < held as u64 {
            self.payload_left as usize
        } else {
            held
        };
        self.payload_left = self.payload_left - take as u64;
        let front = self.buf.split_to(take);
        front.freeze()
    }

    /// Returns the next item, or `None` when more bytes are needed.
    pub fn next_item(&mut self) -> (r: Result<Option<StreamItem>, ReductError>)
        ensures
            same_outcome(r, next(old(self)@).0),
            final(self)@ == next(old(self)@).1,
    {
        if self.payload_left > 0 {
            if self.buf.is_empty() {
                return Ok(None);
            }
            return Ok(Some(StreamItem::Payload(self.take_payload())));
        }
        loop
            invariant
                self@.payload_left == 0,
                next(self@) == next(old(self)@),
            decreases self@.buf.len(),
        {
            if self.finished || self.buf.is_empty() {
                return Ok(None);
            }
            let ghost m = self@;
            let held: usize = self.buf.len();
            let mut cursor = Cursor { buf: as_slice(&self.buf), pos: 0 };
            assert(cursor.rest() =~= m.buf);
            let tag: u8 = match cursor.u8() {
                None => {
                    return Ok(None);
                },
                Some(tag) => tag,
            };
            if tag == TAG_KEEPALIVE {
                advance(&mut self.buf, 1);
                assert(self@ == StreamView { buf: m.buf.skip(1), ..m });
                continue;
            }
            let item: StreamItem = if tag == TAG_RECORD {
                match self.state.decode_record(&mut cursor) {
                    Err(e) => {
                        return Err(e);
                    },
                    Ok(None) => {
                        return Ok(None);
                    },
                    Ok(Some(record)) => StreamItem::Record(record),
                }
            } else if tag == TAG_ERROR {
                match decode_error(&mut cursor) {
                    Err(e) => {
                        return Err(e);
                    },
                    Ok(None) => {
                        return Ok(None);
                    },
                    Ok(Some(error)) => StreamItem::Error(error),
                }
            } else if tag == TAG_END {
                StreamItem::End
            } else {
                return Err(
                    malformed(
                        "unknown frame tag ".to_owned().concat(hex_byte_text(tag).as_str()).as_str(),
                    ),
                );
            };
            let consumed: usize = cursor.pos;
            let payload_len: u64 = match &item {
                StreamItem::Record(record) => if record.has_payload {
                    record.content_length
                } else {
                    0
                },
                _ => 0,
            };
            let finished: bool = match &item {
                StreamItem::End => true,
                StreamItem::Error(_) => true,
                _ => false,
            };
            advance(&mut self.buf, consumed);
            self.payload_left = payload_len;
            self.finished = finished;
            return Ok(Some(item));
        }
    }

    /// True once END or ERROR has been decoded; a body that ends before that was truncated.
    pub fn is_finished(&self) -> (r: bool)
        ensures
            r == self@.finished,
    {
        self.finished
    }
}

} // verus!
