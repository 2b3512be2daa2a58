//! The response body of a streaming query.
//!
//! A [`Pump`] takes the records of a query and says what to do next: fetch more, read a chunk of
//! a record, charge bytes against the egress limit, hand bytes to the socket. It holds no
//! connection and no clock of its own; the caller does what it says and reports back.

use crate::batch::buffer::{buffer_bytes, put_slice, shared_bytes};
use crate::batch::encoder::{
    encode_frame, error_frame, meta_frame, EncoderView, FrameView, RecordMeta, StreamEncoder,
    TAG_END, TAG_KEEPALIVE,
};
use crate::error::{ErrorCode, ErrorView, ReductError};
use crate::text::{decimal, decimal_text};
use bytes::{Bytes, BytesMut};
use vstd::prelude::*;

verus! {

/// How many flushed chunks may sit between the pump and the socket. The pump stops on a full
/// channel, which is what makes a slow client throttle the reads behind it.
pub const CHANNEL_DEPTH: usize = 4;

/// How many bytes at most go to the socket at once to complete a record that broke off.
pub const FILL_SIZE: usize = 65536;

/// What a streaming query asks for, as far as the response depends on it.
pub struct StreamRequest {
    pub entries: Option<Vec<String>>,
    pub only_metadata: Option<bool>,
}

impl StreamRequest {
    /// Whether payloads are left out of the response.
    pub fn head_only(&self) -> (r: bool)
        ensures
            r == (self.only_metadata == Some(true)),
    {
        match self.only_metadata {
            Some(only) => only,
            None => false,
        }
    }

    /// The entry under which the query is registered: the first one, or none.
    pub fn entry_name(&self) -> (r: String)
        ensures
            match self.entries {
                Some(entries) => r@ == (if entries@.len() > 0 {
                    entries@[0]@
                } else {
                    Seq::empty()
                }),
                None => r@ == Seq::<char>::empty(),
            },
    {
        match &self.entries {
            Some(entries) => if entries.len() > 0 {
                entries[0].clone()
            } else {
                String::new()
            },
            None => String::new(),
        }
    }
}

/// How a query is named in messages.
pub fn query_path(bucket: &str, query_id: u64) -> (r: String)
    ensures
        r@ == bucket@ + "/"@ + decimal(query_id as nat),
{
    bucket.to_owned().concat("/").concat(decimal_text(query_id).as_str())
}

/// What the pump goes by.
#[derive(Debug, Clone, Copy, PartialEq, Eq)]
pub struct PumpSettings {
    /// Bytes are handed to the socket once there are this many.
    pub flush_size: usize,
    /// An idle connection gets a keepalive after this many ticks of the caller's clock.
    pub keepalive: u64,
    /// Whether payloads are left out.
    pub head_only: bool,
}

/// What follows a flush.
#[derive(Debug, Clone, Copy, PartialEq, Eq)]
pub enum Then {
    /// The next chunk of the record.
    KeepReading,
    /// The next record.
    NextRecord,
    /// A look at the clock: an idle connection may need a keepalive.
    IdleCheck,
    /// A new idle period: a keepalive went out.
    IdleReset,
}

/// What the pump waits for.
#[derive(Debug, Clone, Copy, PartialEq, Eq)]
pub enum Phase {
    /// Records of the query.
    Fetching,
    /// The next of the fetched records.
    Taking,
    /// The next chunk of a record.
    Reading,
    /// Leave to send what was written, before a flush.
    Charging(Then),
    /// The end of a flush.
    Sending(Then),
    /// Leave to send what was written, at the end of the query.
    Settling,
    /// The end of the query.
    Removing,
    /// The end of a flush that completes a record that broke off.
    Filling,
    /// The end of the last flush.
    Closing,
    /// Nothing.
    Done,
}

/// Why the pump stopped, and so which last frame the client gets.
pub enum Stop {
    Exhausted,
    Failed(ReductError),
    Disconnected,
}

pub enum StopView {
    Exhausted,
    Failed(ErrorView),
    Disconnected,
}

impl View for Stop {
    type V = StopView;

    open spec fn view(&self) -> StopView {
        match self {
            Stop::Exhausted => StopView::Exhausted,
            Stop::Failed(error) => StopView::Failed(error@),
            Stop::Disconnected => StopView::Disconnected,
        }
    }
}

/// What the caller reports.
pub enum PumpEvent {
    /// Whether records came in before the timeout.
    Fetched(bool),
    /// The next of the fetched records, or its error; none where all were taken.
    Record(Option<Result<RecordMeta, ReductError>>),
    /// The next chunk of the record, or its error; none at the end of the record.
    Chunk(Option<Result<Vec<u8>, ReductError>>),
    /// Whether the egress limit has room.
    Charged(Result<(), ReductError>),
    /// Whether the client is still there.
    Sent(bool),
    QueryRemoved,
}

pub enum EventView {
    Fetched(bool),
    Record(Option<Result<FrameView, ErrorView>>),
    Chunk(Option<Result<Seq<u8>, ErrorView>>),
    Charged(Result<(), ErrorView>),
    Sent(bool),
    QueryRemoved,
}

impl View for PumpEvent {
    type V = EventView;

    open spec fn view(&self) -> EventView {
        match self {
            PumpEvent::Fetched(any) => EventView::Fetched(*any),
            PumpEvent::Record(None) => EventView::Record(None),
            PumpEvent::Record(Some(Ok(meta))) => EventView::Record(Some(Ok(meta_frame(*meta, true)))),
            PumpEvent::Record(Some(Err(error))) => EventView::Record(Some(Err(error@))),
            PumpEvent::Chunk(None) => EventView::Chunk(None),
            PumpEvent::Chunk(Some(Ok(bytes))) => EventView::Chunk(Some(Ok(bytes@))),
            PumpEvent::Chunk(Some(Err(error))) => EventView::Chunk(Some(Err(error@))),
            PumpEvent::Charged(Ok(())) => EventView::Charged(Ok(())),
            PumpEvent::Charged(Err(error)) => EventView::Charged(Err(error@)),
            PumpEvent::Sent(sent) => EventView::Sent(*sent),
            PumpEvent::QueryRemoved => EventView::QueryRemoved,
        }
    }
}

/// What the caller is to do.
pub enum PumpAction {
    /// Fetch records, with a timeout.
    Fetch,
    /// Take the next of the fetched records.
    TakeRecord,
    /// Read the next chunk of the record that was taken last.
    ReadChunk,
    /// Charge payload bytes against the egress limit.
    Charge(u64),
    /// Hand bytes to the socket.
    Send(Bytes),
    /// Remove the query from the bucket.
    RemoveQuery,
    /// Nothing more.
    Finish,
}

pub enum ActionView {
    Fetch,
    TakeRecord,
    ReadChunk,
    Charge(u64),
    Send(Seq<u8>),
    RemoveQuery,
    Finish,
}

impl View for PumpAction {
    type V = ActionView;

    open spec fn view(&self) -> ActionView {
        match self {
            PumpAction::Fetch => ActionView::Fetch,
            PumpAction::TakeRecord => ActionView::TakeRecord,
            PumpAction::ReadChunk => ActionView::ReadChunk,
            PumpAction::Charge(bytes) => ActionView::Charge(*bytes),
            PumpAction::Send(bytes) => ActionView::Send(shared_bytes(*bytes)),
            PumpAction::RemoveQuery => ActionView::RemoveQuery,
            PumpAction::Finish => ActionView::Finish,
        }
    }
}

/// A pump: the writer, the bytes that were written and not sent, the payload bytes that were
/// announced and not charged, since when the connection is idle, and what the pump waits for.
///
/// A client that got the frame of a record waits for as many payload bytes as the frame
/// announces. So the pump knows how many bytes of the record are still to be written, how many the
/// client waited for after the last flush, and, while nothing of the record was sent, what was
/// held before it.
pub struct PumpView {
    pub settings: PumpSettings,
    pub encoder: EncoderView,
    pub buf: Seq<u8>,
    pub unbilled: u64,
    /// Payload bytes of the record that are still to be written.
    pub left: u64,
    /// Payload bytes that the client waited for after the last flush.
    pub owed: u64,
    /// The length of the buffer before the record, while nothing of it was sent.
    pub start: Option<usize>,
    pub idle_since: u64,
    pub phase: Phase,
    pub stop: Option<StopView>,
}

impl PumpView {
    pub open spec fn start(settings: PumpSettings, now: u64) -> PumpView {
        PumpView {
            settings,
            encoder: EncoderView::start(),
            buf: Seq::empty(),
            unbilled: 0,
            left: 0,
            owed: 0,
            start: None,
            idle_since: now,
            phase: Phase::Fetching,
            stop: None,
        }
    }

    /// What was held before the record is still held.
    pub open spec fn held_before(self) -> bool {
        self.start matches Some(held) ==> held <= self.buf.len()
    }

    /// With all that was written handed to the socket.
    pub open spec fn handed(self) -> PumpView {
        PumpView { buf: Seq::empty(), owed: self.left, start: None, ..self }
    }

    /// Without the record that broke off, if nothing of it was sent.
    pub open spec fn broken_off(self) -> PumpView {
        match self.start {
            Some(held) => PumpView {
                buf: self.buf.take(held as int),
                left: 0,
                start: None,
                ..self
            },
            None => self,
        }
    }

    /// Without all that is held but what the client waits for of a record.
    pub open spec fn cut(self) -> PumpView {
        let kept = if self.owed <= self.buf.len() {
            self.owed as int
        } else {
            self.buf.len() as int
        };
        PumpView {
            buf: self.buf.take(kept),
            left: (self.owed - kept) as u64,
            start: None,
            ..self
        }
    }

    pub open spec fn full(self) -> bool {
        self.buf.len() >= self.settings.flush_size
    }

    pub open spec fn idle(self, now: u64) -> bool {
        self.settings.keepalive == 0 || now - self.idle_since >= self.settings.keepalive
    }

    /// The frame of a record: payloads are left out where the settings say so.
    pub open spec fn frame(self, f: FrameView) -> FrameView {
        FrameView { with_payload: !self.settings.head_only, ..f }
    }
}

/// Whether an event is what the pump waits for.
pub open spec fn awaited(phase: Phase, event: EventView) -> bool {
    match phase {
        Phase::Fetching => event is Fetched,
        Phase::Taking => event is Record,
        Phase::Reading => event is Chunk,
        Phase::Charging(_) => event is Charged,
        Phase::Settling => event is Charged,
        Phase::Sending(_) => event is Sent,
        Phase::Filling => event is Sent,
        Phase::Closing => event is Sent,
        Phase::Removing => event is QueryRemoved,
        Phase::Done => false,
    }
}

/// Stops, and removes the query. At the end of a query, what was announced and not charged is
/// charged before. What a query that failed has left goes out with its error as it is.
pub open spec fn stop_with(m: PumpView, stop: StopView) -> (ActionView, PumpView) {
    if stop == StopView::Exhausted && m.unbilled > 0 {
        (
            ActionView::Charge(m.unbilled),
            PumpView { unbilled: 0, phase: Phase::Settling, stop: Some(stop), ..m },
        )
    } else {
        (
            ActionView::RemoveQuery,
            PumpView { phase: Phase::Removing, stop: Some(stop), ..m },
        )
    }
}

/// Stops because the egress limit refused: what it refused is dropped.
pub open spec fn refused(m: PumpView, error: ErrorView) -> (ActionView, PumpView) {
    stop_with(m.cut(), StopView::Failed(error))
}

/// Bytes in place of those that a record announced and that never came.
pub open spec fn filling(n: nat) -> Seq<u8> {
    Seq::new(n, |i: int| 0u8)
}

/// How many of them go to the socket next.
pub open spec fn fill_len(m: PumpView) -> nat {
    if m.left <= FILL_SIZE {
        m.left as nat
    } else {
        FILL_SIZE as nat
    }
}

/// Closes the stream: with the end of an exhausted query, or with the error of one that failed.
/// A record that broke off is completed first, so that the client finds the error behind it.
pub open spec fn close(m: PumpView) -> (ActionView, PumpView) {
    let closing = PumpView { buf: Seq::empty(), start: None, phase: Phase::Closing, ..m };
    match m.stop {
        Some(StopView::Exhausted) => (ActionView::Send(m.buf + seq![TAG_END]), closing),
        Some(StopView::Failed(error)) => if m.left > 0 {
            (
                ActionView::Send(m.buf + filling(fill_len(m))),
                PumpView { left: (m.left - fill_len(m)) as u64, phase: Phase::Filling, ..closing },
            )
        } else {
            (ActionView::Send(m.buf + error_frame(error)), closing)
        },
        _ => (ActionView::Finish, PumpView { phase: Phase::Done, ..m }),
    }
}

/// Goes on behind a flush. A connection that was idle for long gets a keepalive.
pub open spec fn go_on(m: PumpView, then: Then, now: u64) -> (ActionView, PumpView) {
    match then {
        Then::KeepReading => (ActionView::ReadChunk, PumpView { phase: Phase::Reading, ..m }),
        Then::NextRecord => (ActionView::TakeRecord, PumpView { phase: Phase::Taking, ..m }),
        Then::IdleReset => (
            ActionView::Fetch,
            PumpView { idle_since: now, phase: Phase::Fetching, ..m },
        ),
        Then::IdleCheck => if !m.idle(now) {
            (ActionView::Fetch, PumpView { phase: Phase::Fetching, ..m })
        } else if m.unbilled > 0 {
            (
                ActionView::Charge(m.unbilled),
                PumpView {
                    buf: m.buf + seq![TAG_KEEPALIVE],
                    unbilled: 0,
                    phase: Phase::Charging(Then::IdleReset),
                    ..m
                },
            )
        } else {
            (
                ActionView::Send(m.buf + seq![TAG_KEEPALIVE]),
                PumpView { phase: Phase::Sending(Then::IdleReset), ..m.handed() },
            )
        },
    }
}

/// Hands what was written to the socket, if anything was.
pub open spec fn send_then(m: PumpView, then: Then, now: u64) -> (ActionView, PumpView) {
    if m.buf.len() == 0 {
        go_on(m, then, now)
    } else {
        (
            ActionView::Send(m.buf),
            PumpView { phase: Phase::Sending(then), ..m.handed() },
        )
    }
}

/// Charges the payload bytes that were not charged yet, then hands what was written to the
/// socket.
pub open spec fn flush_then(m: PumpView, then: Then, now: u64) -> (ActionView, PumpView) {
    if m.unbilled > 0 {
        (
            ActionView::Charge(m.unbilled),
            PumpView { unbilled: 0, phase: Phase::Charging(then), ..m },
        )
    } else {
        send_then(m, then, now)
    }
}

/// Goes to the next record, with a flush where enough was written.
pub open spec fn end_record(m: PumpView, now: u64) -> (ActionView, PumpView) {
    if m.full() {
        flush_then(m, Then::NextRecord, now)
    } else {
        (ActionView::TakeRecord, PumpView { phase: Phase::Taking, ..m })
    }
}

/// What the pump does on an event that it waits for.
pub open spec fn pump_step(m: PumpView, now: u64, event: EventView) -> (ActionView, PumpView) {
    match event {
        EventView::Fetched(any) => if any {
            (
                ActionView::TakeRecord,
                PumpView { idle_since: now, phase: Phase::Taking, ..m },
            )
        } else if m.buf.len() > 0 {
            flush_then(m, Then::IdleCheck, now)
        } else {
            go_on(m, Then::IdleCheck, now)
        },
        EventView::Record(None) => (ActionView::Fetch, PumpView { phase: Phase::Fetching, ..m }),
        EventView::Record(Some(Err(error))) => if error.status == ErrorCode::NoContent {
            stop_with(m, StopView::Exhausted)
        } else {
            stop_with(m, StopView::Failed(error))
        },
        EventView::Record(Some(Ok(f))) => {
            let (encoder, bytes) = encode_frame(m.encoder, m.frame(f));
            let written = PumpView { encoder, buf: m.buf + bytes, ..m };
            if m.settings.head_only {
                end_record(written, now)
            } else {
                (
                    ActionView::ReadChunk,
                    PumpView {
                        unbilled: (m.unbilled + f.content_length) as u64,
                        left: f.content_length,
                        start: Some(m.buf.len() as usize),
                        phase: Phase::Reading,
                        ..written
                    },
                )
            }
        },
        EventView::Chunk(None) => end_record(PumpView { left: 0, start: None, ..m }, now),
        EventView::Chunk(Some(Err(error))) => stop_with(m.broken_off(), StopView::Failed(error)),
        EventView::Chunk(Some(Ok(bytes))) => {
            let left = if bytes.len() <= m.left {
                (m.left - bytes.len()) as u64
            } else {
                0
            };
            let written = PumpView { buf: m.buf + bytes, left, ..m };
            if written.full() {
                flush_then(written, Then::KeepReading, now)
            } else {
                (ActionView::ReadChunk, PumpView { phase: Phase::Reading, ..written })
            }
        },
        EventView::Charged(Ok(())) => match m.phase {
            Phase::Charging(then) => send_then(m, then, now),
            _ => (ActionView::RemoveQuery, PumpView { phase: Phase::Removing, ..m }),
        },
        EventView::Charged(Err(error)) => refused(m, error),
        EventView::Sent(sent) => match m.phase {
            Phase::Sending(then) => if sent {
                go_on(m, then, now)
            } else {
                stop_with(m, StopView::Disconnected)
            },
            Phase::Filling => if sent {
                close(m)
            } else {
                (ActionView::Finish, PumpView { phase: Phase::Done, ..m })
            },
            _ => (ActionView::Finish, PumpView { phase: Phase::Done, ..m }),
        },
        EventView::QueryRemoved => close(m),
    }
}

/// How many bytes closing the stream adds next.
pub open spec fn closing_len(m: PumpView) -> nat {
    match m.stop {
        Some(StopView::Failed(error)) => if m.left > 0 {
            fill_len(m)
        } else {
            error_frame(error).len()
        },
        _ => 1,
    }
}

/// Whether what an event adds to the buffer and to the bytes to be charged can be counted.
pub open spec fn countable(m: PumpView, event: EventView) -> bool {
    match event {
        EventView::Fetched(_) => m.buf.len() + 1 <= isize::MAX,
        EventView::Sent(_) => {
            &&& m.buf.len() + 1 <= isize::MAX
            &&& m.phase == Phase::Filling ==> m.buf.len() + closing_len(m) <= isize::MAX
        },
        EventView::Charged(_) => m.buf.len() + 1 <= isize::MAX,
        EventView::Record(Some(Ok(f))) => {
            &&& m.buf.len() + encode_frame(m.encoder, m.frame(f)).1.len() + 1 <= isize::MAX
            &&& m.unbilled + f.content_length <= u64::MAX
        },
        EventView::Chunk(Some(Ok(bytes))) => m.buf.len() + bytes.len() + 1 <= isize::MAX,
        EventView::QueryRemoved => m.buf.len() + closing_len(m) <= isize::MAX,
        _ => m.buf.len() + 1 <= isize::MAX,
    }
}

/// Drains a query into a response body until it is exhausted, fails, or the client goes away,
/// then closes the stream with a last frame.
pub struct Pump {
    settings: PumpSettings,
    encoder: StreamEncoder,
    buf: BytesMut,
    unbilled: u64,
    left: u64,
    owed: u64,
    start: Option<usize>,
    idle_since: u64,
    phase: Phase,
    stop: Option<Stop>,
}

impl View for Pump {
    type V = PumpView;

    closed spec fn view(&self) -> PumpView {
        PumpView {
            settings: self.settings,
            encoder: self.encoder@,
            buf: buffer_bytes(self.buf),
            unbilled: self.unbilled,
            left: self.left,
            owed: self.owed,
            start: self.start,
            idle_since: self.idle_since,
            phase: self.phase,
            stop: match self.stop {
                Some(stop) => Some(stop@),
                None => None,
            },
        }
    }
}

impl Pump {
    /// Starts at a time of the caller's clock. The first thing to do is to fetch records.
    pub fn new(settings: PumpSettings, now: u64) -> (r: Pump)
        ensures
            r@ == PumpView::start(settings, now),
            r@.encoder.wf(),
            r@.held_before(),
    {
        Pump {
            settings,
            encoder: StreamEncoder::new(),
            buf: BytesMut::new(),
            unbilled: 0,
            left: 0,
            owed: 0,
            start: None,
            idle_since: now,
            phase: Phase::Fetching,
            stop: None,
        }
    }

    /// What the pump waits for.
    pub fn phase(&self) -> (r: Phase)
        ensures
            r == self@.phase,
    {
        self.phase
    }

    /// The number of bytes that were written and not sent.
    pub fn buffered(&self) -> (r: usize)
        ensures
            r == self@.buf.len(),
    {
        self.buf.len()
    }

    /// Whether the payload bytes of one more record can be counted.
    pub fn can_bill(&self, content_length: u64) -> (r: bool)
        ensures
            r == (self@.unbilled + content_length <= u64::MAX),
    {
        content_length <= u64::MAX - self.unbilled
    }

    fn stop_with(&mut self, stop: Stop) -> (r: PumpAction)
        ensures
            (r@, final(self)@) == stop_with(old(self)@, stop@),
    {
        let exhausted: bool = match &stop {
            Stop::Exhausted => true,
            _ => false,
        };
        self.stop = Some(stop);
        if exhausted && self.unbilled > 0 {
            let billed: u64 = self.unbilled;
            self.unbilled = 0;
            self.phase = Phase::Settling;
            PumpAction::Charge(billed)
        } else {
            self.phase = Phase::Removing;
            PumpAction::RemoveQuery
        }
    }

    /// Keeps the first bytes of the buffer.
    fn keep(&mut self, count: usize)
        requires
            count <= old(self)@.buf.len(),
        ensures
            final(self)@ == (PumpView { buf: old(self)@.buf.take(count as int), ..old(self)@ }),
    {
        let front = self.buf.split_to(count);
        self.buf = front;
    }

    fn break_off(&mut self)
        requires
            old(self)@.held_before(),
        ensures
            final(self)@ == old(self)@.broken_off(),
    {
        if let Some(held) = self.start {
            self.keep(held);
            self.left = 0;
            self.start = None;
        }
    }

    fn refuse(&mut self, error: ReductError) -> (r: PumpAction)
        ensures
            (r@, final(self)@) == refused(old(self)@, error@),
    {
        let held: usize = self.buf.len();
        let kept: usize = if self.owed <= held as u64 {
            self.owed as usize
        } else {
            held
        };
        self.keep(kept);
        self.left = self.owed - kept as u64;
        self.start = None;
        self.stop_with(Stop::Failed(error))
    }

    fn take_buffer(&mut self) -> (r: Bytes)
        ensures
            shared_bytes(r) == old(self)@.buf,
            final(self)@ == (PumpView { buf: Seq::empty(), ..old(self)@ }),
    {
        self.buf.split().freeze()
    }

    fn hand_over(&mut self) -> (r: Bytes)
        ensures
            shared_bytes(r) == old(self)@.buf,
            final(self)@ == old(self)@.handed(),
    {
        self.owed = self.left;
        self.start = None;
        self.take_buffer()
    }

    fn close(&mut self) -> (r: PumpAction)
        requires
            old(self)@.buf.len() + closing_len(old(self)@) <= isize::MAX,
        ensures
            (r@, final(self)@) == close(old(self)@),
    {
        match &self.stop {
            Some(Stop::Exhausted) => {
                self.encoder.encode_end(&mut self.buf);
            },
            Some(Stop::Failed(error)) => {
                if self.left > 0 {
                    let count: usize = if self.left <= FILL_SIZE as u64 {
                        self.left as usize
                    } else {
                        FILL_SIZE
                    };
                    let bytes: Vec<u8> = vec![0u8; count];
                    put_slice(&mut self.buf, bytes.as_slice());
                    assert(bytes@ =~= filling(count as nat));
                    self.left = self.left - count as u64;
                    self.start = None;
                    self.phase = Phase::Filling;
                    return PumpAction::Send(self.take_buffer());
                }
                self.encoder.encode_error(&mut self.buf, error);
            },
            _ => {
                self.phase = Phase::Done;
                return PumpAction::Finish;
            },
        }
        self.start = None;
        self.phase = Phase::Closing;
        PumpAction::Send(self.take_buffer())
    }

    fn go_on(&mut self, then: Then, now: u64) -> (r: PumpAction)
        requires
            old(self)@.buf.len() + 1 <= isize::MAX,
        ensures
            (r@, final(self)@) == go_on(old(self)@, then, now),
    {
        match then {
            Then::KeepReading => {
                self.phase = Phase::Reading;
                PumpAction::ReadChunk
            },
            Then::NextRecord => {
                self.phase = Phase::Taking;
                PumpAction::TakeRecord
            },
            Then::IdleReset => {
                self.idle_since = now;
                self.phase = Phase::Fetching;
                PumpAction::Fetch
            },
            Then::IdleCheck => {
                let elapsed: u64 = if now >= self.idle_since {
                    now - self.idle_since
                } else {
                    0
                };
                if elapsed < self.settings.keepalive {
                    self.phase = Phase::Fetching;
                    return PumpAction::Fetch;
                }
                self.encoder.encode_keepalive(&mut self.buf);
                if self.unbilled > 0 {
                    let billed: u64 = self.unbilled;
                    self.unbilled = 0;
                    self.phase = Phase::Charging(Then::IdleReset);
                    PumpAction::Charge(billed)
                } else {
                    self.phase = Phase::Sending(Then::IdleReset);
                    PumpAction::Send(self.hand_over())
                }
            },
        }
    }

    fn send_then(&mut self, then: Then, now: u64) -> (r: PumpAction)
        requires
            old(self)@.buf.len() + 1 <= isize::MAX,
        ensures
            (r@, final(self)@) == send_then(old(self)@, then, now),
    {
        if self.buf.is_empty() {
            self.go_on(then, now)
        } else {
            self.phase = Phase::Sending(then);
            PumpAction::Send(self.hand_over())
        }
    }

    /// Charges the payload bytes accumulated so far against the egress limit, then hands the
    /// buffer to the socket.
    fn flush_then(&mut self, then: Then, now: u64) -> (r: PumpAction)
        requires
            old(self)@.buf.len() + 1 <= isize::MAX,
        ensures
            (r@, final(self)@) == flush_then(old(self)@, then, now),
    {
        if self.unbilled > 0 {
            let billed: u64 = self.unbilled;
            self.unbilled = 0;
            self.phase = Phase::Charging(then);
            PumpAction::Charge(billed)
        } else {
            self.send_then(then, now)
        }
    }

    fn end_record(&mut self, now: u64) -> (r: PumpAction)
        requires
            old(self)@.buf.len() + 1 <= isize::MAX,
        ensures
            (r@, final(self)@) == end_record(old(self)@, now),
    {
        if self.buf.len() >= self.settings.flush_size {
            self.flush_then(Then::NextRecord, now)
        } else {
            self.phase = Phase::Taking;
            PumpAction::TakeRecord
        }
    }

    fn take_record(&mut self, meta: RecordMeta, now: u64) -> (r: PumpAction)
        requires
            old(self)@.encoder.wf(),
            countable(old(self)@, EventView::Record(Some(Ok(meta_frame(meta, true))))),
        ensures
            final(self)@.encoder.wf(),
            (r@, final(self)@) == pump_step(
                old(self)@,
                now,
                EventView::Record(Some(Ok(meta_frame(meta, true)))),
            ),
    {
        let held: usize = self.buf.len();
        self.encoder.encode_record_meta(&mut self.buf, &meta, !self.settings.head_only);
        if self.settings.head_only {
            self.end_record(now)
        } else {
            self.start = Some(held);
            self.left = meta.content_length;
            self.unbilled = self.unbilled + meta.content_length;
            self.phase = Phase::Reading;
            PumpAction::ReadChunk
        }
    }

    /// What to do on an event, at a time of the caller's clock.
    pub fn step(&mut self, now: u64, event: PumpEvent) -> (r: PumpAction)
        requires
            old(self)@.encoder.wf(),
            old(self)@.held_before(),
            awaited(old(self)@.phase, event@),
            countable(old(self)@, event@),
        ensures
            final(self)@.encoder.wf(),
            final(self)@.held_before(),
            (r@, final(self)@) == pump_step(old(self)@, now, event@),
    {
        match event {
            PumpEvent::Fetched(any) => {
                if any {
                    self.idle_since = now;
                    self.phase = Phase::Taking;
                    PumpAction::TakeRecord
                } else if !self.buf.is_empty() {
                    self.flush_then(Then::IdleCheck, now)
                } else {
                    self.go_on(Then::IdleCheck, now)
                }
            },
            PumpEvent::Record(None) => {
                self.phase = Phase::Fetching;
                PumpAction::Fetch
            },
            PumpEvent::Record(Some(Err(error))) => {
                if error.status == ErrorCode::NoContent {
                    self.stop_with(Stop::Exhausted)
                } else {
                    self.stop_with(Stop::Failed(error))
                }
            },
            PumpEvent::Record(Some(Ok(meta))) => self.take_record(meta, now),
            PumpEvent::Chunk(None) => {
                self.left = 0;
                self.start = None;
                self.end_record(now)
            },
            PumpEvent::Chunk(Some(Err(error))) => {
                self.break_off();
                self.stop_with(Stop::Failed(error))
            },
            PumpEvent::Chunk(Some(Ok(bytes))) => {
                put_slice(&mut self.buf, bytes.as_slice());
                let count: u64 = bytes.len() as u64;
                self.left = if count <= self.left {
                    self.left - count
                } else {
                    0
                };
                if self.buf.len() >= self.settings.flush_size {
                    self.flush_then(Then::KeepReading, now)
                } else {
                    self.phase = Phase::Reading;
                    PumpAction::ReadChunk
                }
            },
            PumpEvent::Charged(Ok(())) => match self.phase {
                Phase::Charging(then) => self.send_then(then, now),
                _ => {
                    self.phase = Phase::Removing;
                    PumpAction::RemoveQuery
                },
            },
            PumpEvent::Charged(Err(error)) => self.refuse(error),
            PumpEvent::Sent(sent) => match self.phase {
                Phase::Sending(then) => if sent {
                    self.go_on(then, now)
                } else {
                    self.stop_with(Stop::Disconnected)
                },
                Phase::Filling => if sent {
                    self.close()
                } else {
                    self.phase = Phase::Done;
                    PumpAction::Finish
                },
                _ => {
                    self.phase = Phase::Done;
                    PumpAction::Finish
                },
            },
            PumpEvent::QueryRemoved => self.close(),
        }
    }
}

} // verus!
