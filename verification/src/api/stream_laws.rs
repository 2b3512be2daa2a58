//! What holds of a whole response body: it is the stream of the records that were taken, it ends
//! with the reason why it ends, and while the query goes on no payload leaves before it was charged.

use crate::api::stream::{
    awaited, close, countable, end_record, fill_len, filling, flush_then, go_on, pump_step,
    send_then, ActionView, EventView, Phase, PumpSettings, PumpView, StopView, Then,
};
use crate::batch::decoder::StreamView;
use crate::batch::encoder::{
    encode_frame, error_frame, EncoderView, FrameView, TAG_END, TAG_KEEPALIVE,
};
use crate::batch::stream_laws::{
    all_sendable, drain_chunks, encode_stream, ending_bytes, joined, law_read_back_in_chunks,
    says_all, sendable, short, short_frame, stream_events, Ending, Event, Part,
};
use crate::error::{ErrorCode, ErrorView};
use vstd::prelude::*;

verus! {

/// The writer and the bytes after one part of a stream.
#[verifier::opaque]
pub open spec fn part_written(e: EncoderView, part: Part) -> (EncoderView, Seq<u8>) {
    match part {
        Part::Keepalive => (e, seq![TAG_KEEPALIVE]),
        Part::Record(f, payload) => (encode_frame(e, f).0, encode_frame(e, f).1 + payload),
    }
}

/// The writer and the bytes after some parts of a stream.
pub open spec fn written(e: EncoderView, parts: Seq<Part>) -> (EncoderView, Seq<u8>)
    decreases parts.len(),
{
    if parts.len() == 0 {
        (e, Seq::empty())
    } else {
        let (e1, bytes) = written(e, parts.drop_last());
        (part_written(e1, parts.last()).0, bytes + part_written(e1, parts.last()).1)
    }
}

proof fn lemma_written_front(e: EncoderView, parts: Seq<Part>)
    requires
        parts.len() > 0,
    ensures
        ({
            let first = part_written(e, parts[0]);
            let rest = written(first.0, parts.skip(1));
            written(e, parts) == (rest.0, first.1 + rest.1)
        }),
    decreases parts.len(),
{
    let first = part_written(e, parts[0]);
    let rest = written(first.0, parts.skip(1));
    if parts.len() == 1 {
        assert(parts.drop_last() =~= Seq::<Part>::empty());
        assert(parts.skip(1) =~= Seq::<Part>::empty());
        assert(written(e, parts.drop_last()) == (e, Seq::<u8>::empty()));
        assert(rest == (first.0, Seq::<u8>::empty()));
        assert(parts.last() == parts[0]);
        assert(written(e, parts).1 =~= first.1 + rest.1);
    } else {
        let front = parts.drop_last();
        lemma_written_front(e, front);
        assert(front.skip(1) =~= parts.skip(1).drop_last());
        assert(written(e, parts).1 =~= first.1 + rest.1);
    }
}

proof fn lemma_stream_is_written(e: EncoderView, parts: Seq<Part>, ending: Ending)
    ensures
        encode_stream(e, parts, ending) == written(e, parts).1 + ending_bytes(ending),
    decreases parts.len(),
{
    if parts.len() == 0 {
        assert(Seq::<u8>::empty() + ending_bytes(ending) =~= ending_bytes(ending));
    } else {
        let first = part_written(e, parts[0]);
        let rest = encode_stream(first.0, parts.skip(1), ending);
        lemma_written_front(e, parts);
        lemma_stream_is_written(first.0, parts.skip(1), ending);
        assert(encode_stream(e, parts, ending) == first.1 + rest) by {
            reveal(part_written);
            if let Part::Record(f, payload) = parts[0] {
                let frame = encode_frame(e, f).1;
                assert(frame + (payload + rest) =~= frame + payload + rest);
            }
        }
        assert(first.1 + rest =~= written(e, parts).1 + ending_bytes(ending));
    }
}

proof fn lemma_written_push(parts: Seq<Part>, part: Part)
    ensures
        ({
            let (e, bytes) = written(EncoderView::start(), parts);
            written(EncoderView::start(), parts.push(part)) == (
                part_written(e, part).0,
                bytes + part_written(e, part).1,
            )
        }),
{
    assert(parts.push(part).drop_last() =~= parts);
}

/// What is written of some parts is what is written first of all of them.
proof fn lemma_written_take(parts: Seq<Part>, count: int)
    requires
        0 <= count <= parts.len(),
    ensures
        ({
            let whole = written(EncoderView::start(), parts).1;
            let first = written(EncoderView::start(), parts.take(count)).1;
            first.len() <= whole.len() && whole.take(first.len() as int) == first
        }),
    decreases parts.len() - count,
{
    let whole = written(EncoderView::start(), parts).1;
    let first = written(EncoderView::start(), parts.take(count)).1;
    if count == parts.len() {
        assert(parts.take(count) =~= parts);
        assert(whole.take(first.len() as int) =~= first);
    } else {
        let more = parts.take(count + 1);
        lemma_written_take(parts, count + 1);
        assert(more.drop_last() =~= parts.take(count));
        assert(whole.take(first.len() as int) =~= first) by {
            let next = written(EncoderView::start(), more).1;
            assert(next == first + part_written(
                written(EncoderView::start(), parts.take(count)).0,
                more.last(),
            ).1);
            assert(whole.take(next.len() as int).take(first.len() as int) =~= whole.take(
                first.len() as int,
            ));
            assert(next.take(first.len() as int) =~= first);
        }
    }
}

/// The payload bytes that a frame announces.
pub open spec fn payload_of(f: FrameView) -> nat {
    if f.with_payload {
        f.content_length as nat
    } else {
        0
    }
}

/// The payload bytes that a part announces.
pub open spec fn announced_by(part: Part) -> nat {
    match part {
        Part::Keepalive => 0,
        Part::Record(f, _) => payload_of(f),
    }
}

/// The payload bytes that some parts announce.
pub open spec fn announced(parts: Seq<Part>) -> nat
    decreases parts.len(),
{
    if parts.len() == 0 {
        0
    } else {
        announced(parts.drop_last()) + announced_by(parts.last())
    }
}

proof fn lemma_announced_push(parts: Seq<Part>, part: Part)
    ensures
        announced(parts.push(part)) == announced(parts) + announced_by(part),
{
    assert(parts.push(part).drop_last() =~= parts);
}

/// Whether the payload of a part has the length that its frame announces.
pub open spec fn complete(part: Part) -> bool {
    part matches Part::Record(f, payload) ==> payload.len() == payload_of(f)
}

/// Whether all strings of a part are short enough for a reader.
pub open spec fn readable(part: Part) -> bool {
    part matches Part::Record(f, _) ==> short_frame(f)
}

/// A pump with what has happened so far.
pub struct Traced {
    pub pump: PumpView,
    /// The bytes handed to the socket.
    pub sent: Seq<u8>,
    /// The parts that were written whole.
    pub parts: Seq<Part>,
    /// The record that is being written, with as much of its payload as was read.
    pub current: Option<(FrameView, Seq<u8>)>,
    /// How many parts were whole at the last flush.
    pub flushed: nat,
    /// Whether a record was being written at the last flush.
    pub within: bool,
    /// The payload bytes that the egress limit let pass.
    pub charged: nat,
    /// The payload bytes that the egress limit is being asked for.
    pub asked: nat,
}

/// Whether the pump is inside a record.
pub open spec fn in_record(phase: Phase) -> bool {
    match phase {
        Phase::Reading => true,
        Phase::Charging(Then::KeepReading) => true,
        Phase::Sending(Then::KeepReading) => true,
        _ => false,
    }
}

/// Whether the pump still works on the records of the query.
pub open spec fn working(phase: Phase) -> bool {
    match phase {
        Phase::Fetching => true,
        Phase::Taking => true,
        Phase::Reading => true,
        Phase::Charging(_) => true,
        Phase::Sending(_) => true,
        _ => false,
    }
}

/// Whether the last thing written was a keepalive.
pub open spec fn after_keepalive(phase: Phase) -> bool {
    phase == Phase::Charging(Then::IdleReset) || phase == Phase::Sending(Then::IdleReset)
}

/// What an action hands to the socket.
pub open spec fn sent_by(action: ActionView) -> Seq<u8> {
    match action {
        ActionView::Send(bytes) => bytes,
        _ => Seq::empty(),
    }
}

/// What an action asks the egress limit for.
pub open spec fn asked_by(action: ActionView) -> nat {
    match action {
        ActionView::Charge(bytes) => bytes as nat,
        _ => 0,
    }
}

impl Traced {
    pub open spec fn start(settings: PumpSettings, now: u64) -> Traced {
        Traced {
            pump: PumpView::start(settings, now),
            sent: Seq::empty(),
            parts: Seq::empty(),
            current: None,
            flushed: 0,
            within: false,
            charged: 0,
            asked: 0,
        }
    }

    /// The parts of which the client has got anything. The last of them is completed.
    pub open spec fn delivered(self) -> Seq<Part> {
        if !self.within {
            self.parts.take(self.flushed as int)
        } else if self.flushed < self.parts.len() {
            self.parts.take(self.flushed + 1int)
        } else {
            match self.current {
                Some((f, payload)) => self.parts.push(self.completed(f, payload)),
                None => self.parts,
            }
        }
    }

    /// The record that is being written, with bytes in place of those that did not come.
    pub open spec fn completed(self, f: FrameView, payload: Seq<u8>) -> Part {
        Part::Record(f, payload + filling(self.pump.left as nat))
    }

    /// Parts and current record after an event. A record that breaks off before anything of it
    /// was sent leaves no trace. What the egress limit refuses is dropped.
    pub open spec fn parts_after(self, event: EventView, next: PumpView) -> (
        Seq<Part>,
        Option<(FrameView, Seq<u8>)>,
    ) {
        match event {
            EventView::Record(Some(Ok(f))) => {
                let frame = self.pump.frame(f);
                if self.pump.settings.head_only {
                    (self.parts.push(Part::Record(frame, Seq::empty())), None)
                } else {
                    (self.parts, Some((frame, Seq::empty())))
                }
            },
            EventView::Chunk(Some(Ok(bytes))) => match self.current {
                Some((f, payload)) => (self.parts, Some((f, payload + bytes))),
                None => (self.parts, None),
            },
            EventView::Chunk(None) => match self.current {
                Some((f, payload)) => (self.parts.push(Part::Record(f, payload)), None),
                None => (self.parts, None),
            },
            EventView::Chunk(Some(Err(_))) => match self.current {
                Some((f, payload)) => if self.pump.start is Some {
                    (self.parts, None)
                } else {
                    (self.parts.push(self.completed(f, payload)), None)
                },
                None => (self.parts, None),
            },
            EventView::Charged(Err(_)) => (self.delivered(), None),
            _ => if after_keepalive(next.phase) && !after_keepalive(self.pump.phase) {
                (self.parts.push(Part::Keepalive), self.current)
            } else {
                (self.parts, self.current)
            },
        }
    }

    /// With what an action does, and the pump behind it.
    pub open spec fn moved(
        self,
        action: ActionView,
        next: PumpView,
        parts: Seq<Part>,
        current: Option<(FrameView, Seq<u8>)>,
    ) -> Traced {
        Traced {
            pump: next,
            sent: self.sent + sent_by(action),
            parts,
            current,
            flushed: if next.phase is Sending && action is Send {
                parts.len()
            } else {
                self.flushed
            },
            within: if next.phase is Sending && action is Send {
                current is Some
            } else {
                self.within
            },
            charged: self.charged,
            asked: asked_by(action),
        }
    }

    /// With the payload bytes charged that the egress limit was asked for.
    pub open spec fn paid(self) -> Traced {
        Traced { charged: self.charged + self.asked, asked: 0, ..self }
    }

    pub open spec fn step(self, now: u64, event: EventView) -> Traced {
        let (action, next) = pump_step(self.pump, now, event);
        let (parts, current) = self.parts_after(event, next);
        let before = if event is Charged && event->Charged_0 is Ok {
            self.paid()
        } else {
            self
        };
        before.moved(action, next, parts, current)
    }

    /// The payload bytes that all records announce that were begun and not dropped.
    pub open spec fn announced(self) -> nat {
        announced(self.parts) + match self.current {
            Some((f, _)) => payload_of(f),
            None => 0,
        }
    }

    /// The writer and the bytes after all that was begun.
    pub open spec fn line(self) -> (EncoderView, Seq<u8>) {
        let (e, bytes) = written(EncoderView::start(), self.parts);
        match self.current {
            None => (e, bytes),
            Some((f, payload)) => {
                let last = part_written(e, Part::Record(f, payload));
                (last.0, bytes + last.1)
            },
        }
    }

    /// Whether the client has got a part of the record that is being written.
    pub open spec fn partly_sent(self) -> bool {
        self.within && self.flushed == self.parts.len()
    }

    /// What the client has got is charged.
    pub open spec fn holds_flushed(self) -> bool {
        &&& self.flushed <= self.parts.len()
        &&& announced(self.delivered()) <= self.charged
    }

    /// While the pump works: what was sent and what is held are, one behind the other, the stream
    /// of what was begun; what was begun is charged or to be charged.
    pub open spec fn holds_stream(self) -> bool {
        &&& self.pump.stop is None
        &&& self.pump.encoder == self.line().0
        &&& self.sent + self.pump.buf == self.line().1
        &&& self.asked == 0
        &&& self.announced() == self.charged + self.pump.unbilled
        &&& self.pump.settings.head_only ==> self.pump.unbilled == 0
        &&& self.holds_flushed()
        &&& self.pump.start matches Some(held) ==> {
            &&& self.current is Some
            &&& !self.partly_sent()
            &&& held < self.pump.buf.len()
            &&& self.sent.len() + held == written(EncoderView::start(), self.parts).1.len()
        }
        &&& self.pump.start is None && self.current is Some ==> self.partly_sent()
        &&& self.current is None ==> {
            &&& self.pump.start is None
            &&& self.pump.left == 0
            &&& !self.partly_sent()
        }
    }

    /// With what the egress limit was asked for not charged.
    pub open spec fn unpaid(self) -> Traced {
        Traced {
            pump: PumpView { unbilled: (self.pump.unbilled + self.asked) as u64, ..self.pump },
            asked: 0,
            ..self
        }
    }

    /// What holds of a pump and of what it has done, whatever happens.
    pub open spec fn inv(self) -> bool {
        if self.pump.stop == Some(StopView::Disconnected) {
            self.pump.phase == Phase::Removing || self.pump.phase == Phase::Done
        } else if working(self.pump.phase) {
            &&& self.pump.unbilled + self.asked <= u64::MAX
            &&& self.unpaid().holds_stream()
            &&& self.current is Some <==> in_record(self.pump.phase)
            &&& self.pump.phase is Charging || self.pump.phase is Sending ==> self.pump.unbilled
                == 0
            &&& !(self.pump.phase is Charging) ==> self.asked == 0
        } else {
            &&& self.pump.stop is Some
            &&& self.pump.phase != Phase::Done ==> {
                &&& self.current is None
                &&& announced(self.parts) <= self.charged + self.pump.unbilled + self.asked
                &&& self.pump.phase != Phase::Settling ==> self.asked == 0
            }
            &&& self.pump.phase == Phase::Settling ==> {
                &&& self.pump.stop == Some(StopView::Exhausted)
                &&& self.holds_flushed()
                &&& !self.partly_sent()
            }
            &&& self.pump.phase == Phase::Filling ==> self.pump.stop->0 is Failed
            &&& self.pump.stop == Some(StopView::Exhausted) ==> {
                &&& self.pump.left == 0
                &&& self.pump.unbilled == 0
                &&& announced(self.parts) == self.charged + self.asked
                &&& self.pump.phase == Phase::Settling || self.pump.phase == Phase::Removing
                    ==> self.sent + self.pump.buf == self.line().1
                &&& self.pump.phase == Phase::Closing ==> self.sent == self.line().1
                    + seq![TAG_END]
            }
        }
    }

    /// What the client waits for is the rest of the record of which it got a part.
    pub open spec fn holds_owed(self) -> bool {
        if !self.within {
            &&& self.pump.owed == 0
            &&& self.sent.len() == written(
                EncoderView::start(),
                self.parts.take(self.flushed as int),
            ).1.len()
        } else if self.flushed < self.parts.len() {
            self.sent.len() + self.pump.owed == written(
                EncoderView::start(),
                self.parts.take(self.flushed + 1int),
            ).1.len()
        } else {
            self.sent.len() + self.pump.owed == self.line().1.len() + self.pump.left
        }
    }

    /// What is left of the record is what its frame announces and was not read.
    pub open spec fn holds_left(self) -> bool {
        self.current matches Some((f, payload)) ==> f.with_payload && payload.len()
            + self.pump.left == f.content_length
    }

    pub open spec fn complete_parts(self) -> bool {
        forall|i: int| 0 <= i < self.parts.len() ==> complete(#[trigger] self.parts[i])
    }

    /// What holds besides, as long as every record has the length that it announces.
    pub open spec fn fits(self) -> bool {
        self.pump.stop != Some(StopView::Disconnected) ==> {
            &&& self.complete_parts()
            &&& working(self.pump.phase) ==> self.holds_owed() && self.holds_left()
            &&& self.pump.phase == Phase::Settling ==> self.holds_owed()
            &&& match self.pump.stop {
                Some(StopView::Failed(error)) => match self.pump.phase {
                    Phase::Closing => self.sent == self.line().1 + error_frame(error),
                    Phase::Done => true,
                    _ => self.sent + self.pump.buf + filling(self.pump.left as nat)
                        == self.line().1,
                },
                _ => true,
            }
        }
    }
}

/// Whether a record goes on and ends as its frame announces: no chunk is longer than what is left
/// of the record, and nothing is left at its end.
pub open spec fn as_announced(m: PumpView, event: EventView) -> bool {
    match event {
        EventView::Chunk(Some(Ok(bytes))) => bytes.len() <= m.left,
        EventView::Chunk(None) => m.left == 0,
        _ => true,
    }
}

/// A new pump has written nothing.
pub proof fn law_pump_starts_empty(settings: PumpSettings, now: u64)
    ensures
        Traced::start(settings, now).inv(),
        Traced::start(settings, now).fits(),
{
    assert(Seq::<u8>::empty() + Seq::<u8>::empty() =~= Seq::<u8>::empty());
    assert(Seq::<Part>::empty().take(0) =~= Seq::<Part>::empty());
}

/// What a pump does between two events: it hands what it holds to the socket, asks the egress
/// limit, or goes on. It may add some bytes before.
spec fn moves(m: PumpView, added: Seq<u8>, action: ActionView, next: PumpView) -> bool {
    &&& sent_by(action) + next.buf == m.buf + added
    &&& next.settings == m.settings
    &&& next.encoder == m.encoder
    &&& next.left == m.left
    &&& next.stop == m.stop
    &&& match action {
        ActionView::Send(_) => {
            &&& next.phase is Sending
            &&& next.buf.len() == 0
            &&& next.owed == m.left
            &&& next.start is None
            &&& next.unbilled == 0
            &&& m.unbilled == 0
        },
        ActionView::Charge(bytes) => {
            &&& next.phase is Charging
            &&& bytes == m.unbilled
            &&& next.unbilled == 0
            &&& next.owed == m.owed
            &&& next.start == m.start
        },
        _ => {
            &&& next.phase == Phase::Fetching || next.phase == Phase::Taking || next.phase
                == Phase::Reading
            &&& next.owed == m.owed
            &&& next.start == m.start
            &&& next.unbilled == m.unbilled
        },
    }
}

spec fn keepalive_if(added: bool) -> Seq<u8> {
    if added {
        seq![TAG_KEEPALIVE]
    } else {
        Seq::empty()
    }
}

proof fn lemma_empty_ends(s: Seq<u8>)
    ensures
        s + Seq::<u8>::empty() == s,
        Seq::<u8>::empty() + s == s,
{
    assert(s + Seq::<u8>::empty() =~= s);
    assert(Seq::<u8>::empty() + s =~= s);
}

proof fn lemma_go_on_moves(m: PumpView, then: Then, now: u64)
    ensures
        ({
            let (action, next) = go_on(m, then, now);
            let added = then == Then::IdleCheck && m.idle(now);
            &&& moves(m, keepalive_if(added), action, next)
            &&& after_keepalive(next.phase) == added
            &&& in_record(next.phase) == (then == Then::KeepReading)
        }),
{
    lemma_empty_ends(m.buf);
    lemma_empty_ends(m.buf + seq![TAG_KEEPALIVE]);
}

proof fn lemma_send_moves(m: PumpView, then: Then, now: u64)
    requires
        m.unbilled == 0,
    ensures
        ({
            let (action, next) = send_then(m, then, now);
            let added = m.buf.len() == 0 && then == Then::IdleCheck && m.idle(now);
            &&& moves(m, keepalive_if(added), action, next)
            &&& after_keepalive(next.phase) == (added || (then == Then::IdleReset && m.buf.len()
                > 0))
            &&& in_record(next.phase) == (then == Then::KeepReading)
            &&& m.buf.len() > 0 ==> action is Send
        }),
{
    lemma_empty_ends(m.buf);
    lemma_go_on_moves(m, then, now);
}

proof fn lemma_flush_moves(m: PumpView, then: Then, now: u64)
    requires
        m.buf.len() > 0 || then != Then::IdleCheck,
        then != Then::IdleReset,
    ensures
        ({
            let (action, next) = flush_then(m, then, now);
            &&& moves(m, Seq::empty(), action, next)
            &&& !after_keepalive(next.phase)
            &&& in_record(next.phase) == (then == Then::KeepReading)
        }),
{
    lemma_empty_ends(m.buf);
    if m.unbilled == 0 {
        lemma_send_moves(m, then, now);
    }
}

/// The end of a record moves bytes at most.
proof fn lemma_end_record_moves(m: PumpView, now: u64)
    ensures
        ({
            let (action, next) = end_record(m, now);
            &&& moves(m, Seq::empty(), action, next)
            &&& !after_keepalive(next.phase)
            &&& !in_record(next.phase)
        }),
{
    lemma_empty_ends(m.buf);
    lemma_flush_moves(m, Then::NextRecord, now);
}

proof fn lemma_part_keepalive(e: EncoderView)
    ensures
        part_written(e, Part::Keepalive) == (e, seq![TAG_KEEPALIVE]),
{
    reveal(part_written);
}

proof fn lemma_part_record(e: EncoderView, f: FrameView)
    ensures
        part_written(e, Part::Record(f, Seq::empty())) == encode_frame(e, f),
{
    reveal(part_written);
    assert(encode_frame(e, f).1 + Seq::<u8>::empty() =~= encode_frame(e, f).1);
}

proof fn lemma_part_grows(e: EncoderView, f: FrameView, payload: Seq<u8>, bytes: Seq<u8>)
    ensures
        ({
            let before = part_written(e, Part::Record(f, payload));
            part_written(e, Part::Record(f, payload + bytes)) == (before.0, before.1 + bytes)
        }),
{
    reveal(part_written);
    assert(encode_frame(e, f).1 + (payload + bytes) =~= encode_frame(e, f).1 + payload + bytes);
}

/// Bytes that move on keep their place behind what was sent.
proof fn lemma_moved(sent: Seq<u8>, out: Seq<u8>, left: Seq<u8>, held: Seq<u8>, added: Seq<u8>)
    requires
        out + left == held + added,
    ensures
        sent + out + left == sent + held + added,
{
    assert(sent + out + left =~= sent + (out + left));
    assert(sent + held + added =~= sent + (held + added));
}

/// The parts behind a move that may add a keepalive.
spec fn kept_alive(parts: Seq<Part>, added: bool) -> Seq<Part> {
    if added {
        parts.push(Part::Keepalive)
    } else {
        parts
    }
}

proof fn lemma_delivered_by_flush(t: Traced)
    requires
        t.flushed == t.parts.len(),
        t.within == (t.current is Some),
    ensures
        announced(t.delivered()) == t.announced(),
{
    assert(t.parts.take(t.flushed as int) =~= t.parts);
    if let Some((f, payload)) = t.current {
        lemma_announced_push(t.parts, t.completed(f, payload));
    }
}

proof fn lemma_line_keepalive(t: Traced)
    requires
        t.current is None,
    ensures
        ({
            let more = Traced { parts: t.parts.push(Part::Keepalive), ..t };
            &&& more.line() == (t.line().0, t.line().1 + seq![TAG_KEEPALIVE])
            &&& more.announced() == t.announced()
        }),
{
    lemma_part_keepalive(t.line().0);
    lemma_written_push(t.parts, Part::Keepalive);
    lemma_announced_push(t.parts, Part::Keepalive);
}

/// A move keeps what holds.
proof fn lemma_move(t: Traced, added: bool, action: ActionView, next: PumpView)
    requires
        t.holds_stream(),
        moves(t.pump, keepalive_if(added), action, next),
        in_record(next.phase) == (t.current is Some),
        added ==> t.current is None,
    ensures
        t.moved(action, next, kept_alive(t.parts, added), t.current).inv(),
{
    let t2 = t.moved(action, next, kept_alive(t.parts, added), t.current);
    lemma_empty_ends(t.sent + t.pump.buf);
    lemma_moved(t.sent, sent_by(action), next.buf, t.pump.buf, keepalive_if(added));
    if added {
        lemma_line_keepalive(t);
    }
    assert(t2.line() == (t.line().0, t.line().1 + keepalive_if(added))) by {
        lemma_empty_ends(t.line().1);
    }
    assert(t2.announced() == t.announced());
    if action is Send {
        lemma_delivered_by_flush(t2);
    } else if added {
        assert(t2.parts.take(t.flushed as int) =~= t.parts.take(t.flushed as int));
        if t.flushed < t.parts.len() {
            assert(t2.parts.take(t.flushed + 1int) =~= t.parts.take(t.flushed + 1int));
        }
    }
    let u = t2.unpaid();
    assert(u.delivered() == t2.delivered());
    assert(u.line() == t2.line());
    assert(u.announced() == t2.announced());
    if !(action is Send) {
        assert(t2.delivered() == t.delivered());
        if t.pump.start is Some {
            assert(!added);
        }
    }
}

/// A move keeps what holds of records that have the length that they announce.
proof fn lemma_move_fits(t: Traced, added: bool, action: ActionView, next: PumpView)
    requires
        t.holds_stream(),
        moves(t.pump, keepalive_if(added), action, next),
        in_record(next.phase) == (t.current is Some),
        added ==> t.current is None,
        t.complete_parts(),
        t.holds_owed(),
        t.holds_left(),
    ensures
        t.moved(action, next, kept_alive(t.parts, added), t.current).fits(),
{
    let t2 = t.moved(action, next, kept_alive(t.parts, added), t.current);
    lemma_empty_ends(t.sent + t.pump.buf);
    lemma_moved(t.sent, sent_by(action), next.buf, t.pump.buf, keepalive_if(added));
    if added {
        lemma_line_keepalive(t);
    }
    assert(t2.line() == (t.line().0, t.line().1 + keepalive_if(added))) by {
        lemma_empty_ends(t.line().1);
    }
    if action is Send {
        lemma_empty_ends(t2.sent);
        assert(next.buf =~= Seq::<u8>::empty());
        assert(t2.parts.take(t2.flushed as int) =~= t2.parts);
    } else if added {
        assert(t2.parts.take(t.flushed as int) =~= t.parts.take(t.flushed as int));
        if t.flushed < t.parts.len() {
            assert(t2.parts.take(t.flushed + 1int) =~= t.parts.take(t.flushed + 1int));
        }
    }
}
/// A pump that asked for nothing owes nothing.
proof fn lemma_nothing_asked(t: Traced)
    requires
        t.asked == 0,
    ensures
        t.unpaid() == t,
{
    assert(t.unpaid().pump == t.pump);
}

proof fn lemma_step_on_fetch(t: Traced, now: u64, any: bool)
    requires
        t.inv(),
        t.pump.phase == Phase::Fetching,
    ensures
        t.step(now, EventView::Fetched(any)).inv(),
        t.fits() ==> t.step(now, EventView::Fetched(any)).fits(),
{
    let m = t.pump;
    let event = EventView::Fetched(any);
    let (action, next) = pump_step(m, now, event);
    if m.stop != Some(StopView::Disconnected) {
        lemma_nothing_asked(t);
        lemma_empty_ends(m.buf);
        let added = !any && m.buf.len() == 0 && m.idle(now);
        if !any {
            if m.buf.len() > 0 {
                lemma_flush_moves(m, Then::IdleCheck, now);
            } else {
                lemma_go_on_moves(m, Then::IdleCheck, now);
            }
        }
        lemma_move(t, added, action, next);
        if t.fits() {
            lemma_move_fits(t, added, action, next);
        }
        assert(t.step(now, event) == t.moved(action, next, kept_alive(t.parts, added), t.current));
    }
}

proof fn lemma_step_on_leave(t: Traced, now: u64, then: Then)
    requires
        t.inv(),
        t.pump.phase == Phase::Charging(then),
    ensures
        t.step(now, EventView::Charged(Ok(()))).inv(),
        t.fits() ==> t.step(now, EventView::Charged(Ok(()))).fits(),
{
    let m = t.pump;
    let event = EventView::Charged(Ok(()));
    let (action, next) = pump_step(m, now, event);
    if m.stop != Some(StopView::Disconnected) {
        let p = t.paid();
        let u = t.unpaid();
        assert(p.line() == u.line());
        assert(p.delivered() == u.delivered());
        assert(p.announced() == u.announced());
        lemma_send_moves(m, then, now);
        let added = m.buf.len() == 0 && then == Then::IdleCheck && m.idle(now);
        assert(p.holds_stream());
        lemma_move(p, added, action, next);
        if t.fits() {
            lemma_move_fits(p, added, action, next);
        }
        assert(t.step(now, event) == p.moved(action, next, kept_alive(t.parts, added), t.current));
    }
}

proof fn lemma_step_on_sent(t: Traced, now: u64, then: Then)
    requires
        t.inv(),
        t.pump.phase == Phase::Sending(then),
    ensures
        t.step(now, EventView::Sent(true)).inv(),
        t.fits() ==> t.step(now, EventView::Sent(true)).fits(),
{
    let m = t.pump;
    let event = EventView::Sent(true);
    let (action, next) = pump_step(m, now, event);
    if m.stop != Some(StopView::Disconnected) {
        lemma_nothing_asked(t);
        lemma_go_on_moves(m, then, now);
        let added = then == Then::IdleCheck && m.idle(now);
        lemma_move(t, added, action, next);
        if t.fits() {
            lemma_move_fits(t, added, action, next);
        }
        assert(t.step(now, event) == t.moved(action, next, kept_alive(t.parts, added), t.current));
    }
}
/// A record ends as a part: the client has got as much as before.
proof fn lemma_record_ends(t: Traced, part: Part)
    requires
        t.holds_flushed(),
        t.current is Some,
        announced_by(part) == payload_of((t.current->0).0),
    ensures
        ({
            let ended = Traced { parts: t.parts.push(part), current: None, ..t };
            &&& announced(ended.delivered()) == announced(t.delivered())
            &&& ended.announced() == t.announced()
            &&& !ended.partly_sent()
            &&& ended.parts.take(t.flushed as int) == t.parts.take(t.flushed as int)
            &&& t.flushed < t.parts.len() ==> ended.parts.take(t.flushed + 1int) == t.parts.take(
                t.flushed + 1int,
            )
            &&& t.flushed == t.parts.len() ==> ended.parts.take(t.flushed + 1int) == ended.parts
        }),
{
    let (f, payload) = t.current->0;
    let ended = Traced { parts: t.parts.push(part), current: None, ..t };
    lemma_announced_push(t.parts, part);
    lemma_announced_push(t.parts, t.completed(f, payload));
    assert(ended.parts.take(t.flushed as int) =~= t.parts.take(t.flushed as int));
    if t.flushed < t.parts.len() {
        assert(ended.parts.take(t.flushed + 1int) =~= t.parts.take(t.flushed + 1int));
    } else {
        assert(ended.parts.take(t.flushed + 1int) =~= ended.parts);
    }
}

proof fn lemma_step_on_bytes(t: Traced, now: u64, more: Seq<u8>)
    requires
        t.inv(),
        t.pump.phase == Phase::Reading,
    ensures
        t.step(now, EventView::Chunk(Some(Ok(more)))).inv(),
        t.fits() && more.len() <= t.pump.left ==> t.step(
            now,
            EventView::Chunk(Some(Ok(more))),
        ).fits(),
{
    let m = t.pump;
    let event = EventView::Chunk(Some(Ok(more)));
    let (action, next) = pump_step(m, now, event);
    let (e, bytes) = written(EncoderView::start(), t.parts);
    let (f, payload) = t.current->0;
    lemma_nothing_asked(t);
    let left = if more.len() <= m.left {
        (m.left - more.len()) as u64
    } else {
        0
    };
    let m2 = PumpView { buf: m.buf + more, left, ..m };
    let read = Traced { pump: m2, current: Some((f, payload + more)), ..t };
    let done = part_written(e, Part::Record(f, payload)).1;
    lemma_part_grows(e, f, payload, more);
    assert(bytes + (done + more) =~= bytes + done + more);
    assert(t.sent + (m.buf + more) =~= t.sent + m.buf + more);
    assert(read.line() == (t.line().0, t.line().1 + more));
    if t.partly_sent() {
        lemma_announced_push(t.parts, t.completed(f, payload));
        lemma_announced_push(t.parts, read.completed(f, payload + more));
    } else {
        assert(read.delivered() == t.delivered());
    }
    assert(read.holds_stream());
    lemma_empty_ends(m2.buf);
    lemma_flush_moves(m2, Then::KeepReading, now);
    lemma_move(read, false, action, next);
    if t.fits() && more.len() <= m.left {
        lemma_move_fits(read, false, action, next);
    }
    assert(t.step(now, event) == read.moved(action, next, t.parts, read.current));
}

proof fn lemma_step_on_record_end(t: Traced, now: u64)
    requires
        t.inv(),
        t.pump.phase == Phase::Reading,
    ensures
        t.step(now, EventView::Chunk(None)).inv(),
        t.fits() && t.pump.left == 0 ==> t.step(now, EventView::Chunk(None)).fits(),
{
    let m = t.pump;
    let event = EventView::Chunk(None);
    let (action, next) = pump_step(m, now, event);
    let (f, payload) = t.current->0;
    let part = Part::Record(f, payload);
    lemma_nothing_asked(t);
    let m2 = PumpView { left: 0, start: None, ..m };
    let ended = Traced { pump: m2, parts: t.parts.push(part), current: None, ..t };
    lemma_written_push(t.parts, part);
    lemma_record_ends(t, part);
    assert(ended.delivered() == (Traced { pump: m, ..ended }).delivered());
    assert(ended.line() == t.line());
    assert(ended.holds_stream());
    lemma_end_record_moves(m2, now);
    lemma_move(ended, false, action, next);
    if t.fits() && m.left == 0 {
        assert(ended.complete_parts());
        lemma_move_fits(ended, false, action, next);
    }
    assert(t.step(now, event) == ended.moved(action, next, ended.parts, None));
}

proof fn lemma_step_on_record(t: Traced, now: u64, f: FrameView)
    requires
        t.inv(),
        t.pump.phase == Phase::Taking,
        countable(t.pump, EventView::Record(Some(Ok(f)))),
    ensures
        t.step(now, EventView::Record(Some(Ok(f)))).inv(),
        t.fits() ==> t.step(now, EventView::Record(Some(Ok(f)))).fits(),
{
    let m = t.pump;
    let event = EventView::Record(Some(Ok(f)));
    let (action, next) = pump_step(m, now, event);
    let t2 = t.step(now, event);
    let none = Seq::<u8>::empty();
    let (e, bytes) = written(EncoderView::start(), t.parts);
    let frame = m.frame(f);
    let part = Part::Record(frame, none);
    let (encoder, head) = encode_frame(m.encoder, frame);
    lemma_nothing_asked(t);
    lemma_part_record(e, frame);
    lemma_written_push(t.parts, part);
    lemma_announced_push(t.parts, part);
    assert(t.sent + (m.buf + head) =~= t.sent + m.buf + head);
    assert(t.parts.push(part).take(t.flushed as int) =~= t.parts.take(t.flushed as int));
    if t.flushed < t.parts.len() {
        assert(t.parts.push(part).take(t.flushed + 1int) =~= t.parts.take(t.flushed + 1int));
    }
    let m2 = PumpView { encoder, buf: m.buf + head, ..m };
    if m.settings.head_only {
        let taken = Traced { pump: m2, parts: t.parts.push(part), ..t };
        assert(taken.delivered() == t.delivered());
        assert(taken.holds_stream());
        lemma_end_record_moves(m2, now);
        lemma_move(taken, false, action, next);
        if t.fits() {
            assert(taken.complete_parts());
            lemma_move_fits(taken, false, action, next);
        }
        assert(t2 == taken.moved(action, next, taken.parts, None));
    } else {
        lemma_empty_ends(t.sent);
        lemma_nothing_asked(t2);
        assert(t2.sent == t.sent);
        assert(t2.delivered() == t.delivered());
        assert(head.len() >= 2);
        assert(t2.holds_stream());
    }
}
proof fn lemma_no_filling(s: Seq<u8>)
    ensures
        s + filling(0) == s,
{
    assert(s + filling(0) =~= s);
}

/// A query that ends between two records leaves what was taken.
proof fn lemma_step_on_end(t: Traced, now: u64, error: ErrorView)
    requires
        t.inv(),
        t.pump.phase == Phase::Taking,
    ensures
        t.step(now, EventView::Record(Some(Err(error)))).inv(),
        t.fits() ==> t.step(now, EventView::Record(Some(Err(error)))).fits(),
{
    let t2 = t.step(now, EventView::Record(Some(Err(error))));
    lemma_nothing_asked(t);
    lemma_empty_ends(t.sent);
    assert(t2.delivered() == t.delivered());
    assert(t2.line() == t.line());
    lemma_no_filling(t.sent + t.pump.buf);
}

/// A record that breaks off is dropped or completed.
proof fn lemma_step_on_break(t: Traced, now: u64, error: ErrorView)
    requires
        t.inv(),
        t.pump.phase == Phase::Reading,
    ensures
        t.step(now, EventView::Chunk(Some(Err(error)))).inv(),
        t.fits() ==> t.step(now, EventView::Chunk(Some(Err(error)))).fits(),
{
    let m = t.pump;
    let t2 = t.step(now, EventView::Chunk(Some(Err(error))));
    let (e, bytes) = written(EncoderView::start(), t.parts);
    let (f, payload) = t.current->0;
    lemma_nothing_asked(t);
    lemma_empty_ends(t.sent);
    assert(t2.sent == t.sent);
    match m.start {
        Some(held) => {
            assert(t.sent + m.buf.take(held as int) =~= bytes) by {
                let whole = t.line().1;
                assert(whole.take(bytes.len() as int) =~= bytes);
                assert(whole.take(bytes.len() as int) =~= t.sent + m.buf.take(held as int));
            }
            lemma_no_filling(bytes);
        },
        None => {
            let part = t.completed(f, payload);
            let done = part_written(e, Part::Record(f, payload)).1;
            lemma_record_ends(t, part);
            lemma_written_push(t.parts, part);
            lemma_part_grows(e, f, payload, filling(m.left as nat));
            assert(bytes + (done + filling(m.left as nat)) =~= bytes + done + filling(
                m.left as nat,
            ));
            assert(t2.line().1 == t.line().1 + filling(m.left as nat));
            if t.fits() {
                assert(t2.complete_parts());
            }
        },
    }
}

/// What the egress limit let pass is what the client has got, once the last record is completed.
proof fn lemma_cut(t: Traced)
    requires
        t.sent + t.pump.buf == t.line().1,
        t.flushed <= t.parts.len(),
        t.holds_owed(),
        t.complete_parts(),
        t.partly_sent() ==> t.current is Some && t.holds_left(),
    ensures
        ({
            let cut = t.pump.cut();
            let delivered = t.delivered();
            &&& t.sent + cut.buf + filling(cut.left as nat) == written(
                EncoderView::start(),
                delivered,
            ).1
            &&& forall|i: int| 0 <= i < delivered.len() ==> complete(#[trigger] delivered[i])
        }),
{
    let cut = t.pump.cut();
    let delivered = t.delivered();
    let (e, bytes) = written(EncoderView::start(), t.parts);
    let whole = t.line().1;
    let got = written(EncoderView::start(), delivered).1;
    if t.partly_sent() {
        let (f, payload) = t.current->0;
        let done = part_written(e, Part::Record(f, payload)).1;
        let left = filling(t.pump.left as nat);
        lemma_written_push(t.parts, t.completed(f, payload));
        lemma_part_grows(e, f, payload, left);
        assert(bytes + (done + left) =~= bytes + done + left);
        assert(cut.buf =~= t.pump.buf);
    } else {
        let count: int = if t.within {
            t.flushed + 1int
        } else {
            t.flushed as int
        };
        lemma_written_take(t.parts, count);
        assert(whole.take(bytes.len() as int) =~= bytes);
        assert(whole.take(got.len() as int) =~= bytes.take(got.len() as int));
        assert(got.len() == t.sent.len() + t.pump.owed);
        assert(got.len() <= whole.len());
        assert(cut.buf =~= t.pump.buf.take(t.pump.owed as int));
        assert(t.sent + cut.buf =~= (t.sent + t.pump.buf).take(got.len() as int));
        lemma_no_filling(t.sent + cut.buf);
    }
}

proof fn lemma_step_on_refusal(t: Traced, now: u64, error: ErrorView)
    requires
        t.inv(),
        t.pump.phase is Charging || t.pump.phase == Phase::Settling,
    ensures
        t.step(now, EventView::Charged(Err(error))).inv(),
        t.fits() ==> t.step(now, EventView::Charged(Err(error))).fits(),
{
    let t2 = t.step(now, EventView::Charged(Err(error)));
    lemma_empty_ends(t.sent);
    let u = t.unpaid();
    assert(u.delivered() == t.delivered());
    assert(u.line() == t.line());
    if t.fits() {
        lemma_no_filling(t.sent + t.pump.buf);
        lemma_cut(t);
    }
}

/// The stream of a query that failed grows by bytes in place of the record that broke off, or by
/// the error.
proof fn lemma_close(t: Traced)
    requires
        t.inv(),
        t.pump.phase == Phase::Removing || t.pump.phase == Phase::Filling,
    ensures
        ({
            let (action, next) = close(t.pump);
            let t2 = t.moved(action, next, t.parts, t.current);
            &&& t2.inv()
            &&& t.fits() ==> t2.fits()
        }),
{
    let (action, next) = close(t.pump);
    let t2 = t.moved(action, next, t.parts, t.current);
    let buf = t.pump.buf;
    assert(t2.line() == t.line());
    match t.pump.stop {
        Some(StopView::Exhausted) => {
            assert(t.sent + (buf + seq![TAG_END]) =~= t.sent + buf + seq![TAG_END]);
        },
        Some(StopView::Failed(error)) => {
            if t.pump.left > 0 {
                let first = filling(fill_len(t.pump));
                let rest = filling(next.left as nat);
                assert(filling(t.pump.left as nat) =~= first + rest);
                assert(t2.sent + next.buf + rest =~= t.sent + buf + (first + rest));
            } else {
                lemma_no_filling(t.sent + buf);
                assert(t.sent + (buf + error_frame(error)) =~= t.sent + buf + error_frame(error));
            }
        },
        _ => {},
    }
}

/// Whatever happens, what was sent and what is held stay the stream of the parts that were
/// begun and not dropped, and the account of the payload bytes stays right.
pub proof fn law_pump_keeps_stream(t: Traced, now: u64, event: EventView)
    requires
        t.inv(),
        awaited(t.pump.phase, event),
        countable(t.pump, event),
    ensures
        t.step(now, event).inv(),
        t.fits() && as_announced(t.pump, event) ==> t.step(now, event).fits(),
{
    lemma_empty_ends(t.sent);
    match event {
        EventView::Fetched(any) => lemma_step_on_fetch(t, now, any),
        EventView::Record(None) => {
            lemma_nothing_asked(t);
            lemma_nothing_asked(t.step(now, event));
        },
        EventView::Record(Some(Ok(f))) => lemma_step_on_record(t, now, f),
        EventView::Record(Some(Err(error))) => lemma_step_on_end(t, now, error),
        EventView::Chunk(None) => lemma_step_on_record_end(t, now),
        EventView::Chunk(Some(Ok(bytes))) => lemma_step_on_bytes(t, now, bytes),
        EventView::Chunk(Some(Err(error))) => lemma_step_on_break(t, now, error),
        EventView::Charged(Ok(())) => match t.pump.phase {
            Phase::Charging(then) => lemma_step_on_leave(t, now, then),
            _ => {},
        },
        EventView::Charged(Err(error)) => lemma_step_on_refusal(t, now, error),
        EventView::Sent(sent) => match t.pump.phase {
            Phase::Sending(then) => if sent {
                lemma_step_on_sent(t, now, then);
            },
            Phase::Filling => if sent {
                lemma_close(t);
            },
            _ => {},
        },
        EventView::QueryRemoved => lemma_close(t),
    }
}
/// No payload leaves before it was charged: when bytes go to the socket during the query, or with
/// its end, the payload bytes of all records that were begun have passed the egress limit.
///
/// What a query that failed has left goes out with its error: no more than the payload bytes that
/// were not charged yet.
pub proof fn law_sent_payload_is_charged(t: Traced, now: u64, event: EventView)
    requires
        t.inv(),
        awaited(t.pump.phase, event),
        countable(t.pump, event),
    ensures
        ({
            let t2 = t.step(now, event);
            pump_step(t.pump, now, event).0 is Send ==> if t2.pump.stop is None || t2.pump.stop
                == Some(StopView::Exhausted) {
                t2.announced() == t2.charged
            } else {
                t2.announced() <= t2.charged + t2.pump.unbilled
            }
        }),
{
    law_pump_keeps_stream(t, now, event);
}

/// What the egress limit refuses never leaves: behind a refusal, all payload that the client gets
/// has been charged, and nothing is charged any more.
pub proof fn law_refused_payload_never_leaves(t: Traced, now: u64, error: ErrorView)
    requires
        t.inv(),
        t.pump.phase is Charging || t.pump.phase == Phase::Settling,
    ensures
        ({
            let t2 = t.step(now, EventView::Charged(Err(error)));
            &&& t2.announced() <= t2.charged
            &&& t2.pump.unbilled == 0
            &&& t2.pump.phase == Phase::Removing
        }),
{
    lemma_step_on_refusal(t, now, error);
    assert(t.unpaid().delivered() == t.delivered());
}

/// A query for metadata alone is never charged.
pub proof fn law_head_only_is_free(t: Traced, now: u64, event: EventView)
    requires
        t.inv(),
        t.pump.settings.head_only,
        awaited(t.pump.phase, event),
        countable(t.pump, event),
    ensures
        !(pump_step(t.pump, now, event).0 is Charge),
{
}

/// When the query is exhausted, the response is the stream of all records that were taken, with
/// its end.
pub proof fn law_exhausted_response(t: Traced, now: u64)
    requires
        t.inv(),
        t.pump.phase == Phase::Removing,
        t.pump.stop == Some(StopView::Exhausted),
    ensures
        t.step(now, EventView::QueryRemoved).sent == encode_stream(
            EncoderView::start(),
            t.parts,
            Ending::End,
        ),
{
    lemma_close(t);
    lemma_stream_is_written(EncoderView::start(), t.parts, Ending::End);
}

/// When the query has failed, every flush brings the stream closer to its end, and the last one
/// ends it.
pub proof fn law_failure_is_closed(t: Traced, now: u64, event: EventView)
    requires
        t.inv(),
        t.pump.phase == Phase::Removing || t.pump.phase == Phase::Filling,
        t.pump.stop is Some && t.pump.stop->0 is Failed,
        event == EventView::QueryRemoved || event == EventView::Sent(true),
        awaited(t.pump.phase, event),
        countable(t.pump, event),
    ensures
        ({
            let t2 = t.step(now, event);
            &&& pump_step(t.pump, now, event).0 is Send
            &&& t2.parts == t.parts
            &&& t2.charged == t.charged
            &&& t2.pump.unbilled == t.pump.unbilled
            &&& t2.pump.stop == t.pump.stop
            &&& t.pump.left == 0 ==> t2.pump.phase == Phase::Closing
            &&& t.pump.left > 0 ==> t2.pump.phase == Phase::Filling && t2.pump.left < t.pump.left
        }),
{
}

/// When the query has failed, wherever it did, the response is the stream of the records that
/// were begun and not dropped, each as long as it announces, with the error.
pub proof fn law_failed_response(t: Traced, error: ErrorView)
    requires
        t.inv(),
        t.fits(),
        t.pump.phase == Phase::Closing,
        t.pump.stop == Some(StopView::Failed(error)),
    ensures
        t.sent == encode_stream(EncoderView::start(), t.parts, Ending::Error(error)),
{
    lemma_stream_is_written(EncoderView::start(), t.parts, Ending::Error(error));
}

/// A client that stays connected gets an ending, whatever happens: the pump takes a client for
/// gone only when a flush fails, and finishes only behind the last frame.
pub proof fn law_connected_client_gets_an_ending(t: Traced, now: u64, event: EventView)
    requires
        t.inv(),
        t.pump.stop != Some(StopView::Disconnected),
        awaited(t.pump.phase, event),
        countable(t.pump, event),
        event != EventView::Sent(false),
    ensures
        t.step(now, event).pump.stop != Some(StopView::Disconnected),
        pump_step(t.pump, now, event).0 == ActionView::Finish ==> t.pump.phase == Phase::Closing,
{
}

/// When the egress limit refuses, what was held is dropped, but for what the client waits for of
/// a record. Where it waits for nothing, all that follows what was sent is the error.
pub proof fn law_refused_charge(m: PumpView, now: u64, error: ErrorView, later: u64)
    requires
        m.phase is Charging || m.phase is Settling,
    ensures
        ({
            let (action, next) = pump_step(m, now, EventView::Charged(Err(error)));
            let last = pump_step(next, later, EventView::QueryRemoved).0;
            &&& action == ActionView::RemoveQuery
            &&& next.stop == Some(StopView::Failed(error))
            &&& next.buf.len() + next.left == m.owed
            &&& m.owed == 0 ==> last == ActionView::Send(error_frame(error))
        }),
{
    let (action, next) = pump_step(m, now, EventView::Charged(Err(error)));
    if m.owed == 0 {
        assert(next.buf =~= Seq::<u8>::empty());
        lemma_empty_ends(error_frame(error));
    }
}

/// A client reads back from the response of an exhausted query every record that was taken,
/// with its payload, and the end.
pub proof fn law_response_is_read_back(t: Traced, now: u64, chunks: Seq<Seq<u8>>)
    requires
        t.inv(),
        t.pump.phase == Phase::Removing,
        t.pump.stop == Some(StopView::Exhausted),
        all_sendable(t.parts),
        joined(chunks) == t.step(now, EventView::QueryRemoved).sent,
    ensures
        says_all(
            drain_chunks(StreamView::start(), chunks),
            stream_events(t.parts, Ending::End),
        ),
{
    law_exhausted_response(t, now);
    law_read_back_in_chunks(t.parts, Ending::End, chunks);
}

proof fn lemma_error_comes_last(parts: Seq<Part>, error: ErrorView)
    ensures
        stream_events(parts, Ending::Error(error)).len() > 0,
        stream_events(parts, Ending::Error(error)).last() == Event::Error(error),
    decreases parts.len(),
{
    if parts.len() > 0 {
        lemma_error_comes_last(parts.skip(1), error);
    }
}

/// A client reads back from the response of a query that failed, wherever it did, every record
/// that was begun and not dropped, and behind them the error.
pub proof fn law_failure_is_read_back(t: Traced, error: ErrorView, chunks: Seq<Seq<u8>>)
    requires
        t.inv(),
        t.fits(),
        t.pump.phase == Phase::Closing,
        t.pump.stop == Some(StopView::Failed(error)),
        forall|i: int| 0 <= i < t.parts.len() ==> readable(#[trigger] t.parts[i]),
        short(error.message),
        joined(chunks) == t.sent,
    ensures
        ({
            let drained = drain_chunks(StreamView::start(), chunks);
            &&& says_all(drained, stream_events(t.parts, Ending::Error(error)))
            &&& drained.events.last() == Event::Error(error)
        }),
{
    law_failed_response(t, error);
    assert(all_sendable(t.parts)) by {
        assert forall|i: int| 0 <= i < t.parts.len() implies sendable(#[trigger] t.parts[i]) by {
            assert(complete(t.parts[i]) && readable(t.parts[i]));
        }
    }
    law_read_back_in_chunks(t.parts, Ending::Error(error), chunks);
    lemma_error_comes_last(t.parts, error);
}
/// The query is removed once the pump is done with it, and no ending is sent before.
pub proof fn law_query_is_removed_before_the_ending(t: Traced, now: u64, event: EventView)
    requires
        t.inv(),
        awaited(t.pump.phase, event),
        countable(t.pump, event),
    ensures
        ({
            let (action, next) = pump_step(t.pump, now, event);
            &&& next.phase == Phase::Removing <==> action == ActionView::RemoveQuery
            &&& next.phase == Phase::Filling || next.phase == Phase::Closing || next.phase
                == Phase::Done ==> t.pump.phase == Phase::Removing || t.pump.phase
                == Phase::Filling || t.pump.phase == Phase::Closing
        }),
{
}

/// A pump behind a number of events, each at its time.
pub open spec fn ran(t: Traced, events: Seq<(u64, EventView)>) -> Traced
    decreases events.len(),
{
    if events.len() == 0 {
        t
    } else {
        ran(t, events.drop_last()).step(events.last().0, events.last().1)
    }
}

/// Whether each event is what the pump waits for when it comes.
pub open spec fn in_turn(t: Traced, events: Seq<(u64, EventView)>) -> bool
    decreases events.len(),
{
    events.len() > 0 ==> {
        let m = ran(t, events.drop_last()).pump;
        &&& in_turn(t, events.drop_last())
        &&& awaited(m.phase, events.last().1)
        &&& countable(m, events.last().1)
    }
}

/// Whether all records go on and end as they announce.
pub open spec fn all_as_announced(t: Traced, events: Seq<(u64, EventView)>) -> bool
    decreases events.len(),
{
    events.len() > 0 ==> {
        &&& all_as_announced(t, events.drop_last())
        &&& as_announced(ran(t, events.drop_last()).pump, events.last().1)
    }
}

/// Whatever a query brings: a response that is complete is the stream of the records that were
/// begun and not dropped, with the end of the query or with the error that ended it.
pub proof fn law_whole_response(
    settings: PumpSettings,
    now: u64,
    events: Seq<(u64, EventView)>,
)
    requires
        in_turn(Traced::start(settings, now), events),
    ensures
        ({
            let start = Traced::start(settings, now);
            let t = ran(start, events);
            &&& t.inv()
            &&& all_as_announced(start, events) ==> t.fits()
            &&& t.pump.phase == Phase::Closing ==> match t.pump.stop {
                Some(StopView::Exhausted) => t.sent == encode_stream(
                    EncoderView::start(),
                    t.parts,
                    Ending::End,
                ),
                Some(StopView::Failed(error)) => all_as_announced(start, events) ==> t.sent
                    == encode_stream(EncoderView::start(), t.parts, Ending::Error(error)),
                _ => false,
            }
        }),
    decreases events.len(),
{
    let start = Traced::start(settings, now);
    let t = ran(start, events);
    if events.len() == 0 {
        law_pump_starts_empty(settings, now);
    } else {
        let before = ran(start, events.drop_last());
        law_whole_response(settings, now, events.drop_last());
        law_pump_keeps_stream(before, events.last().0, events.last().1);
    }
    if t.pump.phase == Phase::Closing {
        match t.pump.stop {
            Some(StopView::Exhausted) => lemma_stream_is_written(
                EncoderView::start(),
                t.parts,
                Ending::End,
            ),
            Some(StopView::Failed(error)) => lemma_stream_is_written(
                EncoderView::start(),
                t.parts,
                Ending::Error(error),
            ),
            _ => {},
        }
    }
}
/// What an event does to a response.
pub enum Sign {
    /// The query has run out.
    End,
    /// The query, a record or the egress limit has failed.
    Failure(ErrorView),
    /// The client has gone.
    Gone,
    /// The query was removed.
    Removed,
    /// Nothing that would end the response.
    Nothing,
}

pub open spec fn sign_of(event: EventView) -> Sign {
    match event {
        EventView::Record(Some(Err(error))) => if error.status == ErrorCode::NoContent {
            Sign::End
        } else {
            Sign::Failure(error)
        },
        EventView::Chunk(Some(Err(error))) => Sign::Failure(error),
        EventView::Charged(Err(error)) => Sign::Failure(error),
        EventView::Sent(false) => Sign::Gone,
        EventView::QueryRemoved => Sign::Removed,
        _ => Sign::Nothing,
    }
}

/// Whether one of the events is such a sign.
pub open spec fn seen(events: Seq<(u64, EventView)>, sign: Sign) -> bool {
    exists|k: int| 0 <= k < events.len() && sign_of((#[trigger] events[k]).1) == sign
}

/// Whether the egress limit has refused a charge.
pub open spec fn charge_refused(events: Seq<(u64, EventView)>) -> bool {
    exists|k: int|
        0 <= k < events.len() && (#[trigger] events[k]).1 is Charged
            && events[k].1->Charged_0 is Err
}

proof fn lemma_seen(events: Seq<(u64, EventView)>, sign: Sign)
    requires
        events.len() > 0,
    ensures
        seen(events, sign) <==> seen(events.drop_last(), sign) || sign_of(events.last().1) == sign,
{
    let front = events.drop_last();
    if seen(front, sign) {
        let k = choose|k: int|
            0 <= k < front.len() && sign_of((#[trigger] front[k]).1) == sign;
        assert(events[k] == front[k]);
    }
    if seen(events, sign) && sign_of(events.last().1) != sign {
        let k = choose|k: int|
            0 <= k < events.len() && sign_of((#[trigger] events[k]).1) == sign;
        assert(front[k] == events[k]);
    }
    if sign_of(events.last().1) == sign {
        assert(events[events.len() - 1] == events.last());
    }
}

proof fn lemma_charge_refused(events: Seq<(u64, EventView)>)
    requires
        events.len() > 0,
    ensures
        charge_refused(events) <==> charge_refused(events.drop_last()) || (events.last().1 is Charged
            && events.last().1->Charged_0 is Err),
{
    let front = events.drop_last();
    if charge_refused(front) {
        let k = choose|k: int|
            0 <= k < front.len() && (#[trigger] front[k]).1 is Charged && front[k].1->Charged_0
                is Err;
        assert(events[k] == front[k]);
    }
    if charge_refused(events) {
        let k = choose|k: int|
            0 <= k < events.len() && (#[trigger] events[k]).1 is Charged && events[k].1->Charged_0
                is Err;
        if k < front.len() {
            assert(front[k] == events[k]);
        }
    }
    assert(events[events.len() - 1] == events.last());
}

/// The reason why a response ends is the one that came: it is at its end where the query has run
/// out and every charge has passed, and nowhere else; it has failed only with an error that came;
/// its client is gone only where a flush has failed. While it goes on, none of these has come. An
/// ending is sent only for a query that was removed.
pub proof fn law_ending_tells_what_happened(
    settings: PumpSettings,
    now: u64,
    events: Seq<(u64, EventView)>,
    error: ErrorView,
)
    requires
        in_turn(Traced::start(settings, now), events),
    ensures
        ({
            let m = ran(Traced::start(settings, now), events).pump;
            &&& m.stop == Some(StopView::Exhausted) <==> seen(events, Sign::End)
                && !charge_refused(events)
            &&& m.stop == Some(StopView::Failed(error)) ==> seen(events, Sign::Failure(error))
            &&& m.stop == Some(StopView::Disconnected) ==> seen(events, Sign::Gone)
            &&& m.stop is None ==> !seen(events, Sign::End) && !seen(events, Sign::Failure(error))
                && !seen(events, Sign::Gone)
            &&& m.phase == Phase::Filling || m.phase == Phase::Closing || m.phase == Phase::Done
                ==> seen(events, Sign::Removed)
        }),
    decreases events.len(),
{
    let start = Traced::start(settings, now);
    if events.len() > 0 {
        let front = events.drop_last();
        let before = ran(start, front);
        law_ending_tells_what_happened(settings, now, front, error);
        law_whole_response(settings, now, front);
        lemma_seen(events, Sign::End);
        lemma_seen(events, Sign::Failure(error));
        lemma_seen(events, Sign::Gone);
        lemma_seen(events, Sign::Removed);
        lemma_charge_refused(events);
        lemma_no_ending_yet(settings, now, front);
        assert(before.inv());
    }
}

/// A pump that works on records has seen no end, and no charge was refused.
proof fn lemma_no_ending_yet(settings: PumpSettings, now: u64, events: Seq<(u64, EventView)>)
    requires
        in_turn(Traced::start(settings, now), events),
    ensures
        ({
            let m = ran(Traced::start(settings, now), events).pump;
            &&& m.stop is None || m.stop == Some(StopView::Exhausted) || m.stop == Some(
                StopView::Disconnected,
            ) ==> !charge_refused(events)
            &&& seen(events, Sign::End) ==> m.stop is Some && m.stop != Some(
                StopView::Disconnected,
            )
        }),
    decreases events.len(),
{
    let start = Traced::start(settings, now);
    if events.len() > 0 {
        let front = events.drop_last();
        lemma_no_ending_yet(settings, now, front);
        law_whole_response(settings, now, front);
        lemma_seen(events, Sign::End);
        lemma_charge_refused(events);
    }
}

} // verus!
