//! What a response comes to over everything that happened: which records it holds, when it keeps
//! an idle connection alive, and when it hands bytes to the socket.

use crate::api::stream::{
    pump_step, ActionView, EventView, Phase, PumpSettings, StopView, Then,
};
use crate::api::stream_laws::{
    after_keepalive, charge_refused, in_record, in_turn, law_whole_response, ran, working, written,
    Traced,
};
use crate::batch::encoder::{EncoderView, FrameView};
use crate::batch::stream_laws::Part;
use vstd::prelude::*;

verus! {

/// Whether the last thing in a response is a keepalive.
pub open spec fn ends_with_keepalive(t: Traced) -> bool {
    t.current is None && t.parts.len() > 0 && t.parts.last() == Part::Keepalive
}

/// What the last fetch brought: records or nothing.
pub open spec fn last_fetch(events: Seq<(u64, EventView)>) -> Option<bool>
    decreases events.len(),
{
    if events.len() == 0 {
        None
    } else {
        match events.last().1 {
            EventView::Fetched(any) => Some(any),
            _ => last_fetch(events.drop_last()),
        }
    }
}

/// The time of the last sign of life: when records came in, when a keepalive was handed to the
/// socket, or when the response began.
pub open spec fn quiet_since(start: Traced, begin: u64, events: Seq<(u64, EventView)>) -> u64
    decreases events.len(),
{
    if events.len() == 0 {
        begin
    } else {
        let (at, event) = events.last();
        let front = events.drop_last();
        match event {
            EventView::Fetched(true) => at,
            EventView::Sent(true) => if ends_with_keepalive(ran(start, front)) {
                at
            } else {
                quiet_since(start, begin, front)
            },
            _ => quiet_since(start, begin, front),
        }
    }
}

spec fn idle_then(then: Then) -> bool {
    then == Then::IdleCheck || then == Then::IdleReset
}

/// What an idle pump knows, and what it holds while it works.
spec fn knows(t: Traced, begin: u64, start: Traced, events: Seq<(u64, EventView)>) -> bool {
    let m = t.pump;
    let flush_size = start.pump.settings.flush_size;
    &&& m.settings == start.pump.settings
    &&& m.stop is None ==> {
        &&& working(m.phase)
        &&& m.idle_since == quiet_since(start, begin, events)
        &&& ends_with_keepalive(t) ==> m.phase == Phase::Charging(Then::IdleReset) || (m.buf.len()
            == 0 && !(m.phase is Charging) && (m.phase is Sending ==> m.phase == Phase::Sending(
            Then::IdleReset,
        )))
        &&& after_keepalive(m.phase) ==> ends_with_keepalive(t)
        &&& match m.phase {
            Phase::Charging(then) => {
                &&& idle_then(then) ==> m.buf.len() > 0
                &&& !idle_then(then) ==> m.buf.len() >= flush_size
                &&& last_fetch(events) == Some(!idle_then(then))
            },
            Phase::Sending(then) => m.buf.len() == 0 && last_fetch(events) == Some(
                !idle_then(then),
            ),
            Phase::Fetching => {
                &&& m.buf.len() == 0 || m.buf.len() < flush_size
                &&& last_fetch(events) == Some(false) ==> m.buf.len() == 0
            },
            Phase::Taking => {
                &&& m.buf.len() == 0 || m.buf.len() < flush_size
                &&& last_fetch(events) == Some(true)
            },
            _ => {
                &&& !(events.last().1 is Record) ==> m.buf.len() == 0 || m.buf.len() < flush_size
                &&& last_fetch(events) == Some(true)
            },
        }
    }
}

proof fn lemma_knows(settings: PumpSettings, begin: u64, events: Seq<(u64, EventView)>)
    requires
        in_turn(Traced::start(settings, begin), events),
    ensures
        ({
            let start = Traced::start(settings, begin);
            knows(ran(start, events), begin, start, events)
        }),
    decreases events.len(),
{
    let start = Traced::start(settings, begin);
    if events.len() > 0 {
        let front = events.drop_last();
        lemma_knows(settings, begin, front);
        law_whole_response(settings, begin, front);
        law_whole_response(settings, begin, events);
    }
}
/// A connection stays warm: whenever the pump goes back to fetch after a fetch that brought
/// nothing, all that was written is sent, and either a keepalive was handed to the socket just now,
/// or the last sign of life is younger than the keepalive interval. So an idle connection gets one
/// keepalive for every interval, however long it is idle.
pub proof fn law_idle_connection_is_kept_alive(
    settings: PumpSettings,
    begin: u64,
    events: Seq<(u64, EventView)>,
)
    requires
        in_turn(Traced::start(settings, begin), events),
        events.len() > 0,
        last_fetch(events) == Some(false),
        ran(Traced::start(settings, begin), events).pump.phase == Phase::Fetching,
    ensures
        ({
            let start = Traced::start(settings, begin);
            let t = ran(start, events);
            let at = events.last().0;
            let quiet = quiet_since(start, begin, events);
            &&& t.sent == written(EncoderView::start(), t.parts).1
            &&& t.current is None
            &&& (ends_with_keepalive(t) && quiet == at) || at - quiet < settings.keepalive
        }),
{
    let start = Traced::start(settings, begin);
    let t = ran(start, events);
    let front = events.drop_last();
    let before = ran(start, front);
    lemma_knows(settings, begin, events);
    lemma_knows(settings, begin, front);
    law_whole_response(settings, begin, events);
    law_whole_response(settings, begin, front);
    assert(t.pump.stop is None);
    assert(t.unpaid().holds_stream());
    assert(t.unpaid().line() == t.line());
    assert(t.sent + t.pump.buf =~= t.sent);
}

/// A keepalive is written only behind a fetch that brought nothing, and never sooner than an
/// interval after the last sign of life.
pub proof fn law_no_keepalive_before_it_is_due(
    settings: PumpSettings,
    begin: u64,
    events: Seq<(u64, EventView)>,
)
    requires
        in_turn(Traced::start(settings, begin), events),
        events.len() > 0,
        ({
            let start = Traced::start(settings, begin);
            let before = ran(start, events.drop_last());
            let t = ran(start, events);
            &&& t.pump.stop is None
            &&& t.parts.len() > before.parts.len()
            &&& ends_with_keepalive(t)
        }),
    ensures
        ({
            let start = Traced::start(settings, begin);
            &&& last_fetch(events) == Some(false)
            &&& settings.keepalive == 0 || events.last().0 - quiet_since(
                start,
                begin,
                events.drop_last(),
            ) >= settings.keepalive
        }),
{
    let start = Traced::start(settings, begin);
    lemma_knows(settings, begin, events);
    lemma_knows(settings, begin, events.drop_last());
    law_whole_response(settings, begin, events.drop_last());
}

/// While records come in, bytes are handed to the socket once there are as many as the flush size
/// says, and not before: what is held between two records, or between two chunks, is less; what is
/// handed over is no less.
pub proof fn law_bytes_are_flushed_in_time(
    settings: PumpSettings,
    begin: u64,
    events: Seq<(u64, EventView)>,
)
    requires
        in_turn(Traced::start(settings, begin), events),
        events.len() > 0,
    ensures
        ({
            let start = Traced::start(settings, begin);
            let before = ran(start, events.drop_last());
            let t = ran(start, events);
            let action = pump_step(before.pump, events.last().0, events.last().1).0;
            &&& t.pump.phase == Phase::Taking || t.pump.phase == Phase::Fetching || (t.pump.phase
                == Phase::Reading && !(events.last().1 is Record)) ==> t.pump.buf.len() == 0
                || t.pump.buf.len() < settings.flush_size
            &&& t.pump.phase is Sending && last_fetch(events) == Some(true) ==> match action {
                ActionView::Send(bytes) => bytes.len() >= settings.flush_size,
                _ => true,
            }
            &&& t.pump.phase is Sending ==> t.pump.buf.len() == 0
        }),
{
    let start = Traced::start(settings, begin);
    lemma_knows(settings, begin, events);
    lemma_knows(settings, begin, events.drop_last());
    law_whole_response(settings, begin, events.drop_last());
    law_whole_response(settings, begin, events);
}

/// The records that were taken from the query, each with the bytes that were read of it. Payloads
/// are left out of a response that is asked for metadata alone.
pub open spec fn taken(events: Seq<(u64, EventView)>, head_only: bool) -> Seq<
    (FrameView, Seq<u8>),
>
    decreases events.len(),
{
    if events.len() == 0 {
        Seq::empty()
    } else {
        let before = taken(events.drop_last(), head_only);
        match events.last().1 {
            EventView::Record(Some(Ok(f))) => before.push(
                (
                    FrameView {
                        entry: f.entry,
                        timestamp: f.timestamp,
                        content_type: f.content_type,
                        content_length: f.content_length,
                        pairs: f.pairs,
                        with_payload: !head_only,
                    },
                    Seq::empty(),
                ),
            ),
            EventView::Chunk(Some(Ok(bytes))) => before.drop_last().push(
                (before.last().0, before.last().1 + bytes),
            ),
            _ => before,
        }
    }
}

/// The records of a response.
pub open spec fn records(parts: Seq<Part>) -> Seq<(FrameView, Seq<u8>)>
    decreases parts.len(),
{
    if parts.len() == 0 {
        Seq::empty()
    } else {
        match parts.last() {
            Part::Keepalive => records(parts.drop_last()),
            Part::Record(f, payload) => records(parts.drop_last()).push((f, payload)),
        }
    }
}

proof fn lemma_records_push(parts: Seq<Part>, part: Part)
    ensures
        records(parts.push(part)) == (match part {
            Part::Keepalive => records(parts),
            Part::Record(f, payload) => records(parts).push((f, payload)),
        }),
{
    assert(parts.push(part).drop_last() =~= parts);
}

/// What was begun is what was taken.
spec fn holds_taken(t: Traced, events: Seq<(u64, EventView)>) -> bool {
    let all = taken(events, t.pump.settings.head_only);
    match t.current {
        None => records(t.parts) == all,
        Some((f, payload)) => records(t.parts).push((f, payload)) == all,
    }
}

proof fn lemma_holds_taken(settings: PumpSettings, begin: u64, events: Seq<(u64, EventView)>)
    requires
        in_turn(Traced::start(settings, begin), events),
    ensures
        ({
            let t = ran(Traced::start(settings, begin), events);
            &&& t.pump.settings == settings
            &&& t.pump.stop is None || t.pump.stop == Some(StopView::Exhausted) ==> holds_taken(
                t,
                events,
            )
        }),
    decreases events.len(),
{
    let start = Traced::start(settings, begin);
    if events.len() > 0 {
        let front = events.drop_last();
        let before = ran(start, front);
        let t = ran(start, events);
        lemma_holds_taken(settings, begin, front);
        lemma_knows(settings, begin, events);
        law_whole_response(settings, begin, front);
        law_whole_response(settings, begin, events);
        lemma_records_push(before.parts, Part::Keepalive);
        let event = events.last().1;
        match event {
            EventView::Record(Some(Ok(f))) => {
                lemma_records_push(
                    before.parts,
                    Part::Record(before.pump.frame(f), Seq::empty()),
                );
            },
            EventView::Chunk(Some(Ok(bytes))) => {
                if let Some((f, payload)) = before.current {
                    let all = taken(front, settings.head_only);
                    assert(all.drop_last() =~= records(before.parts));
                    assert(all.last() == (f, payload));
                }
            },
            EventView::Chunk(None) => {
                if let Some((f, payload)) = before.current {
                    lemma_records_push(before.parts, Part::Record(f, payload));
                }
            },
            _ => {},
        }
    }
}

/// A response that goes on, or that has come to the end of its query, holds every record that was
/// taken, once, in order, with its metadata as it was and all bytes that were read of it.
pub proof fn law_response_holds_what_was_taken(
    settings: PumpSettings,
    begin: u64,
    events: Seq<(u64, EventView)>,
)
    requires
        in_turn(Traced::start(settings, begin), events),
    ensures
        ({
            let t = ran(Traced::start(settings, begin), events);
            let all = taken(events, settings.head_only);
            &&& t.pump.stop is None ==> match t.current {
                None => records(t.parts) == all,
                Some((f, payload)) => records(t.parts).push((f, payload)) == all,
            }
            &&& t.pump.stop == Some(StopView::Exhausted) && (t.pump.phase == Phase::Removing
                || t.pump.phase == Phase::Closing) ==> t.current is None && records(t.parts) == all
        }),
{
    lemma_holds_taken(settings, begin, events);
    law_whole_response(settings, begin, events);
}
/// Whether a record is as it was taken, or as it was taken with zero bytes behind it.
pub open spec fn filled_up(got: (FrameView, Seq<u8>), put: (FrameView, Seq<u8>)) -> bool {
    &&& got.0 == put.0
    &&& put.1.is_prefix_of(got.1)
    &&& forall|k: int| put.1.len() <= k < got.1.len() ==> #[trigger] got.1[k] == 0
}

/// Whether some records are the first of those that were taken, where the last one may be filled
/// up.
pub open spec fn first_of(got: Seq<(FrameView, Seq<u8>)>, all: Seq<(FrameView, Seq<u8>)>) -> bool {
    &&& got.len() <= all.len()
    &&& forall|i: int| 0 <= i < got.len() - 1 ==> #[trigger] got[i] == all[i]
    &&& got.len() > 0 ==> filled_up(got.last(), all[got.len() - 1])
}

/// Whether reading a record has failed.
pub open spec fn chunk_failed(events: Seq<(u64, EventView)>) -> bool {
    exists|k: int|
        0 <= k < events.len() && (#[trigger] events[k]).1 is Chunk && events[k].1->Chunk_0 is Some
            && events[k].1->Chunk_0->0 is Err
}

proof fn lemma_chunk_failed(events: Seq<(u64, EventView)>)
    requires
        events.len() > 0,
    ensures
        chunk_failed(events.drop_last()) ==> chunk_failed(events),
        events.last().1 is Chunk && events.last().1->Chunk_0 is Some && events.last().1->Chunk_0->0
            is Err ==> chunk_failed(events),
        charge_refused(events.drop_last()) ==> charge_refused(events),
        events.last().1 is Charged && events.last().1->Charged_0 is Err ==> charge_refused(events),
{
    let front = events.drop_last();
    if chunk_failed(front) {
        let k = choose|k: int|
            0 <= k < front.len() && (#[trigger] front[k]).1 is Chunk && front[k].1->Chunk_0 is Some
                && front[k].1->Chunk_0->0 is Err;
        assert(events[k] == front[k]);
    }
    if charge_refused(front) {
        let k = choose|k: int|
            0 <= k < front.len() && (#[trigger] front[k]).1 is Charged && front[k].1->Charged_0
                is Err;
        assert(events[k] == front[k]);
    }
    assert(events[events.len() - 1] == events.last());
}

proof fn lemma_records_take(parts: Seq<Part>, n: int)
    requires
        0 <= n <= parts.len(),
    ensures
        records(parts.take(n)).len() <= records(parts).len(),
        records(parts.take(n)) == records(parts).take(records(parts.take(n)).len() as int),
    decreases parts.len() - n,
{
    if n == parts.len() {
        assert(parts.take(n) =~= parts);
        assert(records(parts).take(records(parts).len() as int) =~= records(parts));
    } else {
        lemma_records_take(parts, n + 1);
        let more = parts.take(n + 1);
        assert(more.drop_last() =~= parts.take(n));
        let (a, b) = (records(parts.take(n)), records(more));
        assert(a =~= records(parts).take(a.len() as int)) by {
            assert(a =~= b.take(a.len() as int));
            assert(b.take(a.len() as int) =~= records(parts).take(a.len() as int));
        }
    }
}

proof fn lemma_first_of_take(all: Seq<(FrameView, Seq<u8>)>, n: int)
    requires
        0 <= n <= all.len(),
    ensures
        first_of(all.take(n), all),
{
}

proof fn lemma_delivered_first_of(t: Traced, all: Seq<(FrameView, Seq<u8>)>)
    requires
        t.flushed <= t.parts.len(),
        match t.current {
            None => records(t.parts) == all,
            Some((f, payload)) => records(t.parts).push((f, payload)) == all,
        },
    ensures
        first_of(records(t.delivered()), all),
{
    let whole = records(t.parts);
    assert(whole =~= all.take(whole.len() as int));
    let count: int = if t.within {
        if t.flushed < t.parts.len() {
            t.flushed + 1int
        } else {
            t.parts.len() as int
        }
    } else {
        t.flushed as int
    };
    lemma_records_take(t.parts, count);
    assert(t.parts.take(t.parts.len() as int) =~= t.parts);
    let n = records(t.parts.take(count)).len() as int;
    assert(records(t.parts.take(count)) =~= all.take(n));
    lemma_first_of_take(all, n);
    if t.within && t.flushed == t.parts.len() {
        if let Some((f, payload)) = t.current {
            lemma_records_push(t.parts, t.completed(f, payload));
            assert(records(t.delivered()).last().1.take(payload.len() as int) =~= payload);
        }
    }
}

/// A response that ends with an error holds the first of the records that were taken, in order and
/// as they were; of a record that broke off, or that the egress limit stopped, the announced length
/// is filled up. Where no charge was refused, the record that broke off is the only one that may
/// be missing.
pub proof fn law_failed_response_holds_what_was_taken(
    settings: PumpSettings,
    begin: u64,
    events: Seq<(u64, EventView)>,
)
    requires
        in_turn(Traced::start(settings, begin), events),
    ensures
        ({
            let t = ran(Traced::start(settings, begin), events);
            let all = taken(events, settings.head_only);
            t.pump.stop is Some && t.pump.stop->0 is Failed ==> {
                &&& first_of(records(t.parts), all)
                &&& !charge_refused(events) ==> records(t.parts).len() + 1 >= all.len()
                &&& !charge_refused(events) && !chunk_failed(events) ==> records(t.parts) == all
            }
        }),
    decreases events.len(),
{
    let start = Traced::start(settings, begin);
    if events.len() > 0 {
        let front = events.drop_last();
        let before = ran(start, front);
        let t = ran(start, events);
        let all = taken(front, settings.head_only);
        law_failed_response_holds_what_was_taken(settings, begin, front);
        lemma_holds_taken(settings, begin, front);
        lemma_holds_taken(settings, begin, events);
        lemma_knows(settings, begin, front);
        law_whole_response(settings, begin, front);
        lemma_chunk_failed(events);
        let whole = records(before.parts);
        lemma_first_of_take(all, all.len() as int);
        assert(all.take(all.len() as int) =~= all);
        match events.last().1 {
            EventView::Charged(Err(_)) => {
                if working(before.pump.phase) {
                    assert(before.unpaid().holds_flushed());
                }
                if before.pump.stop is None || before.pump.stop == Some(StopView::Exhausted) {
                    lemma_delivered_first_of(before, all);
                }
            },
            EventView::Chunk(Some(Err(_))) => {
                if let Some((f, payload)) = before.current {
                    assert(whole =~= all.take(whole.len() as int));
                    lemma_first_of_take(all, whole.len() as int);
                    lemma_records_push(before.parts, before.completed(f, payload));
                    let filled = records(before.parts.push(before.completed(f, payload)));
                    assert(filled.last().1.take(payload.len() as int) =~= payload);
                }
            },
            _ => {},
        }
    }
}

} // verus!
