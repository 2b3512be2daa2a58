//! One benchmark at a time, so that measurements never overlap.

use crate::benchmark::api::BenchmarkStatus;
use crate::benchmark::config::Duration;
use crate::error::{ErrorCode, ErrorView, ReductError};
use crate::text::{decimal, decimal_text};
use vstd::prelude::*;

verus! {

/// The place of the running benchmark.
#[derive(Debug)]
pub struct BenchmarkSlot {
    locked: bool,
    running: Option<(String, u64)>,
}

/// Whether the place is taken, and the benchmark that runs, with its start.
pub struct SlotView {
    pub locked: bool,
    pub running: Option<(Seq<char>, u64)>,
}

impl View for BenchmarkSlot {
    type V = SlotView;

    closed spec fn view(&self) -> SlotView {
        SlotView {
            locked: self.locked,
            running: match self.running {
                Some(running) => Some((running.0@, running.1)),
                None => None,
            },
        }
    }
}

/// The error for a benchmark that has to wait.
pub open spec fn already_running(name: Seq<char>) -> ErrorView {
    ErrorView {
        status: ErrorCode::Conflict,
        message: "Benchmark '"@ + name + "' is already running"@,
    }
}

/// Whether the answer to a benchmark that wants to run is right.
pub open spec fn acquires(
    before: SlotView,
    name: Seq<char>,
    now_us: u64,
    after: SlotView,
    r: Result<(), ReductError>,
) -> bool {
    &&& r is Ok <==> !before.locked
    &&& r is Ok ==> after == (SlotView { locked: true, running: Some((name, now_us)) })
    &&& r is Err ==> after == before
    &&& r matches Err(e) ==> e@ == already_running(
        match before.running {
            Some(running) => running.0,
            None => "unknown"@,
        },
    )
}

/// The place once it was given back.
pub open spec fn released() -> SlotView {
    SlotView { locked: false, running: None }
}

/// One benchmark runs at a time: the place is given to the first that asks, under its name and
/// with its start, and to no other before it is given back. Who has to wait learns who runs.
pub proof fn law_one_benchmark_at_a_time(
    name: Seq<char>,
    now_us: u64,
    after: SlotView,
    r: Result<(), ReductError>,
    other: Seq<char>,
    later_us: u64,
    after_other: SlotView,
    r_other: Result<(), ReductError>,
)
    requires
        acquires(released(), name, now_us, after, r),
        acquires(after, other, later_us, after_other, r_other),
    ensures
        r is Ok,
        after.running == Some((name, now_us)),
        r_other is Err,
        r_other->Err_0@.status == ErrorCode::Conflict,
        r_other->Err_0@.message == "Benchmark '"@ + name + "' is already running"@,
        after_other.running == Some((name, now_us)),
{
}

/// Whether a status shows who has the place.
pub open spec fn shows(status: BenchmarkStatus, slot: SlotView) -> bool {
    &&& status.busy == (slot.running is Some)
    &&& match slot.running {
        Some(running) => {
            &&& status.running is Some
            &&& status.running->0@ == running.0
            &&& status.started_at == Some(running.1)
        },
        None => status.running is None && status.started_at is None,
    }
}

/// The status shows the benchmark that was given the place, with its start, and nobody once the
/// place was given back.
pub proof fn law_status_shows_who_runs(
    name: Seq<char>,
    now_us: u64,
    after: SlotView,
    r: Result<(), ReductError>,
    running: BenchmarkStatus,
    idle: BenchmarkStatus,
)
    requires
        acquires(released(), name, now_us, after, r),
        shows(running, after),
        shows(idle, released()),
    ensures
        running.busy,
        running.running is Some && running.running->0@ == name,
        running.started_at == Some(now_us),
        !idle.busy && idle.running is None && idle.started_at is None,
{
}

impl BenchmarkSlot {
    pub fn new() -> (r: BenchmarkSlot)
        ensures
            r@ == (SlotView { locked: false, running: None }),
            r@ == released(),
    {
        BenchmarkSlot { locked: false, running: None }
    }

    /// Takes the place, unless it is taken. The error names the benchmark that runs, if it is
    /// known yet.
    pub fn try_acquire(&mut self, name: &str, now_us: u64) -> (r: Result<(), ReductError>)
        ensures
            r is Ok <==> !old(self)@.locked,
            r is Ok ==> final(self)@ == (SlotView { locked: true, running: Some((name@, now_us)) }),
            r is Err ==> final(self)@ == old(self)@,
            r matches Err(e) ==> e@ == already_running(
                match old(self)@.running {
                    Some(running) => running.0,
                    None => "unknown"@,
                },
            ),
            acquires(old(self)@, name@, now_us, final(self)@, r),
    {
        if self.locked {
            let running: &str = match &self.running {
                Some(running) => running.0.as_str(),
                None => "unknown",
            };
            let message = "Benchmark '".to_owned().concat(running).concat("' is already running");
            return Err(ReductError { status: ErrorCode::Conflict, message });
        }
        self.locked = true;
        self.running = Some((name.to_owned(), now_us));
        Ok(())
    }

    /// Gives the place back.
    pub fn release(&mut self)
        ensures
            final(self)@ == (SlotView { locked: false, running: None }),
            final(self)@ == released(),
    {
        self.running = None;
        self.locked = false;
    }

    pub fn status(&self) -> (r: BenchmarkStatus)
        ensures
            r.busy == (self@.running is Some),
            match self@.running {
                Some(running) => {
                    &&& r.running is Some
                    &&& r.running->0@ == running.0
                    &&& r.started_at == Some(running.1)
                },
                None => r.running is None && r.started_at is None,
            },
            shows(r, self@),
    {
        match &self.running {
            Some(running) => BenchmarkStatus {
                busy: true,
                running: Some(running.0.clone()),
                started_at: Some(running.1),
            },
            None => BenchmarkStatus { busy: false, running: None, started_at: None },
        }
    }
}

/// The error for a phase that took too long.
pub fn phase_timeout(phase: &str, max_duration: Duration) -> (r: ReductError)
    ensures
        r@ == (ErrorView {
            status: ErrorCode::Timeout,
            message: "Benchmark phase '"@ + phase@ + "' exceeded RS_BENCHMARK_MAX_DURATION ("@
                + decimal(max_duration.secs as nat) + " s)"@,
        }),
{
    let message = "Benchmark phase '".to_owned().concat(phase).concat(
        "' exceeded RS_BENCHMARK_MAX_DURATION (",
    ).concat(decimal_text(max_duration.as_secs()).as_str()).concat(" s)");
    ReductError { status: ErrorCode::Timeout, message }
}

} // verus!
