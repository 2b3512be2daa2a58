//! The disk benchmark: raw file access under the data path.
//!
//! A [`DiskRun`] says which file operation comes next; the caller makes it and reports how long
//! it took.

use crate::benchmark::api::{
    phase_of, DiskBenchmarkRequest, DiskBenchmarkResult, DiskFsyncMode, PhaseResult,
};
use crate::benchmark::disk_laws::run_begins;
use crate::benchmark::random::random_up_to;
use crate::error::{ErrorCode, ErrorView, ReductError};
use crate::storage::wal::{path_debug, path_debug_text};
use vstd::prelude::*;

verus! {

pub const BENCHMARK_DIR: &'static str = ".benchmark";

pub const BENCHMARK_FILE: &'static str = "bench.bin";

/// What a run waits for.
#[derive(Debug, Clone, Copy, PartialEq, Eq, Structural)]
pub enum DiskPhase {
    MakingDir,
    MakingFile,
    Writing,
    Syncing,
    OpeningSequential,
    ReadingSequential,
    OpeningRandom,
    ReadingRandom,
    Finished,
}

/// A file operation that can fail.
#[derive(Debug, Clone, Copy, PartialEq, Eq, Structural)]
pub enum DiskStep {
    Create,
    Write,
    Fsync,
    Open,
    Seek,
    Read,
}

pub open spec fn step_name(step: DiskStep) -> Seq<char> {
    match step {
        DiskStep::Create => "create"@,
        DiskStep::Write => "write"@,
        DiskStep::Fsync => "fsync"@,
        DiskStep::Open => "open"@,
        DiskStep::Seek => "seek"@,
        DiskStep::Read => "read"@,
    }
}

/// What the caller is to do.
pub enum DiskAction {
    /// Make the directory of the run.
    MakeDir,
    /// Make the file, then restart the clock of the phase.
    MakeFile,
    /// Write a block, and force it to the disk where `sync` is set.
    Write { sync: bool },
    /// Force the file to the disk.
    Sync,
    /// Open the file for reading, then restart the clock of the phase.
    Open,
    /// Read a block.
    Read,
    /// Read from an offset.
    ReadAt { offset: u64, len: u64 },
    Finish(Result<DiskBenchmarkResult, ReductError>),
}

/// What the caller reports.
pub enum DiskEvent {
    /// The operation is done: the time that it took, and the time since the phase began.
    Done { op_us: u64, phase_us: u64 },
    Failed { step: DiskStep, cause: String },
}

/// A run: what was asked for, where its files are, what it waits for, how many operations of the
/// phase are left, how long those before took, and the results so far.
pub struct DiskView {
    pub request: DiskBenchmarkRequest,
    pub dir: Seq<char>,
    pub file: Seq<char>,
    pub phase: DiskPhase,
    pub left: u64,
    pub latencies: Seq<u64>,
    pub write: Option<PhaseResult>,
    pub fsync_us: Option<u64>,
    pub sequential: Option<PhaseResult>,
    pub random: Option<PhaseResult>,
}

/// What comes next, up to the offset of a random read.
pub enum NextView {
    MakeDir,
    MakeFile,
    Write(bool),
    Sync,
    Open,
    Read,
    ReadAt,
    Succeed,
    Fail(ErrorView),
}

pub open spec fn blocks_of(request: DiskBenchmarkRequest) -> u64 {
    request.total_size / request.block_size
}

/// Whether a request can be run.
pub open spec fn runnable(request: DiskBenchmarkRequest) -> bool {
    &&& request.block_size > 0
    &&& request.random_reads > 0 ==> request.random_read_size <= request.total_size
    &&& request.random_reads * request.random_read_size <= u64::MAX
}

pub open spec fn disk_error(step: DiskStep, path: Seq<char>, cause: Seq<char>) -> ErrorView {
    ErrorView {
        status: ErrorCode::InternalServerError,
        message: "Disk benchmark failed to "@ + step_name(step) + " "@ + path_debug(path) + ": "@
            + cause,
    }
}

/// Goes on to the random reads, if there are any.
pub open spec fn after_sequential(m: DiskView) -> (NextView, DiskView) {
    if m.request.random_reads > 0 {
        (NextView::Open, DiskView { phase: DiskPhase::OpeningRandom, ..m })
    } else {
        (NextView::Succeed, DiskView { phase: DiskPhase::Finished, ..m })
    }
}

/// Goes on to the sequential read, if it is asked for.
pub open spec fn after_sync(m: DiskView) -> (NextView, DiskView) {
    if m.request.read_sequential {
        (NextView::Open, DiskView { phase: DiskPhase::OpeningSequential, ..m })
    } else {
        after_sequential(m)
    }
}

/// Ends the write phase.
pub open spec fn end_writing(m: DiskView, elapsed_us: u64) -> (NextView, DiskView) {
    let ended = DiskView {
        write: Some(
            phase_of(elapsed_us, m.request.total_size, blocks_of(m.request), m.latencies),
        ),
        latencies: Seq::empty(),
        ..m
    };
    if m.request.fsync == DiskFsyncMode::End {
        (NextView::Sync, DiskView { phase: DiskPhase::Syncing, ..ended })
    } else {
        after_sync(ended)
    }
}

/// Ends the sequential read.
pub open spec fn end_sequential(m: DiskView, elapsed_us: u64) -> (NextView, DiskView) {
    after_sequential(
        DiskView {
            sequential: Some(
                phase_of(elapsed_us, m.request.total_size, blocks_of(m.request), m.latencies),
            ),
            latencies: Seq::empty(),
            ..m
        },
    )
}

/// Ends the random reads.
pub open spec fn end_random(m: DiskView, elapsed_us: u64) -> (NextView, DiskView) {
    (
        NextView::Succeed,
        DiskView {
            random: Some(
                phase_of(
                    elapsed_us,
                    (m.request.random_reads * m.request.random_read_size) as u64,
                    m.request.random_reads,
                    m.latencies,
                ),
            ),
            latencies: Seq::empty(),
            phase: DiskPhase::Finished,
            ..m
        },
    )
}

/// Goes on with a phase of which operations are left, or ends it.
pub open spec fn carry_on(m: DiskView, elapsed_us: u64) -> (NextView, DiskView) {
    match m.phase {
        DiskPhase::Writing => if m.left > 0 {
            (NextView::Write(m.request.fsync == DiskFsyncMode::Each), m)
        } else {
            end_writing(m, elapsed_us)
        },
        DiskPhase::ReadingSequential => if m.left > 0 {
            (NextView::Read, m)
        } else {
            end_sequential(m, elapsed_us)
        },
        _ => if m.left > 0 {
            (NextView::ReadAt, m)
        } else {
            end_random(m, elapsed_us)
        },
    }
}

/// What follows an operation that is done.
pub open spec fn disk_done(m: DiskView, op_us: u64, phase_us: u64) -> (NextView, DiskView) {
    match m.phase {
        DiskPhase::MakingDir => (
            NextView::MakeFile,
            DiskView { phase: DiskPhase::MakingFile, ..m },
        ),
        DiskPhase::MakingFile => carry_on(
            DiskView { phase: DiskPhase::Writing, left: blocks_of(m.request), ..m },
            phase_us,
        ),
        DiskPhase::Syncing => after_sync(DiskView { fsync_us: Some(op_us), ..m }),
        DiskPhase::OpeningSequential => carry_on(
            DiskView { phase: DiskPhase::ReadingSequential, left: blocks_of(m.request), ..m },
            phase_us,
        ),
        DiskPhase::OpeningRandom => carry_on(
            DiskView { phase: DiskPhase::ReadingRandom, left: m.request.random_reads, ..m },
            phase_us,
        ),
        _ => carry_on(
            DiskView { left: (m.left - 1) as u64, latencies: m.latencies.push(op_us), ..m },
            phase_us,
        ),
    }
}

/// What follows an operation that failed.
pub open spec fn disk_failed(m: DiskView, step: DiskStep, cause: Seq<char>) -> (NextView, DiskView) {
    let path = if m.phase == DiskPhase::MakingDir {
        m.dir
    } else {
        m.file
    };
    (
        NextView::Fail(disk_error(step, path, cause)),
        DiskView { phase: DiskPhase::Finished, ..m },
    )
}

/// Whether a result reports what a run found.
pub open spec fn reports(result: DiskBenchmarkResult, m: DiskView) -> bool {
    &&& result.path@ == m.file
    &&& result.block_size == m.request.block_size
    &&& result.total_size == m.request.total_size
    &&& result.fsync == m.request.fsync
    &&& m.write == Some(result.write)
    &&& result.fsync_us == m.fsync_us
    &&& result.read_sequential == m.sequential
    &&& result.random_read == m.random
}

/// Whether an action is what comes next; a random read starts anywhere in the file where it
/// fits.
pub open spec fn is_next(action: DiskAction, next: NextView, m: DiskView) -> bool {
    match next {
        NextView::MakeDir => action == DiskAction::MakeDir,
        NextView::MakeFile => action == DiskAction::MakeFile,
        NextView::Write(sync) => action == (DiskAction::Write { sync }),
        NextView::Sync => action == DiskAction::Sync,
        NextView::Open => action == DiskAction::Open,
        NextView::Read => action == DiskAction::Read,
        NextView::ReadAt => match action {
            DiskAction::ReadAt { offset, len } => len == m.request.random_read_size && offset + len
                <= m.request.total_size,
            _ => false,
        },
        NextView::Succeed => match action {
            DiskAction::Finish(Ok(result)) => reports(result, m),
            _ => false,
        },
        NextView::Fail(error) => match action {
            DiskAction::Finish(Err(e)) => e@ == error,
            _ => false,
        },
    }
}

/// Whether a phase result counts the given operations and bytes, with a sample for each.
pub open spec fn counts(phase: PhaseResult, ops: u64, bytes: int) -> bool {
    phase.ops == ops && phase.bytes == bytes && phase.latency.samples == ops
}

impl DiskView {
    /// What a run has found in each of its phases.
    pub open spec fn inv(self) -> bool {
        let blocks = blocks_of(self.request);
        &&& runnable(self.request)
        &&& self.write matches Some(write) ==> counts(write, blocks, self.request.total_size as int)
        &&& self.sequential matches Some(phase) ==> self.request.read_sequential && counts(
            phase,
            blocks,
            self.request.total_size as int,
        )
        &&& self.random matches Some(phase) ==> counts(
            phase,
            self.request.random_reads,
            self.request.random_reads * self.request.random_read_size,
        )
        &&& self.fsync_us is Some ==> self.request.fsync == DiskFsyncMode::End
        &&& match self.phase {
            DiskPhase::Writing => self.left > 0 && self.latencies.len() + self.left == blocks,
            DiskPhase::ReadingSequential => self.left > 0 && self.latencies.len() + self.left
                == blocks && self.request.read_sequential,
            DiskPhase::ReadingRandom => self.left > 0 && self.latencies.len() + self.left
                == self.request.random_reads,
            DiskPhase::OpeningSequential => self.latencies.len() == 0
                && self.request.read_sequential,
            DiskPhase::OpeningRandom => self.latencies.len() == 0 && self.request.random_reads > 0,
            DiskPhase::Finished => true,
            _ => self.latencies.len() == 0,
        }
        &&& match self.phase {
            DiskPhase::MakingDir => self.write is None,
            DiskPhase::MakingFile => self.write is None,
            DiskPhase::Writing => self.write is None,
            DiskPhase::Syncing => self.write is Some && self.request.fsync == DiskFsyncMode::End
                && self.fsync_us is None,
            DiskPhase::Finished => true,
            _ => self.write is Some && self.synced(),
        }
        &&& match self.phase {
            DiskPhase::OpeningRandom => self.read_through(),
            DiskPhase::ReadingRandom => self.read_through(),
            DiskPhase::Finished => true,
            _ => self.sequential is None,
        }
        &&& self.phase != DiskPhase::Finished ==> self.random is None
        &&& self.phase is MakingDir || self.phase is MakingFile || self.phase is Writing
            ==> self.fsync_us is None
    }

    pub open spec fn synced(self) -> bool {
        self.fsync_us is Some <==> self.request.fsync == DiskFsyncMode::End
    }

    pub open spec fn read_through(self) -> bool {
        self.sequential is Some <==> self.request.read_sequential
    }

    /// Whether a run has done all that was asked for.
    pub open spec fn complete(self) -> bool {
        &&& self.write is Some
        &&& self.synced()
        &&& self.read_through()
        &&& self.random is Some <==> self.request.random_reads > 0
    }
}

/// A run of the disk benchmark.
pub struct DiskRun {
    request: DiskBenchmarkRequest,
    dir: String,
    file: String,
    phase: DiskPhase,
    left: u64,
    latencies: Vec<u64>,
    write: Option<PhaseResult>,
    fsync_us: Option<u64>,
    sequential: Option<PhaseResult>,
    random: Option<PhaseResult>,
}

impl View for DiskRun {
    type V = DiskView;

    closed spec fn view(&self) -> DiskView {
        DiskView {
            request: self.request,
            dir: self.dir@,
            file: self.file@,
            phase: self.phase,
            left: self.left,
            latencies: self.latencies@,
            write: self.write,
            fsync_us: self.fsync_us,
            sequential: self.sequential,
            random: self.random,
        }
    }
}

fn step_text(step: DiskStep) -> (r: &'static str)
    ensures
        r@ == step_name(step),
{
    match step {
        DiskStep::Create => "create",
        DiskStep::Write => "write",
        DiskStep::Fsync => "fsync",
        DiskStep::Open => "open",
        DiskStep::Seek => "seek",
        DiskStep::Read => "read",
    }
}

/// The error for a file operation that failed.
pub fn io_error(step: DiskStep, path: &str, cause: &str) -> (r: ReductError)
    ensures
        r@ == disk_error(step, path@, cause@),
{
    let message = "Disk benchmark failed to ".to_owned().concat(step_text(step)).concat(
        " ",
    ).concat(path_debug_text(path).as_str()).concat(": ").concat(cause);
    ReductError { status: ErrorCode::InternalServerError, message }
}

impl DiskRun {
    /// A run in a directory, with a file in it. The first thing to do is to make the directory.
    pub fn new(request: DiskBenchmarkRequest, dir: String, file: String) -> (r: DiskRun)
        requires
            runnable(request),
        ensures
            r@ == (DiskView {
                request,
                dir: dir@,
                file: file@,
                phase: DiskPhase::MakingDir,
                left: 0,
                latencies: Seq::empty(),
                write: None,
                fsync_us: None,
                sequential: None,
                random: None,
            }),
            r@ == run_begins(request, dir@, file@),
            r@.inv(),
    {
        DiskRun {
            request,
            dir,
            file,
            phase: DiskPhase::MakingDir,
            left: 0,
            latencies: Vec::new(),
            write: None,
            fsync_us: None,
            sequential: None,
            random: None,
        }
    }

    fn take_latencies(&mut self) -> (r: Vec<u64>)
        ensures
            r@ == old(self)@.latencies,
            final(self)@ == (DiskView { latencies: Seq::empty(), ..old(self)@ }),
    {
        let mut latencies: Vec<u64> = Vec::new();
        std::mem::swap(&mut latencies, &mut self.latencies);
        latencies
    }

    fn succeed(&mut self) -> (r: DiskAction)
        requires
            old(self)@.write is Some,
        ensures
            final(self)@ == (DiskView { phase: DiskPhase::Finished, ..old(self)@ }),
            is_next(r, NextView::Succeed, final(self)@),
    {
        self.phase = DiskPhase::Finished;
        DiskAction::Finish(
            Ok(
                DiskBenchmarkResult {
                    path: self.file.clone(),
                    block_size: self.request.block_size,
                    total_size: self.request.total_size,
                    fsync: self.request.fsync,
                    write: self.write.unwrap(),
                    fsync_us: self.fsync_us,
                    read_sequential: self.sequential,
                    random_read: self.random,
                },
            ),
        )
    }

    fn after_sequential(&mut self) -> (r: DiskAction)
        requires
            old(self)@.write is Some,
        ensures
            final(self)@ == after_sequential(old(self)@).1,
            is_next(r, after_sequential(old(self)@).0, final(self)@),
    {
        if self.request.random_reads > 0 {
            self.phase = DiskPhase::OpeningRandom;
            DiskAction::Open
        } else {
            self.succeed()
        }
    }

    fn after_sync(&mut self) -> (r: DiskAction)
        requires
            old(self)@.write is Some,
        ensures
            final(self)@ == after_sync(old(self)@).1,
            is_next(r, after_sync(old(self)@).0, final(self)@),
    {
        if self.request.read_sequential {
            self.phase = DiskPhase::OpeningSequential;
            DiskAction::Open
        } else {
            self.after_sequential()
        }
    }

    fn carry_on(&mut self, elapsed_us: u64) -> (r: DiskAction)
        requires
            runnable(old(self)@.request),
            old(self)@.phase == DiskPhase::Writing || old(self)@.write is Some,
            old(self)@.phase == DiskPhase::ReadingRandom ==> old(self)@.request.random_reads > 0,
            old(self)@.phase == DiskPhase::Writing || old(self)@.phase
                == DiskPhase::ReadingSequential || old(self)@.phase == DiskPhase::ReadingRandom,
        ensures
            final(self)@ == carry_on(old(self)@, elapsed_us).1,
            is_next(r, carry_on(old(self)@, elapsed_us).0, final(self)@),
    {
        let blocks: u64 = self.request.total_size / self.request.block_size;
        match self.phase {
            DiskPhase::Writing => {
                if self.left > 0 {
                    return DiskAction::Write { sync: self.request.fsync == DiskFsyncMode::Each };
                }
                let samples = self.take_latencies();
                self.write = Some(
                    PhaseResult::new(elapsed_us, self.request.total_size, blocks, samples),
                );
                if self.request.fsync == DiskFsyncMode::End {
                    self.phase = DiskPhase::Syncing;
                    DiskAction::Sync
                } else {
                    self.after_sync()
                }
            },
            DiskPhase::ReadingSequential => {
                if self.left > 0 {
                    return DiskAction::Read;
                }
                let samples = self.take_latencies();
                self.sequential = Some(
                    PhaseResult::new(elapsed_us, self.request.total_size, blocks, samples),
                );
                self.after_sequential()
            },
            _ => {
                if self.left > 0 {
                    let max_offset: u64 = self.request.total_size - self.request.random_read_size;
                    return DiskAction::ReadAt {
                        offset: random_up_to(max_offset),
                        len: self.request.random_read_size,
                    };
                }
                let samples = self.take_latencies();
                self.random = Some(
                    PhaseResult::new(
                        elapsed_us,
                        self.request.random_reads * self.request.random_read_size,
                        self.request.random_reads,
                        samples,
                    ),
                );
                self.succeed()
            },
        }
    }

    /// What to do on an event.
    pub fn step(&mut self, event: DiskEvent) -> (r: DiskAction)
        requires
            old(self)@.inv(),
            old(self)@.phase != DiskPhase::Finished,
        ensures
            final(self)@.inv(),
            match event {
                DiskEvent::Done { op_us, phase_us } => {
                    let (next, m) = disk_done(old(self)@, op_us, phase_us);
                    final(self)@ == m && is_next(r, next, m)
                },
                DiskEvent::Failed { step, cause } => {
                    let (next, m) = disk_failed(old(self)@, step, cause@);
                    final(self)@ == m && is_next(r, next, m)
                },
            },
    {
        let ghost before = self@;
        match event {
            DiskEvent::Done { op_us, phase_us } => {
                proof {
                    lemma_disk_done(before, op_us, phase_us);
                }
                match self.phase {
                    DiskPhase::MakingDir => {
                        self.phase = DiskPhase::MakingFile;
                        DiskAction::MakeFile
                    },
                    DiskPhase::MakingFile => {
                        self.phase = DiskPhase::Writing;
                        self.left = self.request.total_size / self.request.block_size;
                        self.carry_on(phase_us)
                    },
                    DiskPhase::Syncing => {
                        self.fsync_us = Some(op_us);
                        self.after_sync()
                    },
                    DiskPhase::OpeningSequential => {
                        self.phase = DiskPhase::ReadingSequential;
                        self.left = self.request.total_size / self.request.block_size;
                        self.carry_on(phase_us)
                    },
                    DiskPhase::OpeningRandom => {
                        self.phase = DiskPhase::ReadingRandom;
                        self.left = self.request.random_reads;
                        self.carry_on(phase_us)
                    },
                    _ => {
                        self.left = self.left - 1;
                        self.latencies.push(op_us);
                        self.carry_on(phase_us)
                    },
                }
            },
            DiskEvent::Failed { step, cause } => {
                let error: ReductError = if self.phase == DiskPhase::MakingDir {
                    io_error(step, self.dir.as_str(), cause.as_str())
                } else {
                    io_error(step, self.file.as_str(), cause.as_str())
                };
                self.phase = DiskPhase::Finished;
                DiskAction::Finish(Err(error))
            },
        }
    }
}

proof fn lemma_disk_done(m: DiskView, op_us: u64, phase_us: u64)
    requires
        m.inv(),
        m.phase != DiskPhase::Finished,
    ensures
        disk_done(m, op_us, phase_us).1.inv(),
        disk_done(m, op_us, phase_us).0 is Succeed ==> disk_done(m, op_us, phase_us).1.complete(),
        m.phase == DiskPhase::ReadingRandom ==> m.request.random_reads > 0,
{
}

/// A run that succeeds has done all that was asked for: every block was written, forced to the
/// disk as often as asked, and read where asked, and every random read was made, each with a
/// sample of its time.
pub proof fn law_successful_run_is_complete(m: DiskView, op_us: u64, phase_us: u64)
    requires
        m.inv(),
        m.phase != DiskPhase::Finished,
        disk_done(m, op_us, phase_us).0 is Succeed,
    ensures
        disk_done(m, op_us, phase_us).1.complete(),
        disk_done(m, op_us, phase_us).1.inv(),
{
    lemma_disk_done(m, op_us, phase_us);
}

} // verus!
