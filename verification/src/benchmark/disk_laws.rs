//! What holds of a whole run of the disk benchmark: which operations are made, in which order, and
//! what the result says of the time that each of them took.

use crate::benchmark::api::{
    stats_of, DiskBenchmarkRequest, DiskBenchmarkResult, DiskFsyncMode, PhaseResult,
};
use crate::benchmark::disk::{
    disk_done, disk_error, disk_failed, is_next, runnable, DiskAction, DiskPhase, DiskStep,
    DiskView, NextView,
};
use vstd::prelude::*;

verus! {

/// A run before its first operation.
pub open spec fn run_begins(request: DiskBenchmarkRequest, dir: Seq<char>, file: Seq<char>) -> DiskView {
    DiskView {
        request,
        dir,
        file,
        phase: DiskPhase::MakingDir,
        left: 0,
        latencies: Seq::empty(),
        write: None,
        fsync_us: None,
        sequential: None,
        random: None,
    }
}

/// What comes next, and the run, behind operations that were done: of each the time that it took
/// and the time since its phase began.
pub open spec fn run_after(m: DiskView, done: Seq<(u64, u64)>) -> (NextView, DiskView)
    decreases done.len(),
{
    if done.len() == 0 {
        (NextView::MakeDir, m)
    } else {
        disk_done(run_after(m, done.drop_last()).1, done.last().0, done.last().1)
    }
}

/// The times that some of the operations took.
pub open spec fn took(done: Seq<(u64, u64)>, from: int, to: int) -> Seq<u64> {
    Seq::new((to - from) as nat, |i: int| done[from + i].0)
}

/// How many blocks fill the file.
pub open spec fn blocks(request: DiskBenchmarkRequest) -> int {
    request.total_size as int / request.block_size as int
}

/// The position of the first write among the operations: the directory and the file are made
/// before.
pub open spec fn writes_at() -> int {
    2
}

/// The position behind the writes and the sync.
pub open spec fn reads_at(request: DiskBenchmarkRequest) -> int {
    writes_at() + blocks(request) + if request.fsync == DiskFsyncMode::End {
        1int
    } else {
        0
    }
}

/// The position behind the sequential reads; the file is opened before them.
pub open spec fn random_at(request: DiskBenchmarkRequest) -> int {
    reads_at(request) + if request.read_sequential {
        1 + blocks(request)
    } else {
        0
    }
}

/// How many operations a run makes.
pub open spec fn run_len(request: DiskBenchmarkRequest) -> int {
    random_at(request) + if request.random_reads > 0 {
        1 + request.random_reads
    } else {
        0
    }
}

/// Whether a phase is measured by the operations at some positions: a sample for each of them, the
/// time that it took, and in all the time since the phase began when the last of them was done.
pub open spec fn measured_by(
    phase: PhaseResult,
    done: Seq<(u64, u64)>,
    from: int,
    to: int,
    bytes: int,
) -> bool {
    &&& phase.latency == stats_of(took(done, from, to))
    &&& phase.elapsed_us == done[to - 1].1
    &&& phase.ops == to - from
    &&& phase.bytes == bytes
}

/// What a run has measured so far.
spec fn traces(m: DiskView, request: DiskBenchmarkRequest, done: Seq<(u64, u64)>) -> bool {
    let n = done.len() as int;
    let b = blocks(request);
    let (w, r, q) = (writes_at(), reads_at(request), random_at(request));
    let wrote = m.write is Some && measured_by(
        m.write->0,
        done,
        w,
        w + b,
        request.total_size as int,
    ) && m.fsync_us == (if request.fsync == DiskFsyncMode::End {
        Some(done[w + b].0)
    } else {
        None
    });
    let read = if request.read_sequential {
        m.sequential is Some && measured_by(
            m.sequential->0,
            done,
            r + 1,
            r + 1 + b,
            request.total_size as int,
        )
    } else {
        m.sequential is None
    };
    &&& m.request == request
    &&& match m.phase {
        DiskPhase::MakingDir => n == 0 && m.latencies.len() == 0,
        DiskPhase::MakingFile => n == 1 && m.latencies.len() == 0,
        DiskPhase::Writing => n < w + b && m.left == w + b - n && m.latencies == took(done, w, n)
            && n >= w,
        DiskPhase::Syncing => n == w + b && m.latencies.len() == 0 && request.fsync
            == DiskFsyncMode::End && m.write is Some && measured_by(
            m.write->0,
            done,
            w,
            w + b,
            request.total_size as int,
        ),
        DiskPhase::OpeningSequential => n == r && wrote && request.read_sequential
            && m.latencies.len() == 0,
        DiskPhase::ReadingSequential => r + 1 <= n < r + 1 + b && m.left == r + 1 + b - n
            && m.latencies == took(done, r + 1, n) && wrote && request.read_sequential,
        DiskPhase::OpeningRandom => n == q && wrote && read && request.random_reads > 0
            && m.latencies.len() == 0,
        DiskPhase::ReadingRandom => q + 1 <= n < run_len(request) && m.left == run_len(request) - n
            && m.latencies == took(done, q + 1, n) && wrote && read && request.random_reads > 0,
        DiskPhase::Finished => n == run_len(request) && wrote && read && if request.random_reads
            > 0 {
            m.random is Some && measured_by(
                m.random->0,
                done,
                q + 1,
                run_len(request),
                request.random_reads * request.random_read_size,
            )
        } else {
            m.random is None
        },
    }
    &&& m.phase is MakingDir || m.phase is MakingFile || m.phase is Writing ==> m.write is None
        && m.fsync_us is None
    &&& m.phase == DiskPhase::Syncing ==> m.fsync_us is None
    &&& !(m.phase is OpeningRandom || m.phase is ReadingRandom || m.phase is Finished)
        ==> m.sequential is None
    &&& m.phase != DiskPhase::Finished ==> m.random is None
}

proof fn lemma_took_push(done: Seq<(u64, u64)>, from: int)
    requires
        done.len() > 0,
        0 <= from < done.len(),
    ensures
        took(done, from, done.len() as int) == took(
            done.drop_last(),
            from,
            done.len() - 1,
        ).push(done.last().0),
{
    assert(took(done, from, done.len() as int) =~= took(
        done.drop_last(),
        from,
        done.len() - 1,
    ).push(done.last().0));
}

proof fn lemma_took_front(done: Seq<(u64, u64)>, from: int, to: int)
    requires
        0 <= from <= to < done.len(),
    ensures
        took(done, from, to) == took(done.drop_last(), from, to),
{
    assert(took(done, from, to) =~= took(done.drop_last(), from, to));
}

proof fn lemma_traces(
    request: DiskBenchmarkRequest,
    dir: Seq<char>,
    file: Seq<char>,
    done: Seq<(u64, u64)>,
)
    requires
        runnable(request),
        blocks(request) > 0,
        done.len() <= run_len(request),
    ensures
        traces(run_after(run_begins(request, dir, file), done).1, request, done),
    decreases done.len(),
{
    let start = run_begins(request, dir, file);
    if done.len() > 0 {
        let front = done.drop_last();
        let n = done.len() as int;
        let b = blocks(request);
        let (w, r, q) = (writes_at(), reads_at(request), random_at(request));
        lemma_traces(request, dir, file, front);
        if w < n {
            lemma_took_push(done, w);
        }
        if r + 1 < n {
            lemma_took_push(done, r + 1);
        }
        if q + 1 < n {
            lemma_took_push(done, q + 1);
        }
        if w + b < n {
            lemma_took_front(done, w, w + b);
        }
        if r + 1 + b < n {
            lemma_took_front(done, r + 1, r + 1 + b);
        }
        assert(took(done, w, w) =~= Seq::<u64>::empty());
        assert(took(done, r + 1, r + 1) =~= Seq::<u64>::empty());
        assert(took(done, q + 1, q + 1) =~= Seq::<u64>::empty());
        let m = run_after(start, front).1;
        if m.latencies.len() == 0 {
            assert(m.latencies =~= Seq::<u64>::empty());
        }
    }
}

/// Whether some operation comes next where so many are done: the directory is made, then the
/// file; then every block is written, and forced to the disk where that is asked for each; then
/// the file is forced to the disk where that is asked for once; then it is opened and read block
/// by block, and opened and read at random, as far as asked for.
pub open spec fn comes_next(request: DiskBenchmarkRequest, n: int, next: NextView) -> bool {
    let (w, r, q) = (writes_at(), reads_at(request), random_at(request));
    if n == 0 {
        next == NextView::MakeDir
    } else if n == 1 {
        next == NextView::MakeFile
    } else if n < w + blocks(request) {
        next == NextView::Write(request.fsync == DiskFsyncMode::Each)
    } else if n < r {
        next == NextView::Sync
    } else if n < q {
        if n == r {
            next == NextView::Open
        } else {
            next == NextView::Read
        }
    } else if n < run_len(request) {
        if n == q {
            next == NextView::Open
        } else {
            next == NextView::ReadAt
        }
    } else {
        next == NextView::Succeed
    }
}

/// The operations of a run come in their order, every one as often as the request says, and the
/// run succeeds behind the last of them, not before.
pub proof fn law_operations_come_in_order(
    request: DiskBenchmarkRequest,
    dir: Seq<char>,
    file: Seq<char>,
    done: Seq<(u64, u64)>,
)
    requires
        runnable(request),
        blocks(request) > 0,
        done.len() <= run_len(request),
    ensures
        comes_next(
            request,
            done.len() as int,
            run_after(run_begins(request, dir, file), done).0,
        ),
{
    lemma_traces(request, dir, file, done);
    if done.len() > 0 {
        lemma_traces(request, dir, file, done.drop_last());
    }
}

/// The result of a run tells the time of every single operation: the latency of a phase is made of
/// the times that its operations took, each once and no others, and its duration is the time since
/// the phase began when its last operation was done. The bytes are those that were written or read.
pub proof fn law_result_tells_what_was_measured(
    request: DiskBenchmarkRequest,
    dir: Seq<char>,
    file: Seq<char>,
    done: Seq<(u64, u64)>,
    action: DiskAction,
    result: DiskBenchmarkResult,
)
    requires
        runnable(request),
        blocks(request) > 0,
        done.len() == run_len(request),
        ({
            let (next, m) = run_after(run_begins(request, dir, file), done);
            is_next(action, next, m)
        }),
        action == DiskAction::Finish(Ok(result)),
    ensures
        ({
            let (w, r, q) = (writes_at(), reads_at(request), random_at(request));
            let b = blocks(request);
            &&& measured_by(result.write, done, w, w + b, request.total_size as int)
            &&& result.fsync_us == (if request.fsync == DiskFsyncMode::End {
                Some(done[w + b].0)
            } else {
                None
            })
            &&& result.read_sequential is Some <==> request.read_sequential
            &&& result.read_sequential is Some ==> measured_by(
                result.read_sequential->0,
                done,
                r + 1,
                r + 1 + b,
                request.total_size as int,
            )
            &&& result.random_read is Some <==> request.random_reads > 0
            &&& result.random_read is Some ==> measured_by(
                result.random_read->0,
                done,
                q + 1,
                q + 1 + request.random_reads,
                request.random_reads * request.random_read_size,
            )
            &&& result.path@ == file
            &&& result.block_size == request.block_size
            &&& result.total_size == request.total_size
            &&& result.fsync == request.fsync
        }),
{
    law_operations_come_in_order(request, dir, file, done);
    lemma_traces(request, dir, file, done);
    lemma_file_stays(run_begins(request, dir, file), done);
}

proof fn lemma_file_stays(m: DiskView, done: Seq<(u64, u64)>)
    ensures
        run_after(m, done).1.file == m.file,
        run_after(m, done).1.dir == m.dir,
    decreases done.len(),
{
    if done.len() > 0 {
        lemma_file_stays(m, done.drop_last());
    }
}

/// An operation that fails ends the run with an error that names the step, what it was made on and
/// why it failed: the directory where it could not be made, else the file.
pub proof fn law_failure_ends_the_run(
    request: DiskBenchmarkRequest,
    dir: Seq<char>,
    file: Seq<char>,
    done: Seq<(u64, u64)>,
    step: DiskStep,
    cause: Seq<char>,
)
    requires
        runnable(request),
        blocks(request) > 0,
        done.len() < run_len(request),
    ensures
        ({
            let m = run_after(run_begins(request, dir, file), done).1;
            let (next, ended) = disk_failed(m, step, cause);
            &&& next == NextView::Fail(
                disk_error(
                    step,
                    if done.len() == 0 {
                        dir
                    } else {
                        file
                    },
                    cause,
                ),
            )
            &&& ended.phase == DiskPhase::Finished
        }),
{
    lemma_traces(request, dir, file, done);
    lemma_file_stays(run_begins(request, dir, file), done);
}

} // verus!
