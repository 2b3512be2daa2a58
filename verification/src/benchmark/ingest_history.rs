//! What the result of an ingest benchmark says of everything that its writers did.

use crate::benchmark::api::{stats_of, IngestBenchmarkRequest};
use crate::benchmark::ingest::{
    ends_as_found, entry_name, reports_phase, written_to, IngestOutcome, IngestPhase, WriterStats,
};
use crate::benchmark::ingest_laws::gathered;
use crate::benchmark::latency_laws::law_shorter_times_give_shorter_latencies;
use crate::error::ReductError;
use crate::numbers::in_order;
use vstd::prelude::*;

verus! {

/// What a writer did with a record: it wrote it, where beginning took one time and the whole
/// another, or it failed.
pub enum Attempt {
    Written { entry_idx: usize, timestamp: u64, size: u64, begin_us: u64, total_us: u64 },
    Failed(ReductError),
}

/// Whether what a writer has found changes as an attempt says.
pub open spec fn counted(before: WriterStats, attempt: Attempt, after: WriterStats) -> bool {
    match attempt {
        Attempt::Written { entry_idx, timestamp, size, begin_us, total_us } => after.with_written(
            before,
            entry_idx,
            timestamp,
            size,
            begin_us,
            total_us,
        ),
        Attempt::Failed(error) => after.with_failed(before, error),
    }
}

/// Whether a writer has gone through its attempts, one after the other, from nothing.
pub open spec fn went_through(attempts: Seq<Attempt>, states: Seq<WriterStats>) -> bool {
    &&& states.len() == attempts.len() + 1
    &&& states[0].nothing()
    &&& forall|i: int|
        0 <= i < attempts.len() ==> counted(states[i], #[trigger] attempts[i], states[i + 1])
}

/// How long every whole write took.
pub open spec fn whole_times(attempts: Seq<Attempt>) -> Seq<u64>
    decreases attempts.len(),
{
    if attempts.len() == 0 {
        Seq::empty()
    } else {
        match attempts.last() {
            Attempt::Written { total_us, .. } => whole_times(attempts.drop_last()).push(total_us),
            Attempt::Failed(_) => whole_times(attempts.drop_last()),
        }
    }
}

/// How long every write took to begin.
pub open spec fn begin_times(attempts: Seq<Attempt>) -> Seq<u64>
    decreases attempts.len(),
{
    if attempts.len() == 0 {
        Seq::empty()
    } else {
        match attempts.last() {
            Attempt::Written { begin_us, .. } => begin_times(attempts.drop_last()).push(begin_us),
            Attempt::Failed(_) => begin_times(attempts.drop_last()),
        }
    }
}

/// The bytes that were written.
pub open spec fn written_bytes(attempts: Seq<Attempt>) -> nat
    decreases attempts.len(),
{
    if attempts.len() == 0 {
        0
    } else {
        written_bytes(attempts.drop_last()) + match attempts.last() {
            Attempt::Written { size, .. } => size as nat,
            Attempt::Failed(_) => 0,
        }
    }
}

/// How many attempts failed.
pub open spec fn failures(attempts: Seq<Attempt>) -> nat
    decreases attempts.len(),
{
    if attempts.len() == 0 {
        0
    } else {
        failures(attempts.drop_last()) + if attempts.last() is Failed {
            1nat
        } else {
            0
        }
    }
}

/// The first failure.
pub open spec fn first_failure(attempts: Seq<Attempt>) -> Option<ReductError>
    decreases attempts.len(),
{
    if attempts.len() == 0 {
        None
    } else {
        match (first_failure(attempts.drop_last()), attempts.last()) {
            (Some(error), _) => Some(error),
            (None, Attempt::Failed(error)) => Some(error),
            _ => None,
        }
    }
}

/// The timestamps that were written to an entry.
pub open spec fn stamps(attempts: Seq<Attempt>, entry: int) -> Seq<u64>
    decreases attempts.len(),
{
    if attempts.len() == 0 {
        Seq::empty()
    } else {
        let before = stamps(attempts.drop_last(), entry);
        match attempts.last() {
            Attempt::Written { entry_idx, timestamp, .. } => if entry_idx == entry {
                before.push(timestamp)
            } else {
                before
            },
            Attempt::Failed(_) => before,
        }
    }
}

/// What a writer has found is what it did: the time of every whole write among the whole times,
/// the time of every beginning among the others, the bytes, the failures and the first of them.
pub proof fn law_writer_tells_what_it_did(
    attempts: Seq<Attempt>,
    states: Seq<WriterStats>,
    entry: int,
)
    requires
        went_through(attempts, states),
    ensures
        ({
            let stats = states.last();
            &&& stats.total_us@ == whole_times(attempts)
            &&& stats.begin_us@ == begin_times(attempts)
            &&& stats.bytes == written_bytes(attempts)
            &&& stats.errors == failures(attempts)
            &&& stats.first_error == first_failure(attempts)
            &&& written_to(stats.written@, entry) == stamps(attempts, entry)
            &&& whole_times(attempts).len() + failures(attempts) == attempts.len()
        }),
    decreases attempts.len(),
{
    let stats = states.last();
    if attempts.len() == 0 {
        assert(stats.total_us@ =~= Seq::<u64>::empty());
        assert(stats.begin_us@ =~= Seq::<u64>::empty());
        assert(stats.written@ =~= Seq::<(usize, u64)>::empty());
    } else {
        let front = attempts.drop_last();
        let n = attempts.len() - 1;
        let states1 = states.drop_last();
        assert forall|i: int| 0 <= i < front.len() implies counted(
            states1[i],
            #[trigger] front[i],
            states1[i + 1],
        ) by {
            assert(front[i] == attempts[i]);
        }
        law_writer_tells_what_it_did(front, states1, entry);
        assert(counted(states[n], attempts[n], states[n + 1]));
        if let Attempt::Written { entry_idx, timestamp, .. } = attempts[n] {
            assert(stats.written@.drop_last() =~= states[n].written@);
        }
    }
}

/// What several writers did, one behind the other.
pub open spec fn all_attempts(writers: Seq<Seq<Attempt>>) -> Seq<Attempt>
    decreases writers.len(),
{
    if writers.len() == 0 {
        Seq::empty()
    } else {
        all_attempts(writers.drop_last()) + writers.last()
    }
}

proof fn lemma_joined(a: Seq<Attempt>, b: Seq<Attempt>, entry: int)
    ensures
        whole_times(a + b) == whole_times(a) + whole_times(b),
        begin_times(a + b) == begin_times(a) + begin_times(b),
        written_bytes(a + b) == written_bytes(a) + written_bytes(b),
        failures(a + b) == failures(a) + failures(b),
        stamps(a + b, entry) == stamps(a, entry) + stamps(b, entry),
        first_failure(a + b) == (match first_failure(a) {
            Some(error) => Some(error),
            None => first_failure(b),
        }),
    decreases b.len(),
{
    if b.len() == 0 {
        assert(a + b =~= a);
        assert(whole_times(a) + whole_times(b) =~= whole_times(a));
        assert(begin_times(a) + begin_times(b) =~= begin_times(a));
        assert(stamps(a, entry) + stamps(b, entry) =~= stamps(a, entry));
    } else {
        let front = b.drop_last();
        lemma_joined(a, front, entry);
        assert((a + b).drop_last() =~= a + front);
        assert((a + b).last() == b.last());
        assert(whole_times(a + b) =~= whole_times(a) + whole_times(b));
        assert(begin_times(a + b) =~= begin_times(a) + begin_times(b));
        assert(stamps(a + b, entry) =~= stamps(a, entry) + stamps(b, entry));
    }
}

/// Whether each of some writers has gone through its attempts and found what it has.
pub open spec fn all_went_through(
    writers: Seq<Seq<Attempt>>,
    states: Seq<Seq<WriterStats>>,
    stats: Seq<WriterStats>,
) -> bool {
    &&& writers.len() == states.len()
    &&& writers.len() == stats.len()
    &&& forall|k: int|
        0 <= k < writers.len() ==> went_through(#[trigger] writers[k], states[k]) && stats[k]
            == states[k].last()
}

proof fn lemma_gathered_attempts(
    entries: nat,
    writers: Seq<Seq<Attempt>>,
    states: Seq<Seq<WriterStats>>,
    stats: Seq<WriterStats>,
    entry: int,
)
    requires
        all_went_through(writers, states, stats),
        0 <= entry < entries,
        written_bytes(all_attempts(writers)) <= u64::MAX,
        failures(all_attempts(writers)) <= u64::MAX,
    ensures
        ({
            let totals = gathered(entries, stats);
            let all = all_attempts(writers);
            &&& totals.entries == entries
            &&& totals.total_us == whole_times(all)
            &&& totals.begin_us == begin_times(all)
            &&& totals.bytes == written_bytes(all)
            &&& totals.errors == failures(all)
            &&& totals.first_error == first_failure(all)
            &&& totals.timestamps[entry] == stamps(all, entry)
        }),
    decreases writers.len(),
{
    let totals = gathered(entries, stats);
    if writers.len() > 0 {
        let n = writers.len() - 1;
        let front = writers.drop_last();
        lemma_joined(all_attempts(front), writers.last(), entry);
        assert forall|k: int| 0 <= k < front.len() implies went_through(
            #[trigger] front[k],
            states.drop_last()[k],
        ) && stats.drop_last()[k] == states.drop_last()[k].last() by {
            assert(front[k] == writers[k]);
        }
        lemma_gathered_attempts(entries, front, states.drop_last(), stats.drop_last(), entry);
        assert(went_through(writers[n], states[n]) && stats[n] == states[n].last());
        law_writer_tells_what_it_did(writers[n], states[n], entry);
        assert(totals.timestamps[entry] == gathered(entries, stats.drop_last()).timestamps[entry]
            + written_to(stats.last().written@, entry));
    }
}

/// The result of a benchmark tells what its writers did, whatever that was. The latency of the
/// writes is that of the whole writes, and the latency of beginning them that of their beginnings;
/// the operations are the records that were written, the bytes are theirs, and the errors are the
/// failures. Every entry, by its name, has the timestamps that were written to it, in order.
pub proof fn law_result_tells_what_was_done(
    request: IngestBenchmarkRequest,
    entries: usize,
    writers: Seq<Seq<Attempt>>,
    states: Seq<Seq<WriterStats>>,
    stats: Seq<WriterStats>,
    elapsed_us: u64,
    sync_us: u64,
    phase: IngestPhase,
    outcome: IngestOutcome,
    entry: int,
)
    requires
        all_went_through(writers, states, stats),
        0 <= entry < entries,
        written_bytes(all_attempts(writers)) <= u64::MAX,
        all_attempts(writers).len() <= u64::MAX,
        ends_as_found(gathered(entries as nat, stats), Ok(phase)),
        reports_phase(outcome, request, entries, elapsed_us, phase, sync_us),
    ensures
        ({
            let all = all_attempts(writers);
            let result = outcome.result;
            &&& result.write.latency == stats_of(whole_times(all))
            &&& result.begin_write_latency == stats_of(begin_times(all))
            &&& result.write.ops == whole_times(all).len()
            &&& result.write.ops + result.errors == all.len()
            &&& result.write.bytes == written_bytes(all)
            &&& result.write.elapsed_us == elapsed_us
            &&& result.errors == failures(all)
            &&& result.record_size == request.record_size
            &&& result.record_count == request.record_count
            &&& result.concurrency == request.concurrency
            &&& result.entries == entries
            &&& result.sync_us is Some <==> request.sync_at_end
            &&& result.sync_us is Some ==> result.sync_us->0 == sync_us
            &&& outcome.timestamps@[entry].0@ == entry_name(entry as nat)
            &&& outcome.timestamps@[entry].1@ == in_order(stamps(all, entry))
        }),
{
    lemma_attempts_counted(all_attempts(writers));
    lemma_gathered_attempts(entries as nat, writers, states, stats, entry);
}

proof fn lemma_attempts_counted(attempts: Seq<Attempt>)
    ensures
        whole_times(attempts).len() + failures(attempts) == attempts.len(),
        begin_times(attempts).len() == whole_times(attempts).len(),
    decreases attempts.len(),
{
    if attempts.len() > 0 {
        lemma_attempts_counted(attempts.drop_last());
    }
}

/// A benchmark fails exactly where no record was written and some failed, and then with the first
/// failure.
pub proof fn law_run_fails_with_its_first_failure(
    entries: usize,
    writers: Seq<Seq<Attempt>>,
    states: Seq<Seq<WriterStats>>,
    stats: Seq<WriterStats>,
    r: Result<IngestPhase, ReductError>,
)
    requires
        all_went_through(writers, states, stats),
        0 < entries,
        written_bytes(all_attempts(writers)) <= u64::MAX,
        all_attempts(writers).len() <= u64::MAX,
        ends_as_found(gathered(entries as nat, stats), r),
    ensures
        r is Err <==> all_attempts(writers).len() > 0 && failures(all_attempts(writers))
            == all_attempts(writers).len(),
        r matches Err(error) ==> first_failure(all_attempts(writers)) == Some(error),
{
    let all = all_attempts(writers);
    lemma_attempts_counted(all);
    lemma_gathered_attempts(entries as nat, writers, states, stats, 0);
    lemma_first_failure(all);
}

proof fn lemma_first_failure(attempts: Seq<Attempt>)
    ensures
        first_failure(attempts) is Some <==> failures(attempts) > 0,
    decreases attempts.len(),
{
    if attempts.len() > 0 {
        lemma_first_failure(attempts.drop_last());
    }
}

/// Whether beginning a write took no longer than the whole of it.
pub open spec fn begins_first(attempt: Attempt) -> bool {
    match attempt {
        Attempt::Written { begin_us, total_us, .. } => begin_us <= total_us,
        Attempt::Failed(_) => true,
    }
}

proof fn lemma_begins_first(attempts: Seq<Attempt>)
    requires
        forall|i: int| 0 <= i < attempts.len() ==> begins_first(#[trigger] attempts[i]),
    ensures
        begin_times(attempts).len() == whole_times(attempts).len(),
        forall|i: int|
            0 <= i < begin_times(attempts).len() ==> #[trigger] begin_times(attempts)[i]
                <= whole_times(attempts)[i],
    decreases attempts.len(),
{
    if attempts.len() > 0 {
        let front = attempts.drop_last();
        assert forall|i: int| 0 <= i < front.len() implies begins_first(#[trigger] front[i]) by {
            assert(front[i] == attempts[i]);
        }
        lemma_begins_first(front);
        assert(begins_first(attempts[attempts.len() - 1]));
    }
}

/// Beginning a write is a part of it, so that no latency of beginning is above that of writing.
pub proof fn law_beginning_takes_no_longer_than_writing(attempts: Seq<Attempt>)
    requires
        forall|i: int| 0 <= i < attempts.len() ==> begins_first(#[trigger] attempts[i]),
        attempts.len() <= u64::MAX,
    ensures
        stats_of(begin_times(attempts)).p50_us <= stats_of(whole_times(attempts)).p50_us,
        stats_of(begin_times(attempts)).p99_us <= stats_of(whole_times(attempts)).p99_us,
        stats_of(begin_times(attempts)).max_us <= stats_of(whole_times(attempts)).max_us,
        stats_of(begin_times(attempts)).mean_us <= stats_of(whole_times(attempts)).mean_us,
{
    lemma_begins_first(attempts);
    lemma_attempts_counted(attempts);
    law_shorter_times_give_shorter_latencies(begin_times(attempts), whole_times(attempts));
}

} // verus!
