//! What holds of a whole run of the ingest benchmark: every record is written or fails, once, and
//! every entry ends up with its own records.

use crate::benchmark::ingest::{
    entry_of, is_next_record, stamp_of, writer_of, writer_of_entry, written_to, TotalsView,
    WriterStats,
};
use crate::error::ReductError;
use crate::numbers::{in_order, lemma_in_order_already};
use vstd::prelude::*;

verus! {

/// A run: how much is written where, and which of the records fail.
pub struct Run {
    pub records: u64,
    pub entries: usize,
    pub concurrency: usize,
    pub size: u64,
    pub ts_base: u64,
    pub failed: Set<int>,
}

impl Run {
    /// Whether there are entries and writers, and timestamps and bytes can be counted.
    pub open spec fn valid(self) -> bool {
        &&& self.entries > 0
        &&& self.concurrency > 0
        &&& self.ts_base + self.records <= u64::MAX
        &&& self.records * self.size <= u64::MAX
    }

    pub open spec fn writer(self, record: int) -> int {
        writer_of(record, self.entries as int, self.concurrency as int)
    }

    pub open spec fn entry(self, record: int) -> int {
        entry_of(record, self.entries as int)
    }

    pub open spec fn timestamp(self, record: int) -> u64 {
        stamp_of(self.ts_base, record) as u64
    }

    /// What a writer has written of the first records: entries and timestamps.
    pub open spec fn written(self, task: int, upto: nat) -> Seq<(usize, u64)>
        decreases upto,
    {
        if upto == 0 {
            Seq::empty()
        } else {
            let i = upto - 1;
            let front = self.written(task, i as nat);
            if self.writer(i) == task && !self.failed.contains(i) {
                front.push((self.entry(i) as usize, self.timestamp(i)))
            } else {
                front
            }
        }
    }

    /// How many of the first records a writer has failed to write.
    pub open spec fn errors(self, task: int, upto: nat) -> nat
        decreases upto,
    {
        if upto == 0 {
            0
        } else {
            let i = upto - 1;
            self.errors(task, i as nat) + if self.writer(i) == task && self.failed.contains(i) {
                1nat
            } else {
                0
            }
        }
    }

    /// Whether a writer has found what there is to find among the first records.
    pub open spec fn found(self, stats: WriterStats, task: int, upto: nat) -> bool {
        &&& stats.written@ == self.written(task, upto)
        &&& stats.total_us@.len() == stats.written@.len()
        &&& stats.begin_us@.len() == stats.written@.len()
        &&& stats.bytes == stats.written@.len() * self.size
        &&& stats.errors == self.errors(task, upto)
        &&& stats.first_error is Some <==> stats.errors > 0
    }

    /// The timestamps that an entry gets of the first records.
    pub open spec fn entry_timestamps(self, entry: int, upto: nat) -> Seq<u64>
        decreases upto,
    {
        if upto == 0 {
            Seq::empty()
        } else {
            let i = upto - 1;
            let front = self.entry_timestamps(entry, i as nat);
            if self.entry(i) == entry && !self.failed.contains(i) {
                front.push(self.timestamp(i))
            } else {
                front
            }
        }
    }

    /// How many of the first records some writers have written.
    spec fn written_by(self, tasks: Set<int>, upto: nat) -> nat
        decreases upto,
    {
        if upto == 0 {
            0
        } else {
            let i = upto - 1;
            self.written_by(tasks, i as nat) + if tasks.contains(self.writer(i))
                && !self.failed.contains(i) {
                1nat
            } else {
                0
            }
        }
    }

    /// How many of the first records some writers have failed to write.
    spec fn failed_by(self, tasks: Set<int>, upto: nat) -> nat
        decreases upto,
    {
        if upto == 0 {
            0
        } else {
            let i = upto - 1;
            self.failed_by(tasks, i as nat) + if tasks.contains(self.writer(i))
                && self.failed.contains(i) {
                1nat
            } else {
                0
            }
        }
    }
}

/// A writer starts with nothing found.
pub proof fn law_writer_starts(run: Run, stats: WriterStats, task: int)
    requires
        stats.nothing(),
    ensures
        run.found(stats, task, 0),
{
    assert(stats.written@ =~= run.written(task, 0));
}

/// Records of other writers add nothing.
proof fn lemma_others_add_nothing(run: Run, task: int, from: nat, upto: nat)
    requires
        from <= upto,
        forall|j: int| from <= j < upto ==> #[trigger] run.writer(j) != task,
    ensures
        run.written(task, upto) == run.written(task, from),
        run.errors(task, upto) == run.errors(task, from),
    decreases upto,
{
    if from < upto {
        assert(run.writer(upto - 1) != task);
        lemma_others_add_nothing(run, task, from, (upto - 1) as nat);
    }
}

/// A writer that writes its next record has found what there is up to that record.
pub proof fn law_writer_writes(
    run: Run,
    before: WriterStats,
    after: WriterStats,
    task: usize,
    from: u64,
    i: u64,
    entry_idx: usize,
    begin_us: u64,
    total_us: u64,
)
    requires
        run.valid(),
        run.found(before, task as int, from as nat),
        is_next_record(
            Some((i, entry_idx)),
            from,
            run.records,
            run.entries,
            run.concurrency,
            task,
        ),
        !run.failed.contains(i as int),
        after.with_written(
            before,
            entry_idx,
            run.timestamp(i as int),
            run.size,
            begin_us,
            total_us,
        ),
    ensures
        run.found(after, task as int, i as nat + 1),
{
    lemma_own(run, task, from, i);
    assert((before.written@.len() + 1) * run.size == before.written@.len() * run.size + run.size)
        by (nonlinear_arith);
}

/// A writer that fails on its next record has found what there is up to that record.
pub proof fn law_writer_fails(
    run: Run,
    before: WriterStats,
    after: WriterStats,
    task: usize,
    from: u64,
    i: u64,
    entry_idx: usize,
    error: ReductError,
)
    requires
        run.valid(),
        run.found(before, task as int, from as nat),
        is_next_record(
            Some((i, entry_idx)),
            from,
            run.records,
            run.entries,
            run.concurrency,
            task,
        ),
        run.failed.contains(i as int),
        after.with_failed(before, error),
    ensures
        run.found(after, task as int, i as nat + 1),
{
    lemma_own(run, task, from, i);
}

proof fn lemma_own(run: Run, task: usize, from: u64, i: u64)
    requires
        from <= i,
        run.writer(i as int) == task,
        forall|j: int|
            from <= j < i ==> #[trigger] writer_of(
                j,
                run.entries as int,
                run.concurrency as int,
            ) != task,
    ensures
        run.written(task as int, i as nat) == run.written(task as int, from as nat),
        run.errors(task as int, i as nat) == run.errors(task as int, from as nat),
{
    assert forall|j: int| from <= j < i implies #[trigger] run.writer(j) != task as int by {
        assert(writer_of(j, run.entries as int, run.concurrency as int) != task);
    }
    lemma_others_add_nothing(run, task as int, from as nat, i as nat);
}

/// A writer without a next record has found all that there is.
pub proof fn law_writer_ends(run: Run, stats: WriterStats, task: usize, from: u64)
    requires
        from <= run.records,
        run.found(stats, task as int, from as nat),
        is_next_record(None, from, run.records, run.entries, run.concurrency, task),
    ensures
        run.found(stats, task as int, run.records as nat),
{
    assert forall|j: int| from <= j < run.records implies #[trigger] run.writer(j)
        != task as int by {
        assert(writer_of(j, run.entries as int, run.concurrency as int) != task);
    }
    lemma_others_add_nothing(run, task as int, from as nat, run.records as nat);
}

proof fn lemma_one_more_writer(run: Run, tasks: Set<int>, task: int, upto: nat)
    requires
        !tasks.contains(task),
    ensures
        run.written_by(tasks.insert(task), upto) == run.written_by(tasks, upto) + run.written(
            task,
            upto,
        ).len(),
        run.failed_by(tasks.insert(task), upto) == run.failed_by(tasks, upto) + run.errors(
            task,
            upto,
        ),
    decreases upto,
{
    if upto > 0 {
        lemma_one_more_writer(run, tasks, task, (upto - 1) as nat);
    }
}

proof fn lemma_no_writers(run: Run, upto: nat)
    ensures
        run.written_by(Set::empty(), upto) == 0,
        run.failed_by(Set::empty(), upto) == 0,
    decreases upto,
{
    if upto > 0 {
        lemma_no_writers(run, (upto - 1) as nat);
    }
}

proof fn lemma_some_records(run: Run, tasks: Set<int>, upto: nat)
    ensures
        run.written_by(tasks, upto) + run.failed_by(tasks, upto) <= upto,
        (forall|i: int| 0 <= i < upto ==> !(#[trigger] run.failed.contains(i))) ==> run.failed_by(
            tasks,
            upto,
        ) == 0,
        (forall|i: int| 0 <= i < upto ==> tasks.contains(#[trigger] run.writer(i)))
            ==> run.written_by(tasks, upto) + run.failed_by(tasks, upto) == upto,
    decreases upto,
{
    if upto > 0 {
        lemma_some_records(run, tasks, (upto - 1) as nat);
    }
}

/// Only the owner of an entry writes to it.
proof fn lemma_owner_writes(run: Run, task: int, entry: int, upto: nat)
    requires
        run.valid(),
        0 <= entry < run.entries,
    ensures
        written_to(run.written(task, upto), entry) == (if task == writer_of_entry(
            entry,
            run.concurrency as int,
        ) {
            run.entry_timestamps(entry, upto)
        } else {
            Seq::empty()
        }),
    decreases upto,
{
    if upto > 0 {
        let i = upto - 1;
        lemma_owner_writes(run, task, entry, i as nat);
        let e = run.entry(i);
        let n = run.entries as int;
        assert(0 <= i % n < n) by (nonlinear_arith)
            requires
                n > 0,
        ;
        if run.writer(i) == task && !run.failed.contains(i) {
            let front = run.written(task, i as nat);
            assert(front.push((e as usize, run.timestamp(i))).drop_last() =~= front);
        }
    }
}

/// The timestamps of an entry come in order.
proof fn lemma_timestamps_ascend(run: Run, entry: int, upto: nat)
    requires
        run.valid(),
        upto <= run.records,
    ensures
        ({
            let list = run.entry_timestamps(entry, upto);
            &&& forall|a: int, b: int| 0 <= a < b < list.len() ==> list[a] < list[b]
            &&& forall|a: int| 0 <= a < list.len() ==> #[trigger] list[a] < run.ts_base + upto
        }),
    decreases upto,
{
    if upto > 0 {
        let i = upto - 1;
        let front = run.entry_timestamps(entry, i as nat);
        let list = run.entry_timestamps(entry, upto);
        lemma_timestamps_ascend(run, entry, i as nat);
        assert forall|a: int| 0 <= a < list.len() implies #[trigger] list[a] < run.ts_base
            + upto by {
            if a < front.len() {
                assert(list[a] == front[a]);
            }
        }
        assert forall|a: int, b: int| 0 <= a < b < list.len() implies list[a] < list[b] by {
            assert(list[a] == front[a]);
            if b < front.len() {
                assert(list[b] == front[b]);
            }
        }
    }
}

/// An entry gets the timestamps of the records that go to it and do not fail, and no others.
pub proof fn law_entry_timestamps(run: Run, entry: int, upto: nat, ts: u64)
    requires
        run.valid(),
        upto <= run.records,
    ensures
        run.entry_timestamps(entry, upto).contains(ts) <==> {
            let i = ts - run.ts_base;
            0 <= i < upto && entry_of(i, run.entries as int) == entry && !run.failed.contains(i)
        },
    decreases upto,
{
    let list = run.entry_timestamps(entry, upto);
    if upto > 0 {
        let i = upto - 1;
        let front = run.entry_timestamps(entry, i as nat);
        law_entry_timestamps(run, entry, i as nat, ts);
        if run.entry(i) == entry && !run.failed.contains(i) {
            assert(list == front.push(run.timestamp(i)));
            if front.contains(ts) {
                let k = choose|k: int| 0 <= k < front.len() && front[k] == ts;
                assert(list[k] == ts);
            }
            if ts == run.timestamp(i) {
                assert(list[front.len() as int] == ts);
            }
            if list.contains(ts) && ts != run.timestamp(i) {
                let k = choose|k: int| 0 <= k < list.len() && list[k] == ts;
                assert(front[k] == ts);
            }
        }
    }
}

/// What writers have found together, one behind the other.
pub open spec fn gathered(entries: nat, stats: Seq<WriterStats>) -> TotalsView
    decreases stats.len(),
{
    if stats.len() == 0 {
        TotalsView::start(entries)
    } else {
        gathered(entries, stats.drop_last()).with(stats.last())
    }
}

/// Whether each of some writers has found what there is, and none of them counts twice.
pub open spec fn all_found(run: Run, tasks: Seq<int>, stats: Seq<WriterStats>) -> bool {
    &&& tasks.len() == stats.len()
    &&& tasks.no_duplicates()
    &&& forall|k: int|
        0 <= k < tasks.len() ==> run.found(#[trigger] stats[k], tasks[k], run.records as nat)
}

proof fn lemma_gathered(run: Run, tasks: Seq<int>, stats: Seq<WriterStats>)
    requires
        run.valid(),
        all_found(run, tasks, stats),
    ensures
        ({
            let totals = gathered(run.entries as nat, stats);
            let records = run.records as nat;
            &&& totals.entries == run.entries
            &&& totals.total_us.len() == run.written_by(tasks.to_set(), records)
            &&& totals.begin_us.len() == totals.total_us.len()
            &&& totals.bytes == totals.total_us.len() * run.size
            &&& totals.errors == run.failed_by(tasks.to_set(), records)
            &&& totals.first_error is Some <==> totals.errors > 0
            &&& totals.timestamps.len() == run.entries
            &&& forall|e: int|
                0 <= e < run.entries ==> #[trigger] totals.timestamps[e] == (if tasks.contains(
                    writer_of_entry(e, run.concurrency as int),
                ) {
                    run.entry_timestamps(e, records)
                } else {
                    Seq::empty()
                })
        }),
    decreases stats.len(),
{
    let records = run.records as nat;
    let totals = gathered(run.entries as nat, stats);
    if stats.len() == 0 {
        assert(tasks.to_set() =~= Set::empty());
        lemma_no_writers(run, records);
    } else {
        let front = tasks.drop_last();
        let task = tasks.last();
        let last = stats.last();
        let before = gathered(run.entries as nat, stats.drop_last());
        assert forall|k: int| 0 <= k < front.len() implies run.found(
            #[trigger] stats.drop_last()[k],
            front[k],
            records,
        ) by {
            assert(run.found(stats[k], tasks[k], records));
        }
        assert(front.no_duplicates());
        lemma_gathered(run, front, stats.drop_last());
        assert(run.found(stats[stats.len() - 1], tasks[stats.len() - 1], records));
        assert(!front.contains(task)) by {
            if front.contains(task) {
                let k = choose|k: int| 0 <= k < front.len() && front[k] == task;
                assert(tasks[k] == tasks[tasks.len() - 1]);
            }
        }
        assert(tasks =~= front.push(task));
        assert(tasks.to_set() =~= front.to_set().insert(task)) by {
            assert forall|t: int| tasks.to_set().contains(t) == front.to_set().insert(
                task,
            ).contains(t) by {
                if tasks.contains(t) && t != task {
                    let k = choose|k: int| 0 <= k < tasks.len() && tasks[k] == t;
                    assert(front[k] == t);
                }
                if front.contains(t) {
                    let k = choose|k: int| 0 <= k < front.len() && front[k] == t;
                    assert(tasks[k] == t);
                }
                assert(tasks[tasks.len() - 1] == task);
            }
        }
        lemma_one_more_writer(run, front.to_set(), task, records);
        lemma_some_records(run, tasks.to_set(), records);
        let a = before.total_us.len();
        let b = last.total_us@.len();
        let size = run.size as nat;
        assert(a * size + b * size == (a + b) * size) by (nonlinear_arith);
        assert((a + b) * size <= records * size) by (nonlinear_arith)
            requires
                a + b <= records,
        ;
        assert forall|e: int| 0 <= e < run.entries implies #[trigger] totals.timestamps[e] == (
        if tasks.contains(writer_of_entry(e, run.concurrency as int)) {
            run.entry_timestamps(e, records)
        } else {
            Seq::empty()
        }) by {
            let owner = writer_of_entry(e, run.concurrency as int);
            lemma_owner_writes(run, task, e, records);
            assert(tasks.contains(owner) == tasks.to_set().contains(owner));
            assert(front.contains(owner) == front.to_set().contains(owner));
            assert(totals.timestamps[e] == before.timestamps[e] + written_to(last.written@, e));
            assert(totals.timestamps[e] =~= (if tasks.contains(owner) {
                run.entry_timestamps(e, records)
            } else {
                Seq::empty()
            }));
        }
    }
}

/// When all writers have ended, in whatever order, every record was written or has failed, once:
/// the counts add up, the bytes are those of the written records, and every entry holds the
/// timestamps of its own records that were written, in order.
pub proof fn law_whole_run(run: Run, tasks: Seq<int>, stats: Seq<WriterStats>)
    requires
        run.valid(),
        all_found(run, tasks, stats),
        forall|task: int| 0 <= task < run.concurrency ==> #[trigger] tasks.contains(task),
    ensures
        ({
            let totals = gathered(run.entries as nat, stats);
            &&& totals.total_us.len() + totals.errors == run.records
            &&& (forall|i: int| 0 <= i < run.records ==> !(#[trigger] run.failed.contains(i)))
                ==> totals.errors == 0
            &&& totals.begin_us.len() == totals.total_us.len()
            &&& totals.bytes == totals.total_us.len() * run.size
            &&& totals.first_error is Some <==> totals.errors > 0
            &&& totals.timestamps.len() == run.entries
            &&& forall|e: int|
                0 <= e < run.entries ==> #[trigger] totals.timestamps[e] == run.entry_timestamps(
                    e,
                    run.records as nat,
                ) && in_order(totals.timestamps[e]) == totals.timestamps[e]
        }),
{
    let records = run.records as nat;
    let totals = gathered(run.entries as nat, stats);
    let c = run.concurrency as int;
    lemma_gathered(run, tasks, stats);
    lemma_some_records(run, tasks.to_set(), records);
    assert forall|i: int| 0 <= i < records implies tasks.to_set().contains(
        #[trigger] run.writer(i),
    ) by {
        let e = run.entry(i);
        assert(0 <= e % c < c) by (nonlinear_arith)
            requires
                c > 0,
        ;
        assert(tasks.contains(run.writer(i)));
    }
    assert forall|e: int| 0 <= e < run.entries implies #[trigger] totals.timestamps[e]
        == run.entry_timestamps(e, records) && in_order(totals.timestamps[e])
        == totals.timestamps[e] by {
        assert(0 <= e % c < c) by (nonlinear_arith)
            requires
                c > 0,
        ;
        assert(tasks.contains(writer_of_entry(e, c)));
        lemma_timestamps_ascend(run, e, records);
        lemma_in_order_already(totals.timestamps[e]);
    }
}

} // verus!
