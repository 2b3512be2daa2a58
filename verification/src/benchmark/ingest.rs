//! The ingest benchmark: concurrent writers fill a temporary bucket.

use crate::batch::labels::Labels;
use crate::benchmark::api::{
    phase_of, stats_of, IngestBenchmarkRequest, IngestBenchmarkResult, LatencyStats, PhaseResult,
};
use crate::error::{ErrorCode, ErrorView, ReductError};
use crate::numbers::{in_order, lemma_in_order_swap, sort_numbers};
use crate::storage::settings::BucketSettings;
use crate::text::{decimal, decimal_text, law_numbers_are_told_apart};
use vstd::prelude::*;

verus! {

/// The name of an entry of the benchmark.
pub open spec fn entry_name(entry_idx: nat) -> Seq<char> {
    "bench-"@ + decimal(entry_idx)
}

pub fn bench_entry(entry_idx: usize) -> (r: String)
    ensures
        r@ == entry_name(entry_idx as nat),
{
    "bench-".to_owned().concat(decimal_text(entry_idx as u64).as_str())
}

/// The labels of every record: `label-0` with `value-0` and so on.
pub open spec fn bench_label_map(count: nat) -> Map<Seq<char>, Seq<char>>
    decreases count,
{
    if count == 0 {
        Map::empty()
    } else {
        let i = (count - 1) as nat;
        bench_label_map(i).insert("label-"@ + decimal(i), "value-"@ + decimal(i))
    }
}

pub fn bench_labels(count: usize) -> (r: Labels)
    ensures
        r@ == bench_label_map(count as nat),
{
    let mut labels = Labels::new();
    let mut i: usize = 0;
    while i < count
        invariant
            i <= count,
            labels@ == bench_label_map(i as nat),
        decreases count - i,
    {
        let text = decimal_text(i as u64);
        labels.insert(
            "label-".to_owned().concat(text.as_str()),
            "value-".to_owned().concat(text.as_str()),
        );
        i = i + 1;
    }
    labels
}

/// Different entries have different names.
pub proof fn law_entries_have_names_of_their_own(a: nat, b: nat)
    ensures
        entry_name(a) == entry_name(b) <==> a == b,
{
    if entry_name(a) == entry_name(b) {
        let n = "bench-"@.len() as int;
        assert(entry_name(a).skip(n) =~= decimal(a));
        assert(entry_name(b).skip(n) =~= decimal(b));
        law_numbers_are_told_apart(a, b);
    }
}

/// A record has the labels that are asked for, each with the value of its number, and no others.
pub proof fn law_labels_are_those_asked_for(count: nat, i: nat)
    ensures
        i < count ==> bench_label_map(count).contains_pair(
            "label-"@ + decimal(i),
            "value-"@ + decimal(i),
        ),
        i >= count ==> !bench_label_map(count).contains_key("label-"@ + decimal(i)),
        bench_label_map(count).dom().finite(),
        bench_label_map(count).dom().len() == count,
    decreases count,
{
    if count > 0 {
        let last = (count - 1) as nat;
        let n = "label-"@.len() as int;
        law_labels_are_those_asked_for(last, i);
        law_labels_are_those_asked_for(last, last);
        assert(("label-"@ + decimal(i)).skip(n) =~= decimal(i));
        assert(("label-"@ + decimal(last)).skip(n) =~= decimal(last));
        if "label-"@ + decimal(i) == "label-"@ + decimal(last) {
            law_numbers_are_told_apart(i, last);
        }
    }
}

/// The entry that a record goes to.
pub open spec fn entry_of(record: int, entries: int) -> int {
    record % entries
}

/// The writer that owns an entry.
pub open spec fn writer_of_entry(entry: int, concurrency: int) -> int {
    entry % concurrency
}

/// The writer that writes a record.
pub open spec fn writer_of(record: int, entries: int, concurrency: int) -> int {
    writer_of_entry(entry_of(record, entries), concurrency)
}

/// Every record has exactly one writer, and no entry ever sees two writers: records of one entry
/// have the same writer.
pub proof fn law_one_writer_per_entry(a: int, b: int, entries: int, concurrency: int)
    requires
        entries > 0,
        concurrency > 0,
    ensures
        0 <= writer_of(a, entries, concurrency) < concurrency,
        entry_of(a, entries) == entry_of(b, entries) ==> writer_of(a, entries, concurrency)
            == writer_of(b, entries, concurrency),
{
    let e = entry_of(a, entries);
    assert(0 <= e % concurrency < concurrency) by (nonlinear_arith)
        requires
            concurrency > 0,
    ;
}

/// With at least as many records as entries and as many entries as writers, every entry gets a
/// record and every writer has an entry.
pub proof fn law_all_take_part(entry: int, writer: int, entries: int, concurrency: int, records: int)
    requires
        0 <= entry < entries <= records,
        0 <= writer < concurrency <= entries,
    ensures
        entry_of(entry, entries) == entry && entry < records,
        writer_of(writer, entries, concurrency) == writer && writer < records,
{
    assert(entry % entries == entry) by (nonlinear_arith)
        requires
            0 <= entry < entries,
    ;
    assert(writer % entries == writer) by (nonlinear_arith)
        requires
            0 <= writer < entries,
    ;
    assert(writer % concurrency == writer) by (nonlinear_arith)
        requires
            0 <= writer < concurrency,
    ;
}

/// Whether a record is the next one of a writer, from a record on, with its entry; none where
/// the writer has no record left.
pub open spec fn is_next_record(
    next: Option<(u64, usize)>,
    from: u64,
    record_count: u64,
    entries: usize,
    concurrency: usize,
    task_id: usize,
) -> bool {
    match next {
        Some((i, entry_idx)) => {
            &&& from <= i < record_count
            &&& entry_idx == entry_of(i as int, entries as int)
            &&& writer_of(i as int, entries as int, concurrency as int) == task_id
            &&& forall|j: int|
                from <= j < i ==> #[trigger] writer_of(j, entries as int, concurrency as int)
                    != task_id
        },
        None => forall|j: int|
            from <= j < record_count ==> #[trigger] writer_of(
                j,
                entries as int,
                concurrency as int,
            ) != task_id,
    }
}

/// The next record that a writer writes, from a record on, with its entry.
pub fn next_record(
    from: u64,
    record_count: u64,
    entries: usize,
    concurrency: usize,
    task_id: usize,
) -> (r: Option<(u64, usize)>)
    requires
        entries > 0,
        concurrency > 0,
    ensures
        is_next_record(r, from, record_count, entries, concurrency, task_id),
{
    let mut i: u64 = from;
    while i < record_count
        invariant
            entries > 0,
            concurrency > 0,
            from <= i,
            i <= record_count || i == from,
            forall|j: int|
                from <= j < i ==> #[trigger] writer_of(j, entries as int, concurrency as int)
                    != task_id,
        decreases record_count - i,
    {
        let entry_idx: usize = (i % entries as u64) as usize;
        if entry_idx % concurrency == task_id {
            return Some((i, entry_idx));
        }
        i = i + 1;
    }
    None
}

/// The timestamp of a record of a run.
pub open spec fn stamp_of(ts_base: u64, i: int) -> int {
    ts_base + i
}

/// The records of a run begin where the run does and follow each other by a microsecond.
pub proof fn law_records_follow_each_other(ts_base: u64, i: int)
    ensures
        stamp_of(ts_base, 0) == ts_base,
        stamp_of(ts_base, i + 1) == stamp_of(ts_base, i) + 1,
{
}

/// The timestamp of a record: the records follow each other by a microsecond.
pub fn record_timestamp(ts_base: u64, i: u64) -> (r: u64)
    requires
        ts_base + i <= u64::MAX,
    ensures
        r == ts_base + i,
        r == stamp_of(ts_base, i as int),
{
    ts_base + i
}

/// What a writer has found.
pub struct WriterStats {
    pub total_us: Vec<u64>,
    pub begin_us: Vec<u64>,
    /// The entry and the timestamp of each record that was written.
    pub written: Vec<(usize, u64)>,
    pub bytes: u64,
    pub errors: u64,
    pub first_error: Option<ReductError>,
}

impl WriterStats {
    /// Whether a writer has found nothing yet.
    pub open spec fn nothing(self) -> bool {
        &&& self.total_us@.len() == 0
        &&& self.begin_us@.len() == 0
        &&& self.written@.len() == 0
        &&& self.bytes == 0
        &&& self.errors == 0
        &&& self.first_error is None
    }

    /// Whether a writer has written one more record than before.
    pub open spec fn with_written(
        self,
        before: WriterStats,
        entry_idx: usize,
        timestamp: u64,
        size: u64,
        begin_us: u64,
        total_us: u64,
    ) -> bool {
        &&& self.total_us@ == before.total_us@.push(total_us)
        &&& self.begin_us@ == before.begin_us@.push(begin_us)
        &&& self.written@ == before.written@.push((entry_idx, timestamp))
        &&& self.bytes == before.bytes + size
        &&& self.errors == before.errors
        &&& self.first_error == before.first_error
    }

    /// Whether a writer has failed to write one more record than before.
    pub open spec fn with_failed(self, before: WriterStats, error: ReductError) -> bool {
        &&& self.total_us@ == before.total_us@
        &&& self.begin_us@ == before.begin_us@
        &&& self.written@ == before.written@
        &&& self.bytes == before.bytes
        &&& self.errors == before.errors + 1
        &&& self.first_error == (match before.first_error {
            Some(first) => Some(first),
            None => Some(error),
        })
    }

    pub fn new() -> (r: WriterStats)
        ensures
            r.nothing(),
    {
        WriterStats {
            total_us: Vec::new(),
            begin_us: Vec::new(),
            written: Vec::new(),
            bytes: 0,
            errors: 0,
            first_error: None,
        }
    }

    /// Counts a record that was written.
    pub fn record_written(
        &mut self,
        entry_idx: usize,
        timestamp: u64,
        size: u64,
        begin_us: u64,
        total_us: u64,
    )
        requires
            old(self).bytes + size <= u64::MAX,
        ensures
            final(self).with_written(*old(self), entry_idx, timestamp, size, begin_us, total_us),
            final(self).total_us@ == old(self).total_us@.push(total_us),
            final(self).begin_us@ == old(self).begin_us@.push(begin_us),
    {
        self.total_us.push(total_us);
        self.begin_us.push(begin_us);
        self.written.push((entry_idx, timestamp));
        self.bytes = self.bytes + size;
    }

    /// Counts a record that could not be written, and keeps the first error.
    pub fn record_failed(&mut self, error: ReductError)
        requires
            old(self).errors < u64::MAX,
        ensures
            final(self).with_failed(*old(self), error),
    {
        self.errors = self.errors + 1;
        if self.first_error.is_none() {
            self.first_error = Some(error);
        }
    }
}

/// The timestamps that were written to an entry, in the order of writing.
pub open spec fn written_to(written: Seq<(usize, u64)>, entry_idx: int) -> Seq<u64>
    decreases written.len(),
{
    if written.len() == 0 {
        Seq::empty()
    } else {
        let front = written_to(written.drop_last(), entry_idx);
        if written.last().0 == entry_idx {
            front.push(written.last().1)
        } else {
            front
        }
    }
}

/// What all writers have found together.
pub struct IngestTotals {
    total_us: Vec<u64>,
    begin_us: Vec<u64>,
    timestamps: Vec<(String, Vec<u64>)>,
    bytes: u64,
    errors: u64,
    first_error: Option<ReductError>,
}

pub struct TotalsView {
    pub entries: nat,
    pub total_us: Seq<u64>,
    pub begin_us: Seq<u64>,
    pub timestamps: Seq<Seq<u64>>,
    pub bytes: u64,
    pub errors: u64,
    pub first_error: Option<ReductError>,
}

impl View for IngestTotals {
    type V = TotalsView;

    closed spec fn view(&self) -> TotalsView {
        TotalsView {
            entries: self.timestamps@.len(),
            total_us: self.total_us@,
            begin_us: self.begin_us@,
            timestamps: Seq::new(self.timestamps@.len(), |i: int| self.timestamps@[i].1@),
            bytes: self.bytes,
            errors: self.errors,
            first_error: self.first_error,
        }
    }
}

impl TotalsView {
    pub open spec fn start(entries: nat) -> TotalsView {
        TotalsView {
            entries,
            total_us: Seq::empty(),
            begin_us: Seq::empty(),
            timestamps: Seq::new(entries, |i: int| Seq::empty()),
            bytes: 0,
            errors: 0,
            first_error: None,
        }
    }

    /// With what one more writer has found.
    pub open spec fn with(self, stats: WriterStats) -> TotalsView {
        TotalsView {
            entries: self.entries,
            total_us: self.total_us + stats.total_us@,
            begin_us: self.begin_us + stats.begin_us@,
            timestamps: Seq::new(
                self.entries,
                |i: int| self.timestamps[i] + written_to(stats.written@, i),
            ),
            bytes: (self.bytes + stats.bytes) as u64,
            errors: (self.errors + stats.errors) as u64,
            first_error: match self.first_error {
                Some(first) => Some(first),
                None => stats.first_error,
            },
        }
    }
}

/// What a benchmark has written: how long it took, and the timestamps of each entry.
pub struct IngestPhase {
    pub total_us: Vec<u64>,
    pub begin_us: Vec<u64>,
    /// Written timestamps in order, by entry name.
    pub timestamps: Vec<(String, Vec<u64>)>,
    pub bytes: u64,
    pub errors: u64,
}

/// Whether a phase ends as what all writers have found says: with the first error where nothing
/// could be written, else with the timestamps of every entry in order.
pub open spec fn ends_as_found(totals: TotalsView, r: Result<IngestPhase, ReductError>) -> bool {
    match r {
        Err(error) => totals.total_us.len() == 0 && totals.first_error == Some(error),
        Ok(phase) => {
            &&& totals.total_us.len() > 0 || totals.first_error is None
            &&& phase.total_us@ == totals.total_us
            &&& phase.begin_us@ == totals.begin_us
            &&& phase.bytes == totals.bytes
            &&& phase.errors == totals.errors
            &&& phase.timestamps@.len() == totals.entries
            &&& forall|i: int|
                0 <= i < totals.entries ==> (#[trigger] phase.timestamps@[i]).0@ == entry_name(
                    i as nat,
                ) && phase.timestamps@[i].1@ == in_order(totals.timestamps[i])
        },
    }
}

impl IngestTotals {
    /// The entries have their names.
    pub closed spec fn wf(self) -> bool {
        forall|i: int|
            0 <= i < self.timestamps@.len() ==> (#[trigger] self.timestamps@[i]).0@ == entry_name(
                i as nat,
            )
    }

    pub fn new(entries: usize) -> (r: IngestTotals)
        ensures
            r.wf(),
            r@ == TotalsView::start(entries as nat),
    {
        let mut timestamps: Vec<(String, Vec<u64>)> = Vec::new();
        let mut i: usize = 0;
        while i < entries
            invariant
                i <= entries,
                timestamps@.len() == i,
                forall|k: int|
                    0 <= k < i ==> (#[trigger] timestamps@[k]).0@ == entry_name(k as nat)
                        && timestamps@[k].1@.len() == 0,
            decreases entries - i,
        {
            timestamps.push((bench_entry(i), Vec::new()));
            i = i + 1;
        }
        let r = IngestTotals {
            total_us: Vec::new(),
            begin_us: Vec::new(),
            timestamps,
            bytes: 0,
            errors: 0,
            first_error: None,
        };
        assert(r@.timestamps =~~= TotalsView::start(entries as nat).timestamps);
        r
    }

    /// Adds what a writer has found.
    pub fn absorb(&mut self, stats: WriterStats)
        requires
            old(self).wf(),
            old(self)@.bytes + stats.bytes <= u64::MAX,
            old(self)@.errors + stats.errors <= u64::MAX,
            forall|i: int|
                0 <= i < stats.written@.len() ==> (#[trigger] stats.written@[i]).0
                    < old(self)@.entries,
        ensures
            final(self).wf(),
            final(self)@ == old(self)@.with(stats),
    {
        let ghost before = self@;
        let mut total_us = stats.total_us;
        let mut begin_us = stats.begin_us;
        self.total_us.append(&mut total_us);
        self.begin_us.append(&mut begin_us);
        let mut i: usize = 0;
        assert forall|k: int| 0 <= k < before.entries implies (#[trigger] self.timestamps@[k]).1@
            == before.timestamps[k] + written_to(stats.written@.take(0), k) by {
            assert(stats.written@.take(0) =~= Seq::<(usize, u64)>::empty());
            assert(before.timestamps[k] + Seq::<u64>::empty() =~= before.timestamps[k]);
        }
        while i < stats.written.len()
            invariant
                i <= stats.written@.len(),
                self.wf(),
                self.timestamps@.len() == before.entries,
                self.total_us@ == before.total_us + stats.total_us@,
                self.begin_us@ == before.begin_us + stats.begin_us@,
                self.bytes == before.bytes,
                self.errors == before.errors,
                self.first_error == before.first_error,
                before.entries == before.timestamps.len(),
                forall|k: int|
                    0 <= k < stats.written@.len() ==> (#[trigger] stats.written@[k]).0
                        < before.entries,
                forall|k: int|
                    0 <= k < before.entries ==> (#[trigger] self.timestamps@[k]).1@
                        == before.timestamps[k] + written_to(stats.written@.take(i as int), k),
            decreases stats.written@.len() - i,
        {
            let (entry_idx, ts) = stats.written[i];
            let ghost at = self.timestamps@;
            assert(stats.written@[i as int].0 < before.entries);
            let mut entry: (String, Vec<u64>) = (String::new(), Vec::new());
            std::mem::swap(&mut entry, &mut self.timestamps[entry_idx]);
            entry.1.push(ts);
            std::mem::swap(&mut entry, &mut self.timestamps[entry_idx]);
            proof {
                let part = stats.written@.take(i + 1);
                assert(part.drop_last() =~= stats.written@.take(i as int));
                assert forall|k: int| 0 <= k < before.entries implies (
                #[trigger] self.timestamps@[k]).1@ == before.timestamps[k] + written_to(part, k) by {
                    assert(at[k].1@ == before.timestamps[k] + written_to(
                        stats.written@.take(i as int),
                        k,
                    ));
                    if k == entry_idx {
                        let old_part = written_to(stats.written@.take(i as int), k);
                        assert(before.timestamps[k] + old_part.push(ts) =~= (before.timestamps[k]
                            + old_part).push(ts));
                    }
                }
                assert forall|k: int| 0 <= k < self.timestamps@.len() implies (
                #[trigger] self.timestamps@[k]).0@ == entry_name(k as nat) by {
                    assert(at[k].0@ == entry_name(k as nat));
                }
            }
            i = i + 1;
        }
        assert(stats.written@.take(i as int) =~= stats.written@);
        self.bytes = self.bytes + stats.bytes;
        self.errors = self.errors + stats.errors;
        if self.first_error.is_none() {
            self.first_error = stats.first_error;
        }
        assert(self@.timestamps =~~= before.with(stats).timestamps);
    }

    /// Ends the phase: with the first error where nothing could be written, else with the
    /// timestamps in order.
    pub fn finish(self) -> (r: Result<IngestPhase, ReductError>)
        requires
            self.wf(),
        ensures
            match r {
                Err(error) => self@.total_us.len() == 0 && self@.first_error == Some(error),
                Ok(phase) => {
                    &&& self@.total_us.len() > 0 || self@.first_error is None
                    &&& phase.total_us@ == self@.total_us
                    &&& phase.begin_us@ == self@.begin_us
                    &&& phase.bytes == self@.bytes
                    &&& phase.errors == self@.errors
                    &&& phase.timestamps@.len() == self@.entries
                    &&& forall|i: int|
                        0 <= i < self@.entries ==> (#[trigger] phase.timestamps@[i]).0@
                            == entry_name(i as nat) && phase.timestamps@[i].1@ == in_order(
                            self@.timestamps[i],
                        )
                },
            },
            ends_as_found(self@, r),
    {
        let ghost before = self@;
        if self.total_us.len() == 0 {
            if let Some(error) = self.first_error {
                return Err(error);
            }
        }
        let mut timestamps = self.timestamps;
        let mut i: usize = 0;
        while i < timestamps.len()
            invariant
                i <= timestamps@.len(),
                timestamps@.len() == before.entries,
                before.timestamps.len() == before.entries,
                forall|k: int|
                    0 <= k < timestamps@.len() ==> (#[trigger] timestamps@[k]).0@ == entry_name(
                        k as nat,
                    ),
                forall|k: int|
                    0 <= k < i ==> (#[trigger] timestamps@[k]).1@ == in_order(
                        before.timestamps[k],
                    ),
                forall|k: int|
                    i <= k < timestamps@.len() ==> (#[trigger] timestamps@[k]).1@
                        == before.timestamps[k],
            decreases timestamps@.len() - i,
        {
            let ghost at = timestamps@;
            let mut entry: (String, Vec<u64>) = (String::new(), Vec::new());
            std::mem::swap(&mut entry, &mut timestamps[i]);
            sort_numbers(&mut entry.1);
            std::mem::swap(&mut entry, &mut timestamps[i]);
            proof {
                assert forall|k: int| 0 <= k < timestamps@.len() implies (
                #[trigger] timestamps@[k]).0@ == entry_name(k as nat) by {
                    assert(at[k].0@ == entry_name(k as nat));
                }
                assert forall|k: int| i < k < timestamps@.len() implies (
                #[trigger] timestamps@[k]).1@ == before.timestamps[k] by {
                    assert(at[k].1@ == before.timestamps[k]);
                }
                assert forall|k: int| 0 <= k < i + 1 implies (#[trigger] timestamps@[k]).1@
                    == in_order(before.timestamps[k]) by {
                    if k < i {
                        assert(at[k].1@ == in_order(before.timestamps[k]));
                    } else {
                        assert(at[k].1@ == before.timestamps[k]);
                    }
                }
            }
            i = i + 1;
        }
        Ok(
            IngestPhase {
                total_us: self.total_us,
                begin_us: self.begin_us,
                timestamps,
                bytes: self.bytes,
                errors: self.errors,
            },
        )
    }
}

/// It does not matter which of two writers ends first: the timestamps of every entry come out
/// the same, and so do the counts.
pub proof fn law_writers_may_end_in_any_order(
    totals: TotalsView,
    a: WriterStats,
    b: WriterStats,
    entry_idx: int,
)
    requires
        totals.timestamps.len() == totals.entries,
        totals.bytes + a.bytes + b.bytes <= u64::MAX,
        totals.errors + a.errors + b.errors <= u64::MAX,
        0 <= entry_idx < totals.entries,
    ensures
        in_order(totals.with(a).with(b).timestamps[entry_idx]) == in_order(
            totals.with(b).with(a).timestamps[entry_idx],
        ),
        totals.with(a).with(b).bytes == totals.with(b).with(a).bytes,
        totals.with(a).with(b).errors == totals.with(b).with(a).errors,
{
    lemma_in_order_swap(
        totals.timestamps[entry_idx],
        written_to(a.written@, entry_idx),
        written_to(b.written@, entry_idx),
    );
}

/// The settings of the temporary bucket: those of the request, or the defaults.
pub fn ingest_settings(request: &IngestBenchmarkRequest, defaults: BucketSettings) -> (r:
    BucketSettings)
    ensures
        r == (match request.bucket_settings {
            Some(settings) => settings,
            None => defaults,
        }),
{
    match request.bucket_settings {
        Some(settings) => settings,
        None => defaults,
    }
}

/// Whether the temporary bucket stays: if that is asked for, and never on failure.
pub fn keeps_bucket(request: &IngestBenchmarkRequest, succeeded: bool) -> (r: bool)
    ensures
        r == (request.keep_bucket && succeeded),
{
    request.keep_bucket && succeeded
}

/// The result of a benchmark, with the written timestamps by entry name.
pub struct IngestOutcome {
    pub result: IngestBenchmarkResult,
    pub timestamps: Vec<(String, Vec<u64>)>,
}

/// Whether an outcome reports a phase: its times, its bytes and its errors, for the request that was
/// made.
pub open spec fn reports_phase(
    outcome: IngestOutcome,
    request: IngestBenchmarkRequest,
    entries: usize,
    elapsed_us: u64,
    phase: IngestPhase,
    sync_us: u64,
) -> bool {
    let result = outcome.result;
    &&& result.record_size == request.record_size
    &&& result.record_count == request.record_count
    &&& result.concurrency == request.concurrency
    &&& result.entries == entries
    &&& result.write == phase_of(
        elapsed_us,
        phase.bytes,
        phase.total_us@.len() as u64,
        phase.total_us@,
    )
    &&& result.begin_write_latency == stats_of(phase.begin_us@)
    &&& result.sync_us == (if request.sync_at_end {
        Some(sync_us)
    } else {
        None
    })
    &&& result.errors == phase.errors
    &&& outcome.timestamps == phase.timestamps
}

/// What a benchmark reports. The time that the sync at the end took is part of it only where the
/// request asks for a sync.
pub fn ingest_outcome(
    request: &IngestBenchmarkRequest,
    entries: usize,
    bucket: &str,
    elapsed_us: u64,
    phase: IngestPhase,
    sync_us: u64,
) -> (r: IngestOutcome)
    ensures
        r.result.bucket@ == bucket@,
        r.result.record_size == request.record_size,
        r.result.record_count == request.record_count,
        r.result.concurrency == request.concurrency,
        r.result.entries == entries,
        r.result.write == phase_of(
            elapsed_us,
            phase.bytes,
            phase.total_us@.len() as u64,
            phase.total_us@,
        ),
        r.result.begin_write_latency == stats_of(phase.begin_us@),
        r.result.sync_us == (if request.sync_at_end {
            Some(sync_us)
        } else {
            None
        }),
        r.result.errors == phase.errors,
        r.timestamps == phase.timestamps,
        reports_phase(r, *request, entries, elapsed_us, phase, sync_us),
{
    let ops: u64 = phase.total_us.len() as u64;
    IngestOutcome {
        result: IngestBenchmarkResult {
            bucket: bucket.to_owned(),
            record_size: request.record_size,
            record_count: request.record_count,
            concurrency: request.concurrency,
            entries,
            write: PhaseResult::new(elapsed_us, phase.bytes, ops, phase.total_us),
            begin_write_latency: LatencyStats::from_micros(phase.begin_us),
            sync_us: if request.sync_at_end {
                Some(sync_us)
            } else {
                None
            },
            errors: phase.errors,
        },
        timestamps: phase.timestamps,
    }
}

/// The error for a writer that broke down.
pub fn writer_task_failed(cause: &str) -> (r: ReductError)
    ensures
        r@ == (ErrorView {
            status: ErrorCode::InternalServerError,
            message: "Ingest writer task failed: "@ + cause@,
        }),
{
    let message = "Ingest writer task failed: ".to_owned().concat(cause);
    ReductError { status: ErrorCode::InternalServerError, message }
}

} // verus!
