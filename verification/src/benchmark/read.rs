//! The read benchmark: point reads and queries.

use crate::benchmark::api::{
    phase_of, stats_of, IngestBenchmarkRequest, PhaseResult, ReadBenchmarkMode, ReadBenchmarkRequest,
    ReadBenchmarkResult,
};
use crate::benchmark::config::BenchmarkApiConfig;
use crate::benchmark::random::shuffle;
use crate::benchmark::validation::{
    concurrency_problem, ingest_numbers, ingest_problem, law_ingest_request_is_accepted_iff,
    refusal, validate_concurrency, validate_ingest_request, IngestNumbers,
};
use crate::error::{ErrorCode, ErrorView, ReductError};
use crate::numbers::{lemma_sum_of_take, sum_of};
use crate::text::{decimal, decimal_text};
use vstd::prelude::*;

verus! {

/// What a benchmark reads.
pub enum ReadPlan {
    /// Records that an ingest benchmark writes first.
    Synthesized(IngestBenchmarkRequest),
    /// Records of an entry that is there, at most `limit` of them.
    Existing { bucket: String, entry: String, limit: usize },
}

/// How many records of an existing entry are read.
pub open spec fn read_limit(record_count: u64, max_records: u64) -> u64 {
    if record_count == 0 || record_count > max_records {
        max_records
    } else {
        record_count
    }
}

/// Whether a request for an ingest benchmark writes the records for a read benchmark: as many as
/// asked for, to one entry for each reader, in a bucket that stays.
pub open spec fn synthesizes(synth: IngestBenchmarkRequest, request: ReadBenchmarkRequest) -> bool {
    &&& ingest_numbers(synth) == synth_numbers(request)
    &&& synth.content_type@ == "application/octet-stream"@
    &&& !synth.sync_at_end
    &&& synth.keep_bucket
    &&& synth.bucket_settings is None
}

/// The first thing that is wrong with a read benchmark request.
pub open spec fn read_problem(request: ReadBenchmarkRequest, cfg: BenchmarkApiConfig) -> Option<
    Seq<char>,
> {
    match concurrency_problem(request.concurrency, cfg) {
        Some(problem) => Some(problem),
        None => match request.bucket {
            Some(_) => if request.entry is None || request.entry->0@.len() == 0 {
                Some("entry is required when bucket is set"@)
            } else {
                None
            },
            None => ingest_problem(synth_numbers(request), cfg),
        },
    }
}

/// The numbers of the ingest benchmark that writes the records first.
pub open spec fn synth_numbers(request: ReadBenchmarkRequest) -> IngestNumbers {
    IngestNumbers {
        record_size: request.record_size,
        record_count: request.record_count,
        labels: 0,
        concurrency: request.concurrency,
        entries: Some(request.concurrency),
    }
}

/// What a benchmark is to read, for a request that is accepted.
pub fn plan_read(request: &ReadBenchmarkRequest, cfg: &BenchmarkApiConfig) -> (r: Result<
    ReadPlan,
    ReductError,
>)
    ensures
        match r {
            Err(e) => {
                &&& read_problem(*request, *cfg) is Some
                &&& e@ == refusal(read_problem(*request, *cfg)->0)
            },
            Ok(plan) => {
                &&& read_problem(*request, *cfg) is None
                &&& match plan {
                    ReadPlan::Synthesized(synth) => request.bucket is None && synthesizes(
                        synth,
                        *request,
                    ),
                    ReadPlan::Existing { bucket, entry, limit } => {
                        &&& request.bucket is Some && bucket@ == request.bucket->0@
                        &&& entry@ == request.entry->0@
                        &&& limit == read_limit(request.record_count, cfg.max_records) as usize
                    },
                }
            },
        },
{
    match validate_concurrency(request.concurrency, cfg) {
        Err(e) => {
            return Err(e);
        },
        Ok(()) => {},
    }
    match &request.bucket {
        Some(bucket) => {
            let entry: String = match &request.entry {
                Some(entry) => entry.clone(),
                None => String::new(),
            };
            if entry.as_str().unicode_len() == 0 {
                return Err(
                    ReductError::new(
                        ErrorCode::UnprocessableEntity,
                        "entry is required when bucket is set",
                    ),
                );
            }
            let limit: u64 = if request.record_count == 0 || request.record_count
                > cfg.max_records {
                cfg.max_records
            } else {
                request.record_count
            };
            Ok(ReadPlan::Existing { bucket: bucket.clone(), entry, limit: limit as usize })
        },
        None => {
            let defaults = IngestBenchmarkRequest::default();
            let synth = IngestBenchmarkRequest {
                record_size: request.record_size,
                record_count: request.record_count,
                concurrency: request.concurrency,
                entries: Some(request.concurrency),
                labels: defaults.labels,
                content_type: defaults.content_type,
                sync_at_end: false,
                keep_bucket: true,
                bucket_settings: defaults.bucket_settings,
            };
            match validate_ingest_request(&synth, cfg) {
                Err(e) => Err(e),
                Ok(_) => Ok(ReadPlan::Synthesized(synth)),
            }
        },
    }
}

/// Whether a mode has single records read.
pub open spec fn has_points(mode: ReadBenchmarkMode) -> bool {
    mode == ReadBenchmarkMode::Point || mode == ReadBenchmarkMode::Both
}

/// Whether a mode has entries queried.
pub open spec fn has_queries(mode: ReadBenchmarkMode) -> bool {
    mode == ReadBenchmarkMode::Query || mode == ReadBenchmarkMode::Both
}

/// Whether single records are read.
pub fn reads_points(mode: ReadBenchmarkMode) -> (r: bool)
    ensures
        r == has_points(mode),
{
    match mode {
        ReadBenchmarkMode::Point => true,
        ReadBenchmarkMode::Both => true,
        ReadBenchmarkMode::Query => false,
    }
}

/// Whether entries are queried.
pub fn reads_queries(mode: ReadBenchmarkMode) -> (r: bool)
    ensures
        r == has_queries(mode),
{
    match mode {
        ReadBenchmarkMode::Query => true,
        ReadBenchmarkMode::Both => true,
        ReadBenchmarkMode::Point => false,
    }
}

/// The timestamps of one entry as pieces of work.
pub open spec fn entry_work(entry_idx: int, timestamps: Seq<u64>) -> Seq<(usize, u64)> {
    Seq::new(timestamps.len(), |i: int| (entry_idx as usize, timestamps[i]))
}

/// The timestamps of all entries as pieces of work, entry by entry.
pub open spec fn all_work(targets: Seq<(String, Vec<u64>)>) -> Seq<(usize, u64)>
    decreases targets.len(),
{
    if targets.len() == 0 {
        Seq::empty()
    } else {
        all_work(targets.drop_last()) + entry_work(targets.len() - 1, targets.last().1@)
    }
}

/// The records to be read, each with the position of its entry, entry by entry.
pub fn list_work(targets: &Vec<(String, Vec<u64>)>) -> (r: Vec<(usize, u64)>)
    ensures
        r@ == all_work(targets@),
{
    let mut work: Vec<(usize, u64)> = Vec::new();
    let mut i: usize = 0;
    assert(targets@.take(0) =~= Seq::<(String, Vec<u64>)>::empty());
    while i < targets.len()
        invariant
            i <= targets@.len(),
            work@ == all_work(targets@.take(i as int)),
        decreases targets@.len() - i,
    {
        let ghost before = work@;
        let ghost stamps = targets@[i as int].1@;
        let mut k: usize = 0;
        assert(before + entry_work(i as int, stamps.take(0)) =~= before);
        while k < targets[i].1.len()
            invariant
                i < targets@.len(),
                stamps == targets@[i as int].1@,
                k <= stamps.len(),
                work@ == before + entry_work(i as int, stamps.take(k as int)),
            decreases stamps.len() - k,
        {
            work.push((i, targets[i].1[k]));
            assert(work@ =~= before + entry_work(i as int, stamps.take(k + 1)));
            k = k + 1;
        }
        assert(stamps.take(k as int) =~= stamps);
        assert(targets@.take(i + 1).drop_last() =~= targets@.take(i as int));
        i = i + 1;
    }
    assert(targets@.take(i as int) =~= targets@);
    work
}

/// The records to be read, in a random order where that is asked for.
pub fn plan_work(targets: &Vec<(String, Vec<u64>)>, random_order: bool) -> (r: Vec<(usize, u64)>)
    ensures
        !random_order ==> r@ == all_work(targets@),
        r@.to_multiset() == all_work(targets@).to_multiset(),
        r@.len() == all_work(targets@).len(),
{
    let mut work = list_work(targets);
    if random_order {
        shuffle(&mut work);
    }
    proof {
        broadcast use vstd::seq_lib::group_to_multiset_ensures;

        assert(work@.to_multiset().len() == all_work(targets@).to_multiset().len());
    }
    work
}

/// The work of one of several readers: every `concurrency`th piece from its own number on.
pub open spec fn share_of(work: Seq<(usize, u64)>, task_id: int, concurrency: int) -> Seq<
    (usize, u64),
>
    decreases work.len(),
{
    if work.len() == 0 {
        Seq::empty()
    } else {
        let front = share_of(work.drop_last(), task_id, concurrency);
        if (work.len() - 1) % concurrency == task_id {
            front.push(work.last())
        } else {
            front
        }
    }
}

pub fn task_work(work: &Vec<(usize, u64)>, task_id: usize, concurrency: usize) -> (r: Vec<
    (usize, u64),
>)
    requires
        task_id < concurrency,
    ensures
        r@ == share_of(work@, task_id as int, concurrency as int),
{
    let mut share: Vec<(usize, u64)> = Vec::new();
    let mut i: usize = 0;
    assert(work@.take(0) =~= Seq::<(usize, u64)>::empty());
    while i < work.len()
        invariant
            i <= work@.len(),
            task_id < concurrency,
            share@ == share_of(work@.take(i as int), task_id as int, concurrency as int),
        decreases work@.len() - i,
    {
        assert(work@.take(i + 1).drop_last() =~= work@.take(i as int));
        if i % concurrency == task_id {
            share.push(work[i]);
        }
        i = i + 1;
    }
    assert(work@.take(i as int) =~= work@);
    share
}

/// The lengths of the shares of the first readers.
pub open spec fn shares_len(work: Seq<(usize, u64)>, readers: nat, concurrency: int) -> nat
    decreases readers,
{
    if readers == 0 {
        0
    } else {
        shares_len(work, (readers - 1) as nat, concurrency) + share_of(
            work,
            readers - 1,
            concurrency,
        ).len()
    }
}

proof fn lemma_shares_len(work: Seq<(usize, u64)>, readers: nat, concurrency: int)
    requires
        0 < concurrency,
        readers <= concurrency,
        work.len() > 0,
    ensures
        shares_len(work, readers, concurrency) == shares_len(work.drop_last(), readers, concurrency)
            + (if (work.len() - 1) % concurrency < readers {
            1nat
        } else {
            0nat
        }),
    decreases readers,
{
    let last = (work.len() - 1) % concurrency;
    assert(0 <= last < concurrency) by (nonlinear_arith)
        requires
            concurrency > 0,
            last == (work.len() - 1) % concurrency,
    ;
    if readers > 0 {
        lemma_shares_len(work, (readers - 1) as nat, concurrency);
    }
}

/// A reader has a piece of each full round, and one more where the last round gets to it.
proof fn lemma_share_len(work: Seq<(usize, u64)>, task_id: int, concurrency: int)
    requires
        0 <= task_id < concurrency,
    ensures
        share_of(work, task_id, concurrency).len() == work.len() as int / concurrency + (if task_id
            < work.len() as int % concurrency {
            1int
        } else {
            0int
        }),
    decreases work.len(),
{
    let len = work.len() as int;
    if len == 0 {
        lemma_round(0, 0, 0, concurrency);
    } else {
        lemma_share_len(work.drop_last(), task_id, concurrency);
        let (round, place) = ((len - 1) / concurrency, (len - 1) % concurrency);
        vstd::arithmetic::div_mod::lemma_fundamental_div_mod(len - 1, concurrency);
        vstd::arithmetic::div_mod::lemma_mod_bound(len - 1, concurrency);
        if place + 1 < concurrency {
            lemma_round(len, round, place + 1, concurrency);
        } else {
            assert(concurrency * (round + 1) == concurrency * round + concurrency)
                by (nonlinear_arith);
            lemma_round(len, round + 1, 0, concurrency);
        }
    }
}

proof fn lemma_round(n: int, round: int, place: int, concurrency: int)
    requires
        0 <= place < concurrency,
        n == concurrency * round + place,
    ensures
        n / concurrency == round,
        n % concurrency == place,
{
    assert(concurrency * round == round * concurrency) by (nonlinear_arith);
    vstd::arithmetic::div_mod::lemma_fundamental_div_mod_converse(n, concurrency, round, place);
}

/// Whether a piece of the work stands in the share of its reader, in the place of its round.
pub open spec fn in_its_share(work: Seq<(usize, u64)>, i: int, concurrency: int) -> bool {
    let share = share_of(work, i % concurrency, concurrency);
    0 <= i / concurrency < share.len() && share[i / concurrency] == work[i]
}

/// The readers together do all the work, each piece once: the shares are as long together as the
/// work, and every piece stands in the share of its reader, in the place of its round.
pub proof fn law_shares_make_the_whole(work: Seq<(usize, u64)>, concurrency: int)
    requires
        0 < concurrency,
    ensures
        shares_len(work, concurrency as nat, concurrency) == work.len(),
        forall|i: int| 0 <= i < work.len() ==> #[trigger] in_its_share(work, i, concurrency),
    decreases work.len(),
{
    if work.len() == 0 {
        lemma_no_shares(concurrency as nat, concurrency);
        assert(work =~= Seq::<(usize, u64)>::empty());
    } else {
        let front = work.drop_last();
        let last = front.len() as int;
        law_shares_make_the_whole(front, concurrency);
        lemma_shares_len(work, concurrency as nat, concurrency);
        vstd::arithmetic::div_mod::lemma_mod_bound(last, concurrency);
        lemma_share_len(front, last % concurrency, concurrency);
        vstd::arithmetic::div_mod::lemma_div_pos_is_pos(last, concurrency);
        assert forall|i: int| 0 <= i < work.len() implies #[trigger] in_its_share(
            work,
            i,
            concurrency,
        ) by {
            if i < last {
                assert(in_its_share(front, i, concurrency));
            }
        }
    }
}

proof fn lemma_no_shares(readers: nat, concurrency: int)
    ensures
        shares_len(Seq::empty(), readers, concurrency) == 0,
    decreases readers,
{
    if readers > 0 {
        lemma_no_shares((readers - 1) as nat, concurrency);
    }
}

/// What a reader has found.
pub struct ReadStats {
    pub latencies: Vec<u64>,
    pub bytes: u64,
}

impl ReadStats {
    /// Whether a reader has read one more record than before.
    pub open spec fn with_read(self, before: ReadStats, bytes: u64, latency_us: u64) -> bool {
        &&& self.latencies@ == before.latencies@.push(latency_us)
        &&& self.bytes == before.bytes + bytes
    }

    /// Whether this is what two readers have found together.
    pub open spec fn of_both(self, a: ReadStats, b: ReadStats) -> bool {
        &&& self.latencies@ == a.latencies@ + b.latencies@
        &&& self.bytes == a.bytes + b.bytes
    }

    /// What was measured in all.
    pub open spec fn phase(self, elapsed_us: u64) -> PhaseResult {
        phase_of(elapsed_us, self.bytes, self.latencies@.len() as u64, self.latencies@)
    }

    pub fn new() -> (r: ReadStats)
        ensures
            r.latencies@.len() == 0,
            r.bytes == 0,
    {
        ReadStats { latencies: Vec::new(), bytes: 0 }
    }

    /// Counts a record that was read.
    pub fn record_read(&mut self, bytes: u64, latency_us: u64)
        requires
            old(self).bytes + bytes <= u64::MAX,
        ensures
            final(self).latencies@ == old(self).latencies@.push(latency_us),
            final(self).bytes == old(self).bytes + bytes,
            final(self).with_read(*old(self), bytes, latency_us),
    {
        self.bytes = self.bytes + bytes;
        self.latencies.push(latency_us);
    }

    /// Adds what another reader has found.
    pub fn merge(&mut self, other: ReadStats)
        requires
            old(self).bytes + other.bytes <= u64::MAX,
        ensures
            final(self).latencies@ == old(self).latencies@ + other.latencies@,
            final(self).bytes == old(self).bytes + other.bytes,
            final(self).of_both(*old(self), other),
    {
        let mut latencies = other.latencies;
        self.latencies.append(&mut latencies);
        self.bytes = self.bytes + other.bytes;
    }

    /// The measured phase: an operation for each record.
    pub fn into_phase(self, elapsed_us: u64) -> (r: PhaseResult)
        ensures
            r == phase_of(
                elapsed_us,
                self.bytes,
                self.latencies@.len() as u64,
                self.latencies@,
            ),
            r == self.phase(elapsed_us),
    {
        let ops: u64 = self.latencies.len() as u64;
        PhaseResult::new(elapsed_us, self.bytes, ops, self.latencies)
    }
}

/// Whether what reading a record came to is right: its bytes, or the error with which it broke off.
pub open spec fn drains_to(
    lengths: Seq<u64>,
    failure: Option<ReductError>,
    r: Result<u64, ReductError>,
) -> bool {
    match failure {
        Some(error) => r == Err::<u64, ReductError>(error),
        None => r matches Ok(bytes) && bytes == sum_of(lengths),
    }
}

/// The bytes of a record whose chunks have the given lengths, unless reading broke off.
pub fn drained(lengths: &Vec<u64>, failure: Option<ReductError>) -> (r: Result<u64, ReductError>)
    requires
        sum_of(lengths@) <= u64::MAX,
    ensures
        match failure {
            Some(error) => r == Err::<u64, ReductError>(error),
            None => r matches Ok(bytes) && bytes == sum_of(lengths@),
        },
        drains_to(lengths@, failure, r),
{
    if let Some(error) = failure {
        return Err(error);
    }
    let mut bytes: u64 = 0;
    let mut i: usize = 0;
    assert(lengths@.take(0) =~= Seq::<u64>::empty());
    while i < lengths.len()
        invariant
            i <= lengths@.len(),
            sum_of(lengths@) <= u64::MAX,
            bytes == sum_of(lengths@.take(i as int)),
        decreases lengths@.len() - i,
    {
        proof {
            lemma_sum_of_take(lengths@, i + 1);
            assert(lengths@.take(i + 1).drop_last() =~= lengths@.take(i as int));
        }
        bytes = bytes + lengths[i];
        i = i + 1;
    }
    assert(lengths@.take(i as int) =~= lengths@);
    Ok(bytes)
}

/// What an answer of a query means.
pub enum QueryStep {
    /// A record follows.
    Record,
    /// The query is exhausted.
    End,
    Fail(ReductError),
}

/// What the next answer of a running query means: an error without content ends it as the end
/// of the answers does.
pub fn query_step(answer: Option<Result<(), ReductError>>) -> (r: QueryStep)
    ensures
        match answer {
            Some(Ok(_)) => r is Record,
            None => r is End,
            Some(Err(error)) => if error.status == ErrorCode::NoContent {
                r is End
            } else {
                r == QueryStep::Fail(error)
            },
        },
{
    match answer {
        Some(Ok(())) => QueryStep::Record,
        None => QueryStep::End,
        Some(Err(error)) => if error.status == ErrorCode::NoContent {
            QueryStep::End
        } else {
            QueryStep::Fail(error)
        },
    }
}

/// Collects timestamps up to a limit.
pub struct TimestampCollector {
    pub timestamps: Vec<u64>,
    pub limit: usize,
}

impl TimestampCollector {
    /// Whether one more timestamp was collected than before, and the answer tells whether that was
    /// the last.
    pub open spec fn with_taken(self, before: TimestampCollector, timestamp: u64, full: bool) -> bool {
        &&& self.limit == before.limit
        &&& self.timestamps@ == before.timestamps@.push(timestamp)
        &&& full <==> self.timestamps@.len() >= self.limit
    }

    pub open spec fn wf(self) -> bool {
        self.timestamps@.len() <= self.limit
    }

    pub fn new(limit: usize) -> (r: TimestampCollector)
        ensures
            r.wf(),
            r.timestamps@.len() == 0,
            r.limit == limit,
    {
        TimestampCollector { timestamps: Vec::new(), limit }
    }

    /// Whether the limit is reached. There is nothing to collect where the limit is zero.
    pub fn is_full(&self) -> (r: bool)
        ensures
            r == (self.timestamps@.len() >= self.limit),
    {
        self.timestamps.len() >= self.limit
    }

    /// Takes a timestamp, and tells whether the limit is reached.
    pub fn take(&mut self, timestamp: u64) -> (r: bool)
        requires
            old(self).wf(),
            old(self).timestamps@.len() < old(self).limit,
        ensures
            final(self).wf(),
            final(self).limit == old(self).limit,
            final(self).timestamps@ == old(self).timestamps@.push(timestamp),
            r == (final(self).timestamps@.len() >= final(self).limit),
            final(self).with_taken(*old(self), timestamp, r),
    {
        self.timestamps.push(timestamp);
        self.timestamps.len() >= self.limit
    }
}

/// The error for a reader that broke down.
pub fn read_task_failed(cause: &str) -> (r: ReductError)
    ensures
        r@ == (ErrorView {
            status: ErrorCode::InternalServerError,
            message: "Read task failed: "@ + cause@,
        }),
{
    let message = "Read task failed: ".to_owned().concat(cause);
    ReductError { status: ErrorCode::InternalServerError, message }
}

/// What a benchmark does next.
#[derive(Debug, Clone, Copy, PartialEq, Eq)]
pub enum ReadPhase {
    /// Single records are read.
    Points,
    /// The entries are queried.
    Queries,
    /// All is measured.
    Done,
}

/// A benchmark that measures one phase after the other, as the mode of its request says.
pub struct ReadRun {
    mode: ReadBenchmarkMode,
    point_read: Option<PhaseResult>,
    query: Option<PhaseResult>,
}

pub struct ReadRunView {
    pub mode: ReadBenchmarkMode,
    pub point_read: Option<PhaseResult>,
    pub query: Option<PhaseResult>,
}

impl View for ReadRun {
    type V = ReadRunView;

    closed spec fn view(&self) -> ReadRunView {
        ReadRunView { mode: self.mode, point_read: self.point_read, query: self.query }
    }
}

impl ReadRunView {
    /// What is measured is asked for, and queries come behind the single records.
    pub open spec fn wf(self) -> bool {
        &&& self.point_read is Some ==> has_points(self.mode)
        &&& self.query is Some ==> has_queries(self.mode)
        &&& self.query is Some && has_points(self.mode) ==> self.point_read is Some
    }

    pub open spec fn next(self) -> ReadPhase {
        if has_points(self.mode) && self.point_read is None {
            ReadPhase::Points
        } else if has_queries(self.mode) && self.query is None {
            ReadPhase::Queries
        } else {
            ReadPhase::Done
        }
    }
}

/// Whether a result reports a run that has measured all.
pub open spec fn reports_run(
    result: ReadBenchmarkResult,
    run: ReadRunView,
    request: ReadBenchmarkRequest,
    bucket: Seq<char>,
    prepare_us: u64,
) -> bool {
    &&& result.bucket@ == bucket
    &&& result.entry@ == (match request.entry {
        Some(entry) => entry@,
        None => "bench-0.."@ + decimal(request.concurrency as nat),
    })
    &&& result.prepared == (request.bucket is None)
    &&& result.prepare_us == prepare_us
    &&& result.point_read == run.point_read
    &&& result.query == run.query
}

impl ReadRun {
    pub fn new(request: &ReadBenchmarkRequest) -> (r: ReadRun)
        ensures
            r@ == (ReadRunView { mode: request.mode, point_read: None, query: None }),
            r@.wf(),
    {
        ReadRun { mode: request.mode, point_read: None, query: None }
    }

    /// What to measure next.
    pub fn next(&self) -> (r: ReadPhase)
        ensures
            r == self@.next(),
    {
        if reads_points(self.mode) && self.point_read.is_none() {
            ReadPhase::Points
        } else if reads_queries(self.mode) && self.query.is_none() {
            ReadPhase::Queries
        } else {
            ReadPhase::Done
        }
    }

    /// Takes what the next phase has come to.
    pub fn measured(&mut self, phase: PhaseResult)
        requires
            old(self)@.wf(),
            old(self)@.next() != ReadPhase::Done,
        ensures
            final(self)@.wf(),
            final(self)@ == (match old(self)@.next() {
                ReadPhase::Points => ReadRunView { point_read: Some(phase), ..old(self)@ },
                _ => ReadRunView { query: Some(phase), ..old(self)@ },
            }),
    {
        match self.next() {
            ReadPhase::Points => {
                self.point_read = Some(phase);
            },
            _ => {
                self.query = Some(phase);
            },
        }
    }

    /// What a benchmark reports, once all is measured. Where the request names no bucket, the
    /// records were written first; where it names no entry, the entries of all readers are named.
    pub fn finish(self, request: &ReadBenchmarkRequest, bucket: &str, prepare_us: u64) -> (r:
        ReadBenchmarkResult)
        requires
            self@.wf(),
            self@.mode == request.mode,
            self@.next() == ReadPhase::Done,
        ensures
            r.bucket@ == bucket@,
            r.entry@ == (match request.entry {
                Some(entry) => entry@,
                None => "bench-0.."@ + decimal(request.concurrency as nat),
            }),
            r.prepared == (request.bucket is None),
            r.prepare_us == prepare_us,
            r.point_read == self@.point_read,
            r.point_read is Some <==> has_points(request.mode),
            r.query == self@.query,
            r.query is Some <==> has_queries(request.mode),
            reports_run(r, self@, *request, bucket@, prepare_us),
    {
        let entry: String = match &request.entry {
            Some(entry) => entry.clone(),
            None => "bench-0..".to_owned().concat(
                decimal_text(request.concurrency as u64).as_str(),
            ),
        };
        ReadBenchmarkResult {
            bucket: bucket.to_owned(),
            entry,
            prepared: request.bucket.is_none(),
            prepare_us,
            point_read: self.point_read,
            query: self.query,
        }
    }
}

/// Every phase that the mode asks for is measured once, and no other: two phases at most, and the
/// next one is always another.
pub proof fn law_phases_come_to_an_end(run: ReadRunView, phase: PhaseResult)
    requires
        run.wf(),
    ensures
        run.next() == ReadPhase::Points ==> (ReadRunView { point_read: Some(phase), ..run }).next()
            != ReadPhase::Points,
        run.next() == ReadPhase::Queries ==> (ReadRunView { query: Some(phase), ..run }).next()
            == ReadPhase::Done,
        run.next() == ReadPhase::Done ==> (run.point_read is Some <==> has_points(run.mode)) && (
        run.query is Some <==> has_queries(run.mode)),
{
}
/// A run measures what its mode says and reports what it measured: single reads under single reads
/// and queries under queries, with the bucket that was read. Records were prepared for it exactly
/// where the request names no bucket, and the entry is the one that is named.
pub proof fn law_run_reports_what_it_measured(
    request: ReadBenchmarkRequest,
    points: PhaseResult,
    queries: PhaseResult,
    run: ReadRunView,
    bucket: Seq<char>,
    prepare_us: u64,
    result: ReadBenchmarkResult,
)
    requires
        ({
            let start = ReadRunView { mode: request.mode, point_read: None, query: None };
            let first = match start.next() {
                ReadPhase::Points => ReadRunView { point_read: Some(points), ..start },
                _ => ReadRunView { query: Some(queries), ..start },
            };
            run == (match first.next() {
                ReadPhase::Done => first,
                _ => ReadRunView { query: Some(queries), ..first },
            })
        }),
        reports_run(result, run, request, bucket, prepare_us),
    ensures
        run.next() == ReadPhase::Done,
        request.mode == ReadBenchmarkMode::Point ==> result.point_read == Some(points)
            && result.query is None,
        request.mode == ReadBenchmarkMode::Query ==> result.point_read is None && result.query
            == Some(queries),
        request.mode == ReadBenchmarkMode::Both ==> result.point_read == Some(points)
            && result.query == Some(queries),
        result.bucket@ == bucket,
        result.prepare_us == prepare_us,
        result.prepared <==> request.bucket is None,
        request.entry is Some ==> result.entry@ == request.entry->0@,
{
}

/// A request for an entry that is there reads as many records as it asks for, never more than the
/// limit; where it asks for none in particular, as many as the limit allows.
pub proof fn law_read_limit(record_count: u64, max_records: u64)
    ensures
        read_limit(record_count, max_records) <= max_records,
        record_count > 0 ==> read_limit(record_count, max_records) <= record_count,
        record_count == 0 || record_count >= max_records ==> read_limit(record_count, max_records)
            == max_records,
        0 < record_count <= max_records ==> read_limit(record_count, max_records) == record_count,
{
}

/// A read request is accepted exactly where its number of readers is, and where it names the entry
/// of the bucket that it names, or, where it names none, where the records can be written that it
/// asks for: as many and as large as it says, to one entry for each reader.
pub proof fn law_read_request_is_accepted_iff(
    request: ReadBenchmarkRequest,
    cfg: BenchmarkApiConfig,
)
    ensures
        read_problem(request, cfg) is None <==> {
            &&& 1 <= request.concurrency <= cfg.max_concurrency
            &&& request.bucket is Some ==> request.entry is Some && request.entry->0@.len() > 0
            &&& request.bucket is None ==> {
                &&& 1 <= request.record_size <= 67_108_864
                &&& 1 <= request.record_count <= cfg.max_records
                &&& request.record_size * request.record_count <= cfg.max_total_bytes
                    || cfg.max_total_bytes == u64::MAX
                &&& request.concurrency <= request.record_count
            }
        },
{
    law_ingest_request_is_accepted_iff(synth_numbers(request), cfg);
}

/// The records that are written first are those that the request describes, one entry for each
/// reader, in a bucket that stays until they were read, without labels and without a sync.
pub proof fn law_synthesized_records(synth: IngestBenchmarkRequest, request: ReadBenchmarkRequest)
    requires
        synthesizes(synth, request),
    ensures
        synth.record_size == request.record_size,
        synth.record_count == request.record_count,
        synth.concurrency == request.concurrency,
        synth.entries == Some(request.concurrency),
        synth.labels == 0,
        synth.keep_bucket,
        !synth.sync_at_end,
{
}

/// How many records stand in the entries before one.
pub open spec fn records_before(targets: Seq<(String, Vec<u64>)>, entry: int) -> nat
    decreases entry,
{
    if entry <= 0 {
        0
    } else {
        records_before(targets, entry - 1) + targets[entry - 1].1@.len()
    }
}

proof fn lemma_records_before_front(targets: Seq<(String, Vec<u64>)>, entry: int)
    requires
        0 <= entry < targets.len(),
    ensures
        records_before(targets, entry) == records_before(targets.drop_last(), entry),
    decreases entry,
{
    if entry > 0 {
        lemma_records_before_front(targets, entry - 1);
    }
}

/// The work is every record of every entry, entry by entry and in the order of the entry, each with
/// the position of its entry, and nothing else.
pub proof fn law_work_is_every_record(targets: Seq<(String, Vec<u64>)>, entry: int, i: int)
    requires
        0 <= entry < targets.len() <= usize::MAX,
        0 <= i < targets[entry].1@.len(),
    ensures
        all_work(targets).len() == records_before(targets, targets.len() as int),
        records_before(targets, entry) + i < all_work(targets).len(),
        all_work(targets)[records_before(targets, entry) + i] == (
            entry as usize,
            targets[entry].1@[i],
        ),
    decreases targets.len(),
{
    let front = targets.drop_last();
    let last = targets.len() - 1;
    lemma_work_len(targets);
    lemma_work_len(front);
    lemma_records_before_front(targets, last);
    lemma_records_before_front(targets, entry);
    if entry < last {
        law_work_is_every_record(front, entry, i);
    }
}

proof fn lemma_work_len(targets: Seq<(String, Vec<u64>)>)
    ensures
        all_work(targets).len() == records_before(targets, targets.len() as int),
    decreases targets.len(),
{
    if targets.len() > 0 {
        lemma_work_len(targets.drop_last());
        lemma_records_before_front(targets, targets.len() - 1);
    }
}

/// What a reader did: the bytes and the time of every record that it read.
pub open spec fn read_through(reads: Seq<(u64, u64)>, states: Seq<ReadStats>) -> bool {
    &&& states.len() == reads.len() + 1
    &&& states[0].latencies@.len() == 0 && states[0].bytes == 0
    &&& forall|i: int|
        0 <= i < reads.len() ==> states[i + 1].with_read(
            states[i],
            (#[trigger] reads[i]).0,
            reads[i].1,
        )
}

/// The bytes that were read.
pub open spec fn read_bytes(reads: Seq<(u64, u64)>) -> nat
    decreases reads.len(),
{
    if reads.len() == 0 {
        0
    } else {
        read_bytes(reads.drop_last()) + reads.last().0 as nat
    }
}

/// The phase of readers tells what they read: a sample for every record, of the time that it took,
/// an operation for every record, and all bytes.
pub proof fn law_phase_tells_what_was_read(
    reads: Seq<(u64, u64)>,
    states: Seq<ReadStats>,
    elapsed_us: u64,
)
    requires
        read_through(reads, states),
        reads.len() <= u64::MAX,
    ensures
        states.last().latencies@ == reads.map_values(|read: (u64, u64)| read.1),
        states.last().phase(elapsed_us).latency == stats_of(
            reads.map_values(|read: (u64, u64)| read.1),
        ),
        states.last().phase(elapsed_us).ops == reads.len(),
        states.last().phase(elapsed_us).bytes == read_bytes(reads),
        states.last().phase(elapsed_us).elapsed_us == elapsed_us,
    decreases reads.len(),
{
    let times = reads.map_values(|read: (u64, u64)| read.1);
    if reads.len() == 0 {
        assert(states.last().latencies@ =~= times);
    } else {
        let front = reads.drop_last();
        let n = reads.len() - 1;
        assert forall|i: int| 0 <= i < front.len() implies states.drop_last()[i + 1].with_read(
            states.drop_last()[i],
            (#[trigger] front[i]).0,
            front[i].1,
        ) by {
            assert(front[i] == reads[i]);
        }
        law_phase_tells_what_was_read(front, states.drop_last(), elapsed_us);
        assert(states[n + 1].with_read(states[n], reads[n].0, reads[n].1));
        assert(states.last().latencies@ =~= times);
    }
}

/// What readers have found together is what each has found, one behind the other.
pub proof fn law_readers_add_up(a: ReadStats, b: ReadStats, both: ReadStats, elapsed_us: u64)
    requires
        both.of_both(a, b),
        both.latencies@.len() <= u64::MAX,
    ensures
        both.phase(elapsed_us).ops == a.latencies@.len() + b.latencies@.len(),
        both.phase(elapsed_us).bytes == a.bytes + b.bytes,
        both.phase(elapsed_us).latency == stats_of(a.latencies@ + b.latencies@),
        both.phase(elapsed_us).elapsed_us == elapsed_us,
{
}

/// The bytes of a record are those of all its chunks, however it is cut; a record that breaks off
/// has no bytes but its error.
pub proof fn law_record_is_the_sum_of_its_chunks(
    lengths: Seq<u64>,
    more: u64,
    failure: Option<ReductError>,
    short: Result<u64, ReductError>,
    long: Result<u64, ReductError>,
)
    requires
        drains_to(lengths, failure, short),
        drains_to(lengths.push(more), failure, long),
    ensures
        failure matches Some(error) ==> short is Err && long is Err && short->Err_0 == error
            && long->Err_0 == error,
        failure is None ==> short is Ok && long is Ok && long->Ok_0 == short->Ok_0 + more,
        failure is None && lengths.len() == 0 ==> short->Ok_0 == 0,
{
    assert(lengths.push(more).drop_last() =~= lengths);
}

/// The timestamps of an entry are collected as they come, up to the limit: the collector holds
/// those that were taken, in order, and says that it is full with the last one and not before.
pub proof fn law_timestamps_are_collected(
    timestamps: Seq<u64>,
    states: Seq<TimestampCollector>,
    answers: Seq<bool>,
    limit: usize,
)
    requires
        states.len() == timestamps.len() + 1,
        answers.len() == timestamps.len(),
        states[0].timestamps@.len() == 0 && states[0].limit == limit,
        forall|i: int|
            0 <= i < timestamps.len() ==> states[i + 1].with_taken(
                states[i],
                #[trigger] timestamps[i],
                answers[i],
            ),
    ensures
        states.last().timestamps@ == timestamps,
        states.last().limit == limit,
        timestamps.len() > 0 ==> (answers.last() <==> timestamps.len() >= limit),
    decreases timestamps.len(),
{
    if timestamps.len() == 0 {
        assert(states.last().timestamps@ =~= timestamps);
    } else {
        let n = timestamps.len() - 1;
        let front = timestamps.drop_last();
        assert forall|i: int| 0 <= i < front.len() implies states.drop_last()[i + 1].with_taken(
            states.drop_last()[i],
            #[trigger] front[i],
            answers.drop_last()[i],
        ) by {
            assert(front[i] == timestamps[i]);
        }
        law_timestamps_are_collected(front, states.drop_last(), answers.drop_last(), limit);
        assert(states[n + 1].with_taken(states[n], timestamps[n], answers[n]));
        assert(states.last().timestamps@ =~= timestamps);
    }
}

} // verus!
