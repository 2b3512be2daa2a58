//! The messages of the benchmark interface.

use crate::numbers::{in_order, lemma_in_order, lemma_sum_of_bound, sort_numbers, sum_of, sum_up};
use crate::storage::settings::BucketSettings;
use vstd::prelude::*;

verus! {

/// How long operations took.
#[derive(Debug, Clone, Copy, PartialEq, Eq)]
pub struct LatencyStats {
    pub p50_us: u64,
    pub p99_us: u64,
    pub max_us: u64,
    pub mean_us: u64,
    pub samples: u64,
}

impl Default for LatencyStats {
    fn default() -> (r: LatencyStats)
        ensures
            r == stats_of(Seq::empty()),
    {
        LatencyStats { p50_us: 0, p99_us: 0, max_us: 0, mean_us: 0, samples: 0 }
    }
}

/// The latencies of a list of samples: the sample at half and at 99 of 100 of the way through
/// the samples in order, the largest one, and the mean, rounded down. All are zero where there
/// is no sample.
pub open spec fn stats_of(samples: Seq<u64>) -> LatencyStats {
    let sorted = in_order(samples);
    let len = samples.len() as int;
    if len == 0 {
        LatencyStats { p50_us: 0, p99_us: 0, max_us: 0, mean_us: 0, samples: 0 }
    } else {
        LatencyStats {
            p50_us: sorted[len * 50 / 100],
            p99_us: sorted[len * 99 / 100],
            max_us: sorted[len - 1],
            mean_us: (sum_of(samples) as int / len) as u64,
            samples: len as u64,
        }
    }
}

impl LatencyStats {
    pub fn from_micros(samples: Vec<u64>) -> (r: LatencyStats)
        ensures
            r == stats_of(samples@),
    {
        let len: usize = samples.len();
        if len == 0 {
            return LatencyStats::default();
        }
        let sum: u128 = sum_up(&samples);
        let mut samples = samples;
        let ghost given = samples@;
        sort_numbers(&mut samples);
        let half: usize = len / 2;
        let most: usize = len / 100 * 99 + len % 100 * 99 / 100;
        proof {
            lemma_sum_of_bound(given);
            assert(sum / (len as u128) <= u64::MAX) by (nonlinear_arith)
                requires
                    sum <= len * u64::MAX,
                    len > 0,
            ;
        }
        LatencyStats {
            p50_us: samples[half],
            p99_us: samples[most],
            max_us: samples[len - 1],
            mean_us: (sum / len as u128) as u64,
            samples: len as u64,
        }
    }
}

/// A measured phase of a benchmark.
#[derive(Debug, Clone, Copy, PartialEq, Eq)]
pub struct PhaseResult {
    pub elapsed_us: u64,
    pub bytes: u64,
    pub ops: u64,
    pub latency: LatencyStats,
}

impl Default for PhaseResult {
    fn default() -> (r: PhaseResult)
        ensures
            r == phase_of(0, 0, 0, Seq::empty()),
    {
        PhaseResult { elapsed_us: 0, bytes: 0, ops: 0, latency: LatencyStats::default() }
    }
}

pub open spec fn phase_of(elapsed_us: u64, bytes: u64, ops: u64, samples: Seq<u64>) -> PhaseResult {
    PhaseResult { elapsed_us, bytes, ops, latency: stats_of(samples) }
}

impl PhaseResult {
    pub fn new(elapsed_us: u64, bytes: u64, ops: u64, latency_samples_us: Vec<u64>) -> (r:
        PhaseResult)
        ensures
            r == phase_of(elapsed_us, bytes, ops, latency_samples_us@),
    {
        PhaseResult {
            elapsed_us,
            bytes,
            ops,
            latency: LatencyStats::from_micros(latency_samples_us),
        }
    }
}

/// No sample is larger than the largest; neither is the mean. The middle of the samples is not
/// above the 99th percentile, and that not above the largest.
pub proof fn law_latencies_in_order(samples: Seq<u64>)
    ensures
        stats_of(samples).p50_us <= stats_of(samples).p99_us,
        stats_of(samples).p99_us <= stats_of(samples).max_us,
        forall|i: int| 0 <= i < samples.len() ==> #[trigger] samples[i] <= stats_of(samples).max_us,
        stats_of(samples).mean_us <= stats_of(samples).max_us,
        samples.len() <= u64::MAX ==> stats_of(samples).samples == samples.len(),
{
    let sorted = in_order(samples);
    let len = samples.len() as int;
    if len > 0 {
        lemma_in_order(samples);
        let leq = |a: u64, b: u64| a <= b;
        assert(leq(sorted[len * 50 / 100], sorted[len * 99 / 100]));
        assert(leq(sorted[len * 99 / 100], sorted[len - 1]));
        let max = sorted[len - 1];
        assert forall|i: int| 0 <= i < samples.len() implies #[trigger] samples[i] <= max by {
            broadcast use vstd::seq_lib::group_to_multiset_ensures;

            assert(samples.contains(samples[i]));
            assert(samples.to_multiset().contains(samples[i]));
            assert(sorted.contains(samples[i]));
            let j = choose|j: int| 0 <= j < sorted.len() && sorted[j] == samples[i];
            assert(leq(sorted[j], sorted[len - 1]));
        }
        lemma_sum_at_most(samples, max);
        assert(sum_of(samples) as int / len <= max) by (nonlinear_arith)
            requires
                sum_of(samples) <= len * max,
                len > 0,
        ;
        assert(sum_of(samples) as int / len >= 0) by (nonlinear_arith)
            requires
                len > 0,
        ;
    }
}

proof fn lemma_sum_at_most(samples: Seq<u64>, max: u64)
    requires
        forall|i: int| 0 <= i < samples.len() ==> #[trigger] samples[i] <= max,
    ensures
        sum_of(samples) <= samples.len() * max,
    decreases samples.len(),
{
    if samples.len() > 0 {
        let front = samples.drop_last();
        assert forall|i: int| 0 <= i < front.len() implies #[trigger] front[i] <= max by {
            assert(front[i] == samples[i]);
        }
        lemma_sum_at_most(front, max);
        assert(samples[samples.len() - 1] <= max);
        assert((samples.len() - 1) * max + max == samples.len() * max) by (nonlinear_arith);
    }
}

/// When the disk benchmark forces data to the disk.
#[derive(Debug, Clone, Copy, PartialEq, Eq, Structural)]
pub enum DiskFsyncMode {
    /// Never.
    Off,
    /// Once, behind all writes.
    End,
    /// Behind each write.
    Each,
}

impl Default for DiskFsyncMode {
    fn default() -> (r: DiskFsyncMode)
        ensures
            r == DiskFsyncMode::Off,
    {
        DiskFsyncMode::Off
    }
}

#[derive(Debug, Clone, Copy, PartialEq, Eq)]
pub struct DiskBenchmarkRequest {
    pub block_size: u64,
    pub total_size: u64,
    pub fsync: DiskFsyncMode,
    pub read_sequential: bool,
    pub random_reads: u64,
    pub random_read_size: u64,
    pub keep_file: bool,
}

pub open spec fn default_disk_request() -> DiskBenchmarkRequest {
    DiskBenchmarkRequest {
        block_size: 1048576,
        total_size: 268435456,
        fsync: DiskFsyncMode::Off,
        read_sequential: true,
        random_reads: 10_000,
        random_read_size: 4096,
        keep_file: false,
    }
}

impl Default for DiskBenchmarkRequest {
    fn default() -> (r: DiskBenchmarkRequest)
        ensures
            r == default_disk_request(),
    {
        DiskBenchmarkRequest {
            block_size: 1024 * 1024,
            total_size: 256 * 1024 * 1024,
            fsync: DiskFsyncMode::Off,
            read_sequential: true,
            random_reads: 10_000,
            random_read_size: 4096,
            keep_file: false,
        }
    }
}

#[derive(Debug, PartialEq)]
pub struct DiskBenchmarkResult {
    pub path: String,
    pub block_size: u64,
    pub total_size: u64,
    pub fsync: DiskFsyncMode,
    pub write: PhaseResult,
    pub fsync_us: Option<u64>,
    pub read_sequential: Option<PhaseResult>,
    pub random_read: Option<PhaseResult>,
}

#[derive(Debug, PartialEq)]
pub struct IngestBenchmarkRequest {
    pub record_size: u64,
    pub record_count: u64,
    pub concurrency: usize,
    pub entries: Option<usize>,
    pub labels: usize,
    pub content_type: String,
    pub sync_at_end: bool,
    pub keep_bucket: bool,
    pub bucket_settings: Option<BucketSettings>,
}

/// Whether a request asks for what is asked for by default.
pub open spec fn is_default_ingest_request(r: IngestBenchmarkRequest) -> bool {
    &&& r.record_size == 100_000
    &&& r.record_count == 10_000
    &&& r.concurrency == 1
    &&& r.entries is None
    &&& r.labels == 0
    &&& r.content_type@ == "application/octet-stream"@
    &&& r.sync_at_end
    &&& !r.keep_bucket
    &&& r.bucket_settings is None
}

impl Default for IngestBenchmarkRequest {
    fn default() -> (r: IngestBenchmarkRequest)
        ensures
            is_default_ingest_request(r),
    {
        IngestBenchmarkRequest {
            record_size: 100_000,
            record_count: 10_000,
            concurrency: 1,
            entries: None,
            labels: 0,
            content_type: "application/octet-stream".to_owned(),
            sync_at_end: true,
            keep_bucket: false,
            bucket_settings: None,
        }
    }
}

impl Clone for IngestBenchmarkRequest {
    fn clone(&self) -> (r: IngestBenchmarkRequest)
        ensures
            r == (IngestBenchmarkRequest { content_type: r.content_type, ..*self }),
            r.content_type@ == self.content_type@,
    {
        IngestBenchmarkRequest {
            record_size: self.record_size,
            record_count: self.record_count,
            concurrency: self.concurrency,
            entries: self.entries,
            labels: self.labels,
            content_type: self.content_type.clone(),
            sync_at_end: self.sync_at_end,
            keep_bucket: self.keep_bucket,
            bucket_settings: self.bucket_settings,
        }
    }
}

#[derive(Debug, PartialEq)]
pub struct IngestBenchmarkResult {
    pub bucket: String,
    pub record_size: u64,
    pub record_count: u64,
    pub concurrency: usize,
    pub entries: usize,
    pub write: PhaseResult,
    pub begin_write_latency: LatencyStats,
    pub sync_us: Option<u64>,
    pub errors: u64,
}

/// What the read benchmark measures.
#[derive(Debug, Clone, Copy, PartialEq, Eq, Structural)]
pub enum ReadBenchmarkMode {
    Point,
    Query,
    Both,
}

impl Default for ReadBenchmarkMode {
    fn default() -> (r: ReadBenchmarkMode)
        ensures
            r == ReadBenchmarkMode::Both,
    {
        ReadBenchmarkMode::Both
    }
}

#[derive(Debug, PartialEq)]
pub struct ReadBenchmarkRequest {
    pub bucket: Option<String>,
    pub entry: Option<String>,
    pub record_size: u64,
    pub record_count: u64,
    pub concurrency: usize,
    pub mode: ReadBenchmarkMode,
    pub random_order: bool,
}

/// Whether a request asks for what is asked for by default.
pub open spec fn is_default_read_request(r: ReadBenchmarkRequest) -> bool {
    &&& r.bucket is None
    &&& r.entry is None
    &&& r.record_size == 100_000
    &&& r.record_count == 10_000
    &&& r.concurrency == 1
    &&& r.mode == ReadBenchmarkMode::Both
    &&& r.random_order
}

impl Default for ReadBenchmarkRequest {
    fn default() -> (r: ReadBenchmarkRequest)
        ensures
            is_default_read_request(r),
    {
        ReadBenchmarkRequest {
            bucket: None,
            entry: None,
            record_size: 100_000,
            record_count: 10_000,
            concurrency: 1,
            mode: ReadBenchmarkMode::Both,
            random_order: true,
        }
    }
}

#[derive(Debug, PartialEq)]
pub struct ReadBenchmarkResult {
    pub bucket: String,
    pub entry: String,
    pub prepared: bool,
    pub prepare_us: u64,
    pub point_read: Option<PhaseResult>,
    pub query: Option<PhaseResult>,
}

/// Whether a benchmark is running.
#[derive(Debug, PartialEq)]
pub struct BenchmarkStatus {
    pub busy: bool,
    pub running: Option<String>,
    pub started_at: Option<u64>,
}

impl Default for BenchmarkStatus {
    fn default() -> (r: BenchmarkStatus)
        ensures
            r == (BenchmarkStatus { busy: false, running: None, started_at: None }),
    {
        BenchmarkStatus { busy: false, running: None, started_at: None }
    }
}

/// What a benchmark asks for by default.
#[derive(Debug, PartialEq)]
pub enum BenchmarkDefaults {
    Disk(DiskBenchmarkRequest),
    Ingest(IngestBenchmarkRequest),
    Read(ReadBenchmarkRequest),
}

/// A benchmark, with its defaults and its limits by name.
#[derive(Debug, PartialEq)]
pub struct BenchmarkDescriptor {
    pub name: String,
    pub path: String,
    pub description: String,
    pub defaults: BenchmarkDefaults,
    pub limits: Vec<(String, u64)>,
}

#[derive(Debug, PartialEq)]
pub struct BenchmarkList {
    pub benchmarks: Vec<BenchmarkDescriptor>,
}

} // verus!
