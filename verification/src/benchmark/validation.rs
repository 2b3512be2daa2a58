//! Which benchmark requests are accepted.

use crate::benchmark::api::{DiskBenchmarkRequest, IngestBenchmarkRequest};
use crate::benchmark::config::BenchmarkApiConfig;
use crate::benchmark::disk::runnable;
use crate::error::{ErrorCode, ErrorView, ReductError};
use crate::text::{decimal, decimal_text};
use vstd::arithmetic::power2::{lemma2_to64, lemma_pow2_pos, lemma_pow2_unfold, pow2};
use vstd::prelude::*;

verus! {

pub const MIN_BLOCK_SIZE: u64 = 4096;

pub const MAX_BLOCK_SIZE: u64 = 67108864;

pub const MAX_RECORD_SIZE: u64 = 67108864;

pub const MAX_LABELS: usize = 64;

/// The error for a request that is not accepted.
pub open spec fn refusal(message: Seq<char>) -> ErrorView {
    ErrorView { status: ErrorCode::UnprocessableEntity, message }
}

fn refuse(message: &str) -> (r: ReductError)
    ensures
        r@ == refusal(message@),
{
    ReductError::new(ErrorCode::UnprocessableEntity, message)
}

/// Whether a number is a power of two.
pub open spec fn power_of_two(n: nat) -> bool
    decreases n,
{
    n == 1 || (n > 1 && n % 2 == 0 && power_of_two(n / 2))
}

fn is_power_of_two(n: u64) -> (r: bool)
    ensures
        r == power_of_two(n as nat),
{
    let mut left: u64 = n;
    while left > 1 && left % 2 == 0
        invariant
            power_of_two(left as nat) == power_of_two(n as nat),
        decreases left,
    {
        left = left / 2;
    }
    left == 1
}

/// What is wrong with the size of the blocks or of the file.
pub open spec fn size_problem(
    req: DiskBenchmarkRequest,
    cfg: BenchmarkApiConfig,
    available_space: u64,
) -> Option<Seq<char>> {
    if req.block_size < MIN_BLOCK_SIZE || req.block_size > MAX_BLOCK_SIZE {
        Some(
            "block_size must be between "@ + decimal(MIN_BLOCK_SIZE as nat) + " and "@ + decimal(
                MAX_BLOCK_SIZE as nat,
            ) + " bytes"@,
        )
    } else if !power_of_two(req.block_size as nat) {
        Some("block_size must be a power of two"@)
    } else if req.total_size == 0 || req.total_size % req.block_size != 0 {
        Some("total_size must be a positive multiple of block_size"@)
    } else if req.total_size > cfg.max_total_bytes {
        Some(
            "total_size "@ + decimal(req.total_size as nat)
                + " exceeds RS_BENCHMARK_MAX_TOTAL_SIZE ("@ + decimal(cfg.max_total_bytes as nat)
                + ")"@,
        )
    } else if req.total_size >= available_space {
        Some(
            "total_size "@ + decimal(req.total_size as nat) + " exceeds available disk space ("@
                + decimal(available_space as nat) + ")"@,
        )
    } else {
        None
    }
}

/// What is wrong with the random reads.
pub open spec fn random_problem(req: DiskBenchmarkRequest, cfg: BenchmarkApiConfig) -> Option<
    Seq<char>,
> {
    if req.random_reads == 0 {
        None
    } else if req.random_read_size == 0 || req.random_read_size > req.total_size
        || req.random_read_size > MAX_BLOCK_SIZE {
        Some(
            "random_read_size must be between 1 and min(total_size, "@ + decimal(
                MAX_BLOCK_SIZE as nat,
            ) + ")"@,
        )
    } else if req.random_reads > cfg.max_records {
        Some(
            "random_reads "@ + decimal(req.random_reads as nat)
                + " exceeds RS_BENCHMARK_MAX_RECORDS ("@ + decimal(cfg.max_records as nat) + ")"@,
        )
    } else {
        None
    }
}

/// The first thing that is wrong with a disk benchmark request.
pub open spec fn disk_problem(
    req: DiskBenchmarkRequest,
    cfg: BenchmarkApiConfig,
    available_space: u64,
) -> Option<Seq<char>> {
    match size_problem(req, cfg, available_space) {
        Some(problem) => Some(problem),
        None => random_problem(req, cfg),
    }
}

/// Whether a check came out as the problem says.
pub open spec fn checked<T>(r: Result<T, ReductError>, problem: Option<Seq<char>>) -> bool {
    match problem {
        None => r is Ok,
        Some(message) => r matches Err(e) && e@ == refusal(message),
    }
}

/// A text with two numbers in it.
fn with_numbers(a: &str, x: u64, b: &str, y: u64, c: &str) -> (r: String)
    ensures
        r@ == a@ + decimal(x as nat) + b@ + decimal(y as nat) + c@,
{
    a.to_owned().concat(decimal_text(x).as_str()).concat(b).concat(
        decimal_text(y).as_str(),
    ).concat(c)
}

/// A text with a number in it.
fn with_number(a: &str, x: u64, b: &str) -> (r: String)
    ensures
        r@ == a@ + decimal(x as nat) + b@,
{
    a.to_owned().concat(decimal_text(x).as_str()).concat(b)
}

pub fn validate_disk_request(
    req: &DiskBenchmarkRequest,
    cfg: &BenchmarkApiConfig,
    available_space: u64,
) -> (r: Result<(), ReductError>)
    ensures
        checked(r, disk_problem(*req, *cfg, available_space)),
{
    if req.block_size < MIN_BLOCK_SIZE || req.block_size > MAX_BLOCK_SIZE {
        return Err(
            refuse(
                with_numbers(
                    "block_size must be between ",
                    MIN_BLOCK_SIZE,
                    " and ",
                    MAX_BLOCK_SIZE,
                    " bytes",
                ).as_str(),
            ),
        );
    }
    if !is_power_of_two(req.block_size) {
        return Err(refuse("block_size must be a power of two"));
    }
    if req.total_size == 0 || req.total_size % req.block_size != 0 {
        return Err(refuse("total_size must be a positive multiple of block_size"));
    }
    if req.total_size > cfg.max_total_bytes {
        return Err(
            refuse(
                with_numbers(
                    "total_size ",
                    req.total_size,
                    " exceeds RS_BENCHMARK_MAX_TOTAL_SIZE (",
                    cfg.max_total_bytes,
                    ")",
                ).as_str(),
            ),
        );
    }
    if req.total_size >= available_space {
        return Err(
            refuse(
                with_numbers(
                    "total_size ",
                    req.total_size,
                    " exceeds available disk space (",
                    available_space,
                    ")",
                ).as_str(),
            ),
        );
    }
    if req.random_reads > 0 {
        if req.random_read_size == 0 || req.random_read_size > req.total_size
            || req.random_read_size > MAX_BLOCK_SIZE {
            return Err(
                refuse(
                    with_number(
                        "random_read_size must be between 1 and min(total_size, ",
                        MAX_BLOCK_SIZE,
                        ")",
                    ).as_str(),
                ),
            );
        }
        if req.random_reads > cfg.max_records {
            return Err(
                refuse(
                    with_numbers(
                        "random_reads ",
                        req.random_reads,
                        " exceeds RS_BENCHMARK_MAX_RECORDS (",
                        cfg.max_records,
                        ")",
                    ).as_str(),
                ),
            );
        }
    }
    Ok(())
}

pub open spec fn concurrency_problem(concurrency: usize, cfg: BenchmarkApiConfig) -> Option<
    Seq<char>,
> {
    if concurrency == 0 || concurrency > cfg.max_concurrency {
        Some(
            "concurrency must be between 1 and RS_BENCHMARK_MAX_CONCURRENCY ("@ + decimal(
                cfg.max_concurrency as nat,
            ) + ")"@,
        )
    } else {
        None
    }
}

pub fn validate_concurrency(concurrency: usize, cfg: &BenchmarkApiConfig) -> (r: Result<
    (),
    ReductError,
>)
    ensures
        checked(r, concurrency_problem(concurrency, *cfg)),
{
    if concurrency == 0 || concurrency > cfg.max_concurrency {
        Err(
            refuse(
                with_number(
                    "concurrency must be between 1 and RS_BENCHMARK_MAX_CONCURRENCY (",
                    cfg.max_concurrency as u64,
                    ")",
                ).as_str(),
            ),
        )
    } else {
        Ok(())
    }
}

/// The numbers of an ingest benchmark request.
pub struct IngestNumbers {
    pub record_size: u64,
    pub record_count: u64,
    pub labels: usize,
    pub concurrency: usize,
    pub entries: Option<usize>,
}

pub open spec fn ingest_numbers(req: IngestBenchmarkRequest) -> IngestNumbers {
    IngestNumbers {
        record_size: req.record_size,
        record_count: req.record_count,
        labels: req.labels,
        concurrency: req.concurrency,
        entries: req.entries,
    }
}

/// The bytes of all records; the largest number stands for more.
pub open spec fn ingest_total(req: IngestNumbers) -> nat {
    if req.record_size * req.record_count <= u64::MAX {
        (req.record_size * req.record_count) as nat
    } else {
        u64::MAX as nat
    }
}

/// The number of entries to spread writers over.
pub open spec fn ingest_entries(req: IngestNumbers) -> usize {
    match req.entries {
        Some(entries) => entries,
        None => req.concurrency,
    }
}

/// What is wrong with the records.
pub open spec fn records_problem(req: IngestNumbers, cfg: BenchmarkApiConfig) -> Option<
    Seq<char>,
> {
    if req.record_size == 0 {
        Some("record_size must be positive"@)
    } else if req.record_size > MAX_RECORD_SIZE {
        Some("record_size must not exceed "@ + decimal(MAX_RECORD_SIZE as nat) + " bytes"@)
    } else if req.labels > MAX_LABELS {
        Some("labels must not exceed "@ + decimal(MAX_LABELS as nat))
    } else if req.record_count == 0 {
        Some("record_count must be positive"@)
    } else if req.record_count > cfg.max_records {
        Some(
            "record_count "@ + decimal(req.record_count as nat)
                + " exceeds RS_BENCHMARK_MAX_RECORDS ("@ + decimal(cfg.max_records as nat) + ")"@,
        )
    } else if ingest_total(req) > cfg.max_total_bytes {
        Some(
            "record_size * record_count ("@ + decimal(ingest_total(req))
                + ") exceeds RS_BENCHMARK_MAX_TOTAL_SIZE ("@ + decimal(cfg.max_total_bytes as nat)
                + ")"@,
        )
    } else {
        None
    }
}

/// What is wrong with the entries.
pub open spec fn entries_problem(req: IngestNumbers) -> Option<Seq<char>> {
    let entries = ingest_entries(req);
    if entries == 0 {
        Some("entries must be positive"@)
    } else if entries < req.concurrency {
        Some(
            "entries must be >= concurrency: one writer per entry until same-entry concurrency is fixed"@,
        )
    } else if entries > req.record_count {
        Some("entries must not exceed record_count"@)
    } else {
        None
    }
}

/// The first thing that is wrong with an ingest benchmark request.
pub open spec fn ingest_problem(req: IngestNumbers, cfg: BenchmarkApiConfig) -> Option<
    Seq<char>,
> {
    match records_problem(req, cfg) {
        Some(problem) => Some(problem),
        None => match concurrency_problem(req.concurrency, cfg) {
            Some(problem) => Some(problem),
            None => entries_problem(req),
        },
    }
}

fn validate_records(req: &IngestBenchmarkRequest, cfg: &BenchmarkApiConfig) -> (r: Result<
    (),
    ReductError,
>)
    ensures
        checked(r, records_problem(ingest_numbers(*req), *cfg)),
{
    if req.record_size == 0 {
        return Err(refuse("record_size must be positive"));
    }
    if req.record_size > MAX_RECORD_SIZE {
        return Err(
            refuse(
                with_number("record_size must not exceed ", MAX_RECORD_SIZE, " bytes").as_str(),
            ),
        );
    }
    if req.labels > MAX_LABELS {
        let message = "labels must not exceed ".to_owned().concat(
            decimal_text(MAX_LABELS as u64).as_str(),
        );
        return Err(refuse(message.as_str()));
    }
    if req.record_count == 0 {
        return Err(refuse("record_count must be positive"));
    }
    if req.record_count > cfg.max_records {
        return Err(
            refuse(
                with_numbers(
                    "record_count ",
                    req.record_count,
                    " exceeds RS_BENCHMARK_MAX_RECORDS (",
                    cfg.max_records,
                    ")",
                ).as_str(),
            ),
        );
    }
    let total: u64 = match req.record_size.checked_mul(req.record_count) {
        Some(total) => total,
        None => u64::MAX,
    };
    if total > cfg.max_total_bytes {
        return Err(
            refuse(
                with_numbers(
                    "record_size * record_count (",
                    total,
                    ") exceeds RS_BENCHMARK_MAX_TOTAL_SIZE (",
                    cfg.max_total_bytes,
                    ")",
                ).as_str(),
            ),
        );
    }
    Ok(())
}

/// The number of entries to spread writers over, for a request that is accepted.
pub fn validate_ingest_request(req: &IngestBenchmarkRequest, cfg: &BenchmarkApiConfig) -> (r: Result<
    usize,
    ReductError,
>)
    ensures
        checked(r, ingest_problem(ingest_numbers(*req), *cfg)),
        r matches Ok(entries) ==> entries == ingest_entries(ingest_numbers(*req)),
{
    match validate_records(req, cfg) {
        Err(e) => {
            return Err(e);
        },
        Ok(()) => {},
    }
    match validate_concurrency(req.concurrency, cfg) {
        Err(e) => {
            return Err(e);
        },
        Ok(()) => {},
    }
    let entries: usize = match req.entries {
        Some(entries) => entries,
        None => req.concurrency,
    };
    if entries == 0 {
        return Err(refuse("entries must be positive"));
    }
    if entries < req.concurrency {
        return Err(
            refuse(
                "entries must be >= concurrency: one writer per entry until same-entry concurrency is fixed",
            ),
        );
    }
    if entries as u64 > req.record_count {
        return Err(refuse("entries must not exceed record_count"));
    }
    Ok(entries)
}

/// An accepted disk request can be run, unless so many random reads are allowed that their bytes
/// cannot be counted: there is at least one block, the blocks fill the file, and a random read
/// fits into it.
pub proof fn law_accepted_disk_request(
    req: DiskBenchmarkRequest,
    cfg: BenchmarkApiConfig,
    available_space: u64,
)
    requires
        disk_problem(req, cfg, available_space) is None,
    ensures
        req.block_size > 0,
        req.total_size % req.block_size == 0,
        req.total_size / req.block_size >= 1,
        req.random_reads > 0 ==> 1 <= req.random_read_size <= req.total_size,
        cfg.max_records * MAX_BLOCK_SIZE <= u64::MAX ==> runnable(req),
{
    let (t, b) = (req.total_size as int, req.block_size as int);
    let (reads, size) = (req.random_reads as int, req.random_read_size as int);
    if reads > 0 {
        let most = cfg.max_records as int;
        assert(reads * size <= most * MAX_BLOCK_SIZE) by (nonlinear_arith)
            requires
                0 <= reads <= most,
                0 <= size <= MAX_BLOCK_SIZE,
        ;
    }
    assert(t / b >= 1) by (nonlinear_arith)
        requires
            t > 0,
            b > 0,
            t % b == 0,
    ;
}

/// An accepted ingest request can be run: there is a writer, an entry for each writer, a record
/// for each entry, and all records fit into the limit.
pub proof fn law_accepted_ingest_request(req: IngestNumbers, cfg: BenchmarkApiConfig)
    requires
        ingest_problem(req, cfg) is None,
    ensures
        1 <= req.concurrency <= ingest_entries(req) <= req.record_count,
        req.record_size * req.record_count <= cfg.max_total_bytes || cfg.max_total_bytes
            == u64::MAX,
        req.record_count <= cfg.max_records,
        1 <= req.record_size <= MAX_RECORD_SIZE,
        req.labels <= MAX_LABELS,
{
}
/// The powers of two are what doubling one comes to.
pub proof fn law_powers_of_two(n: nat)
    ensures
        power_of_two(n) <==> exists|k: nat| n == #[trigger] pow2(k),
    decreases n,
{
    if n == 1 {
        lemma2_to64();
        assert(n == pow2(0));
    } else if n > 1 && n % 2 == 0 {
        law_powers_of_two(n / 2);
        if power_of_two(n / 2) {
            let k = choose|k: nat| n / 2 == #[trigger] pow2(k);
            lemma_pow2_unfold(k + 1);
            assert(n == pow2(k + 1));
        }
        if exists|k: nat| n == #[trigger] pow2(k) {
            let k = choose|k: nat| n == #[trigger] pow2(k);
            lemma2_to64();
            assert(k > 0);
            lemma_pow2_unfold(k);
            assert(n / 2 == pow2((k - 1) as nat));
        }
    } else if exists|k: nat| n == #[trigger] pow2(k) {
        let k = choose|k: nat| n == #[trigger] pow2(k);
        lemma2_to64();
        lemma_pow2_pos(k);
        if k > 0 {
            lemma_pow2_unfold(k);
            lemma_pow2_pos((k - 1) as nat);
        }
    }
}

/// A disk request is accepted exactly where its blocks are of a size that is allowed and a power of
/// two, fill the file, and fit under the limit and on the disk with room to spare, and where its
/// random reads, if any, fit into the file and under the limit.
pub proof fn law_disk_request_is_accepted_iff(
    req: DiskBenchmarkRequest,
    cfg: BenchmarkApiConfig,
    available_space: u64,
)
    ensures
        disk_problem(req, cfg, available_space) is None <==> {
            &&& 4096 <= req.block_size <= 67_108_864
            &&& exists|k: nat| req.block_size == #[trigger] pow2(k)
            &&& req.total_size > 0
            &&& req.total_size as int % req.block_size as int == 0
            &&& req.total_size <= cfg.max_total_bytes
            &&& req.total_size < available_space
            &&& req.random_reads > 0 ==> {
                &&& 1 <= req.random_read_size <= req.total_size
                &&& req.random_read_size <= 67_108_864
                &&& req.random_reads <= cfg.max_records
            }
        },
{
    law_powers_of_two(req.block_size as nat);
}

/// An ingest request is accepted exactly where there are records, of a size that is allowed and no
/// more of them, nor of their bytes, than the limits say; where there are writers and no more than
/// the limit says; and where every writer has an entry and every entry a record.
pub proof fn law_ingest_request_is_accepted_iff(req: IngestNumbers, cfg: BenchmarkApiConfig)
    ensures
        ingest_problem(req, cfg) is None <==> {
            let entries = if req.entries is Some {
                req.entries->0 as int
            } else {
                req.concurrency as int
            };
            &&& 1 <= req.record_size <= 67_108_864
            &&& req.labels <= 64
            &&& 1 <= req.record_count <= cfg.max_records
            &&& req.record_size * req.record_count <= cfg.max_total_bytes || cfg.max_total_bytes
                == u64::MAX
            &&& 1 <= req.concurrency <= cfg.max_concurrency
            &&& 1 <= entries
            &&& req.concurrency <= entries <= req.record_count
        },
{
}

/// As many entries are written as the request says, or one for each writer.
pub proof fn law_entries_are_those_asked_for(req: IngestNumbers, entries: usize)
    ensures
        req.entries == Some(entries) ==> ingest_entries(req) == entries,
        req.entries is None ==> ingest_entries(req) == req.concurrency,
{
}

/// A request is refused with the status that says that it cannot be processed.
pub proof fn law_refusals_say_so<T>(r: Result<T, ReductError>, problem: Option<Seq<char>>)
    requires
        checked(r, problem),
    ensures
        r is Ok <==> problem is None,
        r matches Err(e) ==> e@.status == ErrorCode::UnprocessableEntity && e@.message
            == problem->0,
{
}

/// A refused request is told the first thing that is wrong with it: of a block size that cannot be,
/// whatever else is asked for; of a file that is too large for the limit, whatever room there is; of
/// the file, whatever is to be read at random.
pub proof fn law_first_problem_with_a_disk_request(
    req: DiskBenchmarkRequest,
    other: DiskBenchmarkRequest,
    cfg: BenchmarkApiConfig,
    other_cfg: BenchmarkApiConfig,
    available_space: u64,
    other_space: u64,
)
    ensures
        !(4096 <= req.block_size <= 67_108_864) && other.block_size == req.block_size
            ==> disk_problem(req, cfg, available_space) == disk_problem(
            other,
            other_cfg,
            other_space,
        ),
        !power_of_two(req.block_size as nat) && other.block_size == req.block_size ==> disk_problem(
            req,
            cfg,
            available_space,
        ) == disk_problem(other, other_cfg, other_space),
        (req.total_size == 0 || req.block_size > 0 && req.total_size % req.block_size != 0)
            && other.block_size == req.block_size && other.total_size == req.total_size
            ==> disk_problem(req, cfg, available_space) == disk_problem(
            other,
            other_cfg,
            other_space,
        ),
        req.total_size > cfg.max_total_bytes && other.block_size == req.block_size
            && other.total_size == req.total_size ==> disk_problem(req, cfg, available_space)
            == disk_problem(other, cfg, other_space),
        req.total_size >= available_space && other.block_size == req.block_size && other.total_size
            == req.total_size ==> disk_problem(req, cfg, available_space) == disk_problem(
            other,
            cfg,
            available_space,
        ),
        (req.random_reads == 0) && other == (DiskBenchmarkRequest {
            random_read_size: other.random_read_size,
            ..req
        }) ==> disk_problem(req, cfg, available_space) == disk_problem(other, cfg, available_space),
        req.random_reads > cfg.max_records && !(1 <= req.random_read_size <= 67_108_864) && other
            == (DiskBenchmarkRequest { random_reads: 1, ..req }) ==> disk_problem(
            req,
            cfg,
            available_space,
        ) == disk_problem(other, cfg, available_space),
{
}

/// A refused request is told the first thing that is wrong with it: of its records, whatever
/// writers and entries it asks for, and of the writers, whatever entries.
pub proof fn law_first_problem_with_an_ingest_request(
    req: IngestNumbers,
    other: IngestNumbers,
    cfg: BenchmarkApiConfig,
    other_cfg: BenchmarkApiConfig,
)
    ensures
        !(1 <= req.record_size <= 67_108_864) && other.record_size == req.record_size
            ==> ingest_problem(req, cfg) == ingest_problem(other, other_cfg),
        req.labels > 64 && other.record_size == req.record_size && other.labels == req.labels
            ==> ingest_problem(req, cfg) == ingest_problem(other, other_cfg),
        req.record_count == 0 && other.record_size == req.record_size && other.labels == req.labels
            && other.record_count == 0 ==> ingest_problem(req, cfg) == ingest_problem(
            other,
            other_cfg,
        ),
        req.record_count > cfg.max_records && other.record_size == req.record_size && other.labels
            == req.labels && other.record_count == req.record_count ==> ingest_problem(req, cfg)
            == ingest_problem(
            other,
            (BenchmarkApiConfig { max_records: cfg.max_records, ..other_cfg }),
        ),
        records_problem(req, cfg) is Some && other.record_size == req.record_size && other.labels
            == req.labels && other.record_count == req.record_count ==> ingest_problem(req, cfg)
            == ingest_problem(other, cfg),
        !(1 <= req.concurrency <= cfg.max_concurrency) && other == (IngestNumbers {
            entries: other.entries,
            ..req
        }) ==> ingest_problem(req, cfg) == ingest_problem(other, cfg),
{
}

} // verus!
