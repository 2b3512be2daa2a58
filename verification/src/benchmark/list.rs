//! The list of the benchmarks.

use crate::benchmark::api::{
    default_disk_request, is_default_ingest_request, is_default_read_request, BenchmarkDefaults,
    BenchmarkDescriptor, BenchmarkList, DiskBenchmarkRequest, IngestBenchmarkRequest,
    ReadBenchmarkRequest,
};
use crate::benchmark::config::{default_config, BenchmarkApiConfig};
use crate::benchmark::read::read_problem;
use crate::benchmark::validation::{
    disk_problem, ingest_numbers, ingest_problem, law_ingest_request_is_accepted_iff,
    power_of_two, IngestNumbers, MAX_BLOCK_SIZE, MIN_BLOCK_SIZE,
};
use vstd::prelude::*;

verus! {

/// A limit by its name.
pub open spec fn limit_view(limit: (String, u64)) -> (Seq<char>, u64) {
    (limit.0@, limit.1)
}

pub open spec fn limit_views(limits: Seq<(String, u64)>) -> Seq<(Seq<char>, u64)> {
    Seq::new(limits.len(), |i: int| limit_view(limits[i]))
}

/// The limits of the benchmarks that work on records.
pub open spec fn record_limits(cfg: BenchmarkApiConfig) -> Seq<(Seq<char>, u64)> {
    seq![
        ("max_total_bytes"@, cfg.max_total_bytes),
        ("max_records"@, cfg.max_records),
        ("max_concurrency"@, cfg.max_concurrency as u64),
        ("max_duration_secs"@, cfg.max_duration.secs),
    ]
}

/// The limits of the disk benchmark.
pub open spec fn disk_limits(cfg: BenchmarkApiConfig) -> Seq<(Seq<char>, u64)> {
    seq![
        ("max_total_bytes"@, cfg.max_total_bytes),
        ("min_block_size"@, MIN_BLOCK_SIZE),
        ("max_block_size"@, MAX_BLOCK_SIZE),
        ("max_random_reads"@, cfg.max_records),
        ("max_duration_secs"@, cfg.max_duration.secs),
    ]
}

/// Whether a descriptor is of the given benchmark.
pub open spec fn describes(
    d: BenchmarkDescriptor,
    name: Seq<char>,
    description: Seq<char>,
    limits: Seq<(Seq<char>, u64)>,
) -> bool {
    &&& d.name@ == name
    &&& d.path@ == name
    &&& d.description@ == description
    &&& limit_views(d.limits@) == limits
}

fn make_record_limits(cfg: &BenchmarkApiConfig) -> (r: Vec<(String, u64)>)
    ensures
        limit_views(r@) == record_limits(*cfg),
{
    let mut r: Vec<(String, u64)> = Vec::new();
    r.push(("max_total_bytes".to_owned(), cfg.max_total_bytes));
    r.push(("max_records".to_owned(), cfg.max_records));
    r.push(("max_concurrency".to_owned(), cfg.max_concurrency as u64));
    r.push(("max_duration_secs".to_owned(), cfg.max_duration.as_secs()));
    assert(limit_views(r@) =~= record_limits(*cfg));
    r
}

fn make_disk_limits(cfg: &BenchmarkApiConfig) -> (r: Vec<(String, u64)>)
    ensures
        limit_views(r@) == disk_limits(*cfg),
{
    let mut r: Vec<(String, u64)> = Vec::new();
    r.push(("max_total_bytes".to_owned(), cfg.max_total_bytes));
    r.push(("min_block_size".to_owned(), MIN_BLOCK_SIZE));
    r.push(("max_block_size".to_owned(), MAX_BLOCK_SIZE));
    r.push(("max_random_reads".to_owned(), cfg.max_records));
    r.push(("max_duration_secs".to_owned(), cfg.max_duration.as_secs()));
    assert(limit_views(r@) =~= disk_limits(*cfg));
    r
}

/// The benchmarks with their defaults and limits.
pub fn describe(cfg: &BenchmarkApiConfig) -> (r: BenchmarkList)
    ensures
        r.benchmarks@.len() == 3,
        describes(
            r.benchmarks@[0],
            "disk"@,
            "Raw file I/O under the data path: sequential write with optional fsync, sequential read and random reads"@,
            disk_limits(*cfg),
        ),
        r.benchmarks@[0].defaults == BenchmarkDefaults::Disk(default_disk_request()),
        describes(
            r.benchmarks@[1],
            "ingest"@,
            "Write records through the storage engine into a temporary bucket with N concurrent writers, one entry per writer"@,
            record_limits(*cfg),
        ),
        match r.benchmarks@[1].defaults {
            BenchmarkDefaults::Ingest(request) => is_default_ingest_request(request),
            _ => false,
        },
        describes(
            r.benchmarks@[2],
            "read"@,
            "Point reads and a full query over an existing entry or a synthesized temporary bucket"@,
            record_limits(*cfg),
        ),
        match r.benchmarks@[2].defaults {
            BenchmarkDefaults::Read(request) => is_default_read_request(request),
            _ => false,
        },
{
    let mut benchmarks: Vec<BenchmarkDescriptor> = Vec::new();
    benchmarks.push(
        BenchmarkDescriptor {
            name: "disk".to_owned(),
            path: "disk".to_owned(),
            description: "Raw file I/O under the data path: sequential write with optional fsync, sequential read and random reads".to_owned(),
            defaults: BenchmarkDefaults::Disk(DiskBenchmarkRequest::default()),
            limits: make_disk_limits(cfg),
        },
    );
    benchmarks.push(
        BenchmarkDescriptor {
            name: "ingest".to_owned(),
            path: "ingest".to_owned(),
            description: "Write records through the storage engine into a temporary bucket with N concurrent writers, one entry per writer".to_owned(),
            defaults: BenchmarkDefaults::Ingest(IngestBenchmarkRequest::default()),
            limits: make_record_limits(cfg),
        },
    );
    benchmarks.push(
        BenchmarkDescriptor {
            name: "read".to_owned(),
            path: "read".to_owned(),
            description: "Point reads and a full query over an existing entry or a synthesized temporary bucket".to_owned(),
            defaults: BenchmarkDefaults::Read(ReadBenchmarkRequest::default()),
            limits: make_record_limits(cfg),
        },
    );
    BenchmarkList { benchmarks }
}

/// Whether a limit is listed under a name.
pub open spec fn lists(limits: Seq<(Seq<char>, u64)>, name: Seq<char>, limit: u64) -> bool {
    exists|i: int| 0 <= i < limits.len() && limits[i] == (name, limit)
}

/// The limits that are listed for the disk benchmark are those that a request is held to.
pub proof fn law_disk_limits_are_kept(
    cfg: BenchmarkApiConfig,
    request: DiskBenchmarkRequest,
    available_space: u64,
    total: u64,
    least: u64,
    most: u64,
    reads: u64,
)
    requires
        lists(disk_limits(cfg), "max_total_bytes"@, total),
        lists(disk_limits(cfg), "min_block_size"@, least),
        lists(disk_limits(cfg), "max_block_size"@, most),
        lists(disk_limits(cfg), "max_random_reads"@, reads),
    ensures
        disk_problem(request, cfg, available_space) is None <==> {
            &&& least <= request.block_size <= most
            &&& power_of_two(request.block_size as nat)
            &&& 0 < request.total_size <= total
            &&& request.total_size % request.block_size == 0
            &&& request.total_size < available_space
            &&& request.random_reads > 0 ==> request.random_reads <= reads && 0
                < request.random_read_size <= request.total_size && request.random_read_size <= most
        },
{
    lemma_names_differ();
}

/// The limits that are listed for the benchmarks that work on records are those that a request is
/// held to.
pub proof fn law_record_limits_are_kept(
    cfg: BenchmarkApiConfig,
    request: IngestNumbers,
    total: u64,
    records: u64,
    writers: u64,
)
    requires
        lists(record_limits(cfg), "max_total_bytes"@, total),
        lists(record_limits(cfg), "max_records"@, records),
        lists(record_limits(cfg), "max_concurrency"@, writers),
    ensures
        request.record_count > records ==> ingest_problem(request, cfg) is Some,
        request.concurrency > writers ==> ingest_problem(request, cfg) is Some,
        request.record_size * request.record_count > total && total < u64::MAX ==> ingest_problem(
            request,
            cfg,
        ) is Some,
        0 < request.record_count <= records && 0 < request.concurrency <= writers
            && request.concurrency <= request.record_count && request.record_size
            * request.record_count <= total && 0 < request.record_size <= 67_108_864
            && request.labels <= 64 && request.entries is None ==> ingest_problem(request, cfg)
            is None,
{
    lemma_names_differ();
    law_ingest_request_is_accepted_iff(request, cfg);
}

/// A benchmark may run for the time that is listed.
pub proof fn law_duration_is_listed(cfg: BenchmarkApiConfig, secs: u64)
    ensures
        lists(disk_limits(cfg), "max_duration_secs"@, secs) <==> secs == cfg.max_duration.secs,
        lists(record_limits(cfg), "max_duration_secs"@, secs) <==> secs == cfg.max_duration.secs,
{
    lemma_names_differ();
    assert(disk_limits(cfg)[4] == ("max_duration_secs"@, cfg.max_duration.secs));
    assert(record_limits(cfg)[3] == ("max_duration_secs"@, cfg.max_duration.secs));
}

proof fn lemma_names_differ()
    ensures
        "max_total_bytes"@ != "max_concurrency"@,
        "max_total_bytes"@ != "max_records"@,
        "max_total_bytes"@ != "max_duration_secs"@,
        "max_total_bytes"@ != "min_block_size"@,
        "max_total_bytes"@ != "max_block_size"@,
        "max_total_bytes"@ != "max_random_reads"@,
        "max_records"@ != "max_concurrency"@,
        "max_records"@ != "max_duration_secs"@,
        "max_concurrency"@ != "max_duration_secs"@,
        "min_block_size"@ != "max_block_size"@,
        "min_block_size"@ != "max_random_reads"@,
        "min_block_size"@ != "max_duration_secs"@,
        "max_block_size"@ != "max_random_reads"@,
        "max_block_size"@ != "max_duration_secs"@,
        "max_random_reads"@ != "max_duration_secs"@,
{
    reveal_strlit("max_total_bytes");
    reveal_strlit("max_records");
    reveal_strlit("max_concurrency");
    reveal_strlit("max_duration_secs");
    reveal_strlit("min_block_size");
    reveal_strlit("max_block_size");
    reveal_strlit("max_random_reads");
    assert("max_records"@.len() == 11 && "max_duration_secs"@.len() == 17);
    assert("max_block_size"@.len() == 14 && "max_random_reads"@.len() == 16);
    assert("max_total_bytes"@[4] == 't' && "max_concurrency"@[4] == 'c');
    assert("min_block_size"@[1] == 'i' && "max_block_size"@[1] == 'a');
}

/// What a benchmark asks for by default is accepted under the default limits, where there is room.
pub proof fn law_defaults_are_accepted(
    ingest: IngestBenchmarkRequest,
    read: ReadBenchmarkRequest,
    available_space: u64,
)
    requires
        is_default_ingest_request(ingest),
        is_default_read_request(read),
        available_space > default_disk_request().total_size,
    ensures
        disk_problem(default_disk_request(), default_config(), available_space) is None,
        ingest_problem(ingest_numbers(ingest), default_config()) is None,
        read_problem(read, default_config()) is None,
{
    reveal_with_fuel(power_of_two, 21);
}

} // verus!
