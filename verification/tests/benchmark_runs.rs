//! The benchmarks, run against files and records in memory.

use reductstore::benchmark::api::{
    DiskBenchmarkRequest, DiskBenchmarkResult, DiskFsyncMode, IngestBenchmarkRequest,
    ReadBenchmarkMode, ReadBenchmarkRequest,
};
use reductstore::benchmark::config::{BenchmarkApiConfig, Duration};
use reductstore::benchmark::disk::{
    io_error, DiskAction, DiskEvent, DiskRun, DiskStep, BENCHMARK_DIR, BENCHMARK_FILE,
};
use reductstore::benchmark::ingest::{
    bench_entry, bench_labels, ingest_outcome, ingest_settings, keeps_bucket, next_record,
    record_timestamp, writer_task_failed, IngestTotals, WriterStats,
};
use reductstore::benchmark::random::{bucket_name, random_payload, run_directory};
use reductstore::benchmark::read::{
    drained, list_work, plan_read, plan_work, query_step, read_task_failed, reads_points,
    reads_queries, task_work, QueryStep, ReadPhase, ReadPlan, ReadRun, ReadStats,
    TimestampCollector,
};
use reductstore::benchmark::validation::{validate_disk_request, validate_ingest_request};
use reductstore::error::{ErrorCode, ReductError};
use reductstore::storage::settings::{BucketSettings, QuotaType};

fn bench_cfg() -> BenchmarkApiConfig {
    BenchmarkApiConfig {
        enabled: true,
        max_total_bytes: 64 * 1024 * 1024,
        max_records: 10_000,
        max_concurrency: 8,
        max_duration: Duration::from_secs(60),
    }
}

fn small_request() -> DiskBenchmarkRequest {
    DiskBenchmarkRequest {
        block_size: 64 * 1024,
        total_size: 1024 * 1024,
        fsync: DiskFsyncMode::Off,
        read_sequential: true,
        random_reads: 100,
        random_read_size: 4096,
        keep_file: false,
    }
}

/// What a run did to its file.
#[derive(Default)]
struct Disk {
    writes: usize,
    syncs: usize,
    reads: usize,
    offsets: Vec<u64>,
    fail_at: Option<usize>,
}

impl Disk {
    fn run(&mut self, request: DiskBenchmarkRequest) -> Result<DiskBenchmarkResult, ReductError> {
        let mut run = DiskRun::new(request, "d".to_string(), "d/bench.bin".to_string());
        let mut action = DiskAction::MakeDir;
        let mut steps = 0;
        let mut clock = 0;
        loop {
            steps += 1;
            clock += 3;
            let step = match action {
                DiskAction::Finish(result) => return result,
                DiskAction::MakeDir => DiskStep::Create,
                DiskAction::MakeFile => {
                    clock = 0;
                    DiskStep::Create
                }
                DiskAction::Write { sync } => {
                    self.writes += 1;
                    if sync {
                        self.syncs += 1;
                    }
                    DiskStep::Write
                }
                DiskAction::Sync => {
                    self.syncs += 1;
                    DiskStep::Fsync
                }
                DiskAction::Open => {
                    clock = 0;
                    DiskStep::Open
                }
                DiskAction::Read => {
                    self.reads += 1;
                    DiskStep::Read
                }
                DiskAction::ReadAt { offset, len } => {
                    assert!(offset + len <= request.total_size);
                    self.offsets.push(offset);
                    DiskStep::Seek
                }
            };
            action = run.step(if self.fail_at == Some(steps) {
                DiskEvent::Failed {
                    step,
                    cause: "boom".to_string(),
                }
            } else {
                DiskEvent::Done {
                    op_us: 2,
                    phase_us: clock,
                }
            });
        }
    }
}

#[test]
fn test_disk_small_run() {
    let mut disk = Disk::default();
    let result = disk.run(small_request()).unwrap();

    assert_eq!(result.write.bytes, 1024 * 1024);
    assert_eq!(result.write.ops, 16);
    assert_eq!(result.write.latency.samples, 16);
    assert_eq!(result.write.elapsed_us, 16 * 3);
    assert_eq!(result.write.latency.mean_us, 2);
    assert_eq!(result.fsync_us, None);
    let seq = result.read_sequential.unwrap();
    assert_eq!(seq.bytes, 1024 * 1024);
    assert_eq!(seq.ops, 16);
    let random = result.random_read.unwrap();
    assert_eq!(random.ops, 100);
    assert_eq!(random.bytes, 100 * 4096);
    assert_eq!(random.latency.samples, 100);
    assert_eq!(result.path, "d/bench.bin");
    assert_eq!(result.block_size, 64 * 1024);
    assert_eq!(disk.writes, 16);
    assert_eq!(disk.reads, 16);
    assert_eq!(disk.syncs, 0);
    assert!(disk.offsets.iter().any(|offset| *offset != disk.offsets[0]));
    assert_eq!(BENCHMARK_DIR, ".benchmark");
    assert_eq!(BENCHMARK_FILE, "bench.bin");
}

#[test]
fn test_disk_fsync_modes() {
    let mut disk = Disk::default();
    let each = disk
        .run(DiskBenchmarkRequest {
            fsync: DiskFsyncMode::Each,
            random_reads: 0,
            ..small_request()
        })
        .unwrap();
    assert_eq!(each.fsync_us, None);
    assert_eq!(each.fsync, DiskFsyncMode::Each);
    assert_eq!(each.write.latency.samples, each.write.ops);
    assert_eq!(disk.syncs, 16);

    let mut disk = Disk::default();
    let end = disk
        .run(DiskBenchmarkRequest {
            fsync: DiskFsyncMode::End,
            random_reads: 0,
            ..small_request()
        })
        .unwrap();
    assert!(end.fsync_us.is_some());
    assert_eq!(disk.syncs, 1);
}

#[test]
fn test_disk_random_reads_disabled() {
    let result = Disk::default()
        .run(DiskBenchmarkRequest {
            random_reads: 0,
            read_sequential: false,
            ..small_request()
        })
        .unwrap();
    assert!(result.random_read.is_none());
    assert!(result.read_sequential.is_none());
}

#[test]
fn test_disk_rejects_oversize() {
    let err = validate_disk_request(
        &DiskBenchmarkRequest {
            total_size: 8 * 1024 * 1024 * 1024,
            ..small_request()
        },
        &bench_cfg(),
        u64::MAX,
    )
    .unwrap_err();
    assert_eq!(err.status(), ErrorCode::UnprocessableEntity);
}

#[test]
fn a_failed_operation_ends_a_run() {
    for (fail_at, expected) in [
        (1, "Disk benchmark failed to create \"d\": boom"),
        (2, "Disk benchmark failed to create \"d/bench.bin\": boom"),
        (3, "Disk benchmark failed to write \"d/bench.bin\": boom"),
        (18, "Disk benchmark failed to write \"d/bench.bin\": boom"),
        (19, "Disk benchmark failed to open \"d/bench.bin\": boom"),
        (20, "Disk benchmark failed to read \"d/bench.bin\": boom"),
        (37, "Disk benchmark failed to seek \"d/bench.bin\": boom"),
    ] {
        let mut disk = Disk {
            fail_at: Some(fail_at),
            ..Disk::default()
        };
        let err = disk.run(small_request()).unwrap_err();
        assert_eq!(err.status(), ErrorCode::InternalServerError);
        assert_eq!(err.message(), expected);
    }
    assert_eq!(
        io_error(DiskStep::Fsync, "p", "c").message(),
        "Disk benchmark failed to fsync \"p\": c"
    );
}

fn ingest_request() -> IngestBenchmarkRequest {
    IngestBenchmarkRequest {
        record_size: 1000,
        record_count: 50,
        concurrency: 4,
        entries: None,
        labels: 2,
        sync_at_end: true,
        keep_bucket: false,
        ..Default::default()
    }
}

/// Lets every writer write its records; some records fail.
fn write_all(
    request: &IngestBenchmarkRequest,
    entries: usize,
    fails: impl Fn(u64) -> bool,
) -> Vec<WriterStats> {
    (0..request.concurrency)
        .map(|task_id| {
            let mut stats = WriterStats::new();
            let mut from = 0;
            while let Some((i, entry_idx)) = next_record(
                from,
                request.record_count,
                entries,
                request.concurrency,
                task_id,
            ) {
                from = i + 1;
                if fails(i) {
                    stats.record_failed(ReductError::new(
                        ErrorCode::InternalServerError,
                        &format!("storage limit exceeded at record {}", i),
                    ));
                } else {
                    let timestamp = record_timestamp(1000, i);
                    stats.record_written(entry_idx, timestamp, request.record_size, 1, 2);
                }
            }
            stats
        })
        .collect()
}

#[test]
fn test_ingest_writes_and_deletes_bucket() {
    let request = ingest_request();
    let entries = validate_ingest_request(&request, &bench_cfg()).unwrap();
    let mut totals = IngestTotals::new(entries);
    for stats in write_all(&request, entries, |_| false) {
        totals.absorb(stats);
    }
    let phase = totals.finish().unwrap();
    let outcome = ingest_outcome(&request, entries, "benchmark-x", 77, phase, 5);
    let result = outcome.result;

    assert_eq!(result.write.ops, 50);
    assert_eq!(result.write.bytes, 50_000);
    assert_eq!(result.write.latency.samples, 50);
    assert_eq!(result.begin_write_latency.samples, 50);
    assert_eq!(result.entries, 4);
    assert_eq!(result.errors, 0);
    assert!(result.sync_us.is_some());
    assert_eq!(result.sync_us, Some(5));
    assert_eq!(result.bucket, "benchmark-x");
    assert_eq!(result.write.elapsed_us, 77);
    assert!(!keeps_bucket(&request, true));

    assert_eq!(outcome.timestamps.len(), 4);
    assert_eq!(outcome.timestamps[1].0, "bench-1");
    let all: usize = outcome.timestamps.iter().map(|(_, ts)| ts.len()).sum();
    assert_eq!(all, 50);
    assert_eq!(outcome.timestamps[3].1[..3], [1003, 1007, 1011]);
}

#[test]
fn test_ingest_keep_bucket() {
    let request = IngestBenchmarkRequest {
        keep_bucket: true,
        entries: Some(6),
        sync_at_end: false,
        ..ingest_request()
    };
    assert!(keeps_bucket(&request, true));
    assert!(!keeps_bucket(&request, false));
    let entries = validate_ingest_request(&request, &bench_cfg()).unwrap();
    assert_eq!(entries, 6);
    let mut totals = IngestTotals::new(entries);
    let mut all = write_all(&request, entries, |_| false);
    // Writers may end in any order.
    all.reverse();
    for stats in all {
        totals.absorb(stats);
    }
    let phase = totals.finish().unwrap();
    let outcome = ingest_outcome(&request, entries, "b", 1, phase, 5);
    // No sync was asked for, so none is reported.
    assert_eq!(outcome.result.sync_us, None);
    assert_eq!(outcome.timestamps.len(), 6);
    assert_eq!(outcome.timestamps.iter().map(|(_, ts)| ts.len()).sum::<usize>(), 50);
    for (e, (name, stamps)) in outcome.timestamps.iter().enumerate() {
        assert_eq!(name, &format!("bench-{}", e));
        assert!(stamps.iter().all(|ts| (ts - 1000) % 6 == e as u64));
        assert!(stamps.windows(2).all(|pair| pair[0] < pair[1]));
    }
    let labels = bench_labels(2);
    assert_eq!(labels.len(), 2);
    assert_eq!(labels.get("label-1"), Some("value-1"));
    assert_eq!(bench_entry(0), "bench-0");
}

#[test]
fn test_ingest_respects_storage_limit() {
    let request = ingest_request();
    let mut totals = IngestTotals::new(4);
    for stats in write_all(&request, 4, |_| true) {
        assert!(stats.errors > 0);
        totals.absorb(stats);
    }
    let err = totals.finish().err().unwrap();
    assert_eq!(err.status(), ErrorCode::InternalServerError);
    assert!(err.message().contains("storage limit exceeded"));
    assert_eq!(err.message(), "storage limit exceeded at record 0");
}

#[test]
fn some_failed_records_are_counted() {
    let request = ingest_request();
    let mut totals = IngestTotals::new(4);
    for stats in write_all(&request, 4, |i| i % 10 == 3) {
        totals.absorb(stats);
    }
    let phase = totals.finish().unwrap();
    assert_eq!(phase.errors, 5);
    assert_eq!(phase.total_us.len(), 45);
    assert_eq!(phase.bytes, 45_000);
}

#[test]
fn a_whole_run_accounts_for_every_record() {
    for (entries, concurrency) in [(4, 4), (6, 4), (7, 3), (1, 1)] {
        let request = IngestBenchmarkRequest {
            concurrency,
            ..ingest_request()
        };
        let fails = |i: u64| i % 7 == 2;
        let mut totals = IngestTotals::new(entries);
        for stats in write_all(&request, entries, fails) {
            totals.absorb(stats);
        }
        let phase = totals.finish().unwrap();
        assert_eq!(phase.total_us.len() as u64 + phase.errors, 50);
        assert_eq!(phase.begin_us.len(), phase.total_us.len());
        assert_eq!(phase.bytes, phase.total_us.len() as u64 * 1000);
        for (e, (_, stamps)) in phase.timestamps.iter().enumerate() {
            let own: Vec<u64> = (0..50)
                .filter(|i| i % entries as u64 == e as u64 && !fails(*i))
                .map(|i| 1000 + i)
                .collect();
            assert_eq!(stamps, &own);
        }
    }
}

#[test]
fn no_records_and_no_error_is_fine() {
    let phase = IngestTotals::new(2).finish().unwrap();
    assert_eq!(phase.total_us.len(), 0);
    assert_eq!(phase.timestamps.len(), 2);
}

#[test]
fn every_record_has_one_writer() {
    for (entries, concurrency) in [(1, 1), (4, 4), (6, 4), (7, 3)] {
        let mut seen = vec![];
        for task_id in 0..concurrency {
            let mut from = 0;
            while let Some((i, entry)) = next_record(from, 40, entries, concurrency, task_id) {
                assert_eq!(entry as u64, i % entries as u64);
                assert_eq!(entry % concurrency, task_id);
                seen.push(i);
                from = i + 1;
            }
        }
        seen.sort();
        assert_eq!(seen, (0..40).collect::<Vec<u64>>());
    }
}

#[test]
fn test_ingest_rejects_fewer_entries_than_writers() {
    let err = validate_ingest_request(
        &IngestBenchmarkRequest {
            entries: Some(2),
            ..ingest_request()
        },
        &bench_cfg(),
    )
    .unwrap_err();
    assert_eq!(err.status(), ErrorCode::UnprocessableEntity);
}

#[test]
fn bucket_settings_of_the_request_count() {
    let defaults = BucketSettings {
        quota_size: Some(1),
        ..BucketSettings::default()
    };
    let own = BucketSettings {
        quota_type: Some(QuotaType::FIFO),
        ..BucketSettings::default()
    };
    assert_eq!(ingest_settings(&ingest_request(), defaults), defaults);
    let request = IngestBenchmarkRequest {
        bucket_settings: Some(own),
        ..ingest_request()
    };
    assert_eq!(ingest_settings(&request, defaults), own);
}

#[test]
fn random_things() {
    let payload = random_payload(1000);
    assert_eq!(payload.len(), 1000);
    assert_ne!(payload, vec![0; 1000]);
    assert!(random_payload(0).is_empty());

    let name = bucket_name();
    assert!(name.starts_with("benchmark-"));
    assert_eq!(name.len(), "benchmark-".len() + 32);
    assert_ne!(name, bucket_name());

    let dir = run_directory();
    assert_eq!(dir.len(), 32);
    assert!(dir
        .chars()
        .all(|c| c.is_ascii_digit() || ('a'..='f').contains(&c)));
    assert_eq!(dir.chars().nth(12), Some('4'));
}

#[test]
fn test_read_synthesized() {
    let request = ReadBenchmarkRequest {
        record_size: 512,
        record_count: 20,
        concurrency: 2,
        mode: ReadBenchmarkMode::Both,
        ..Default::default()
    };
    let Ok(ReadPlan::Synthesized(synth)) = plan_read(&request, &bench_cfg()) else {
        panic!("expected records to be written first");
    };
    assert_eq!(synth.entries, Some(2));
    assert!(synth.keep_bucket);
    assert!(!synth.sync_at_end);
    let mut totals = IngestTotals::new(2);
    for stats in write_all(&synth, 2, |_| false) {
        totals.absorb(stats);
    }
    let targets = totals.finish().unwrap().timestamps;

    let work = plan_work(&targets, request.random_order);
    let mut merged = ReadStats::new();
    for task_id in 0..2 {
        let mut stats = ReadStats::new();
        for _ in task_work(&work, task_id, 2) {
            stats.record_read(drained(&vec![500, 12], None).unwrap(), 3);
        }
        merged.merge(stats);
    }
    let point = merged.into_phase(9);
    assert_eq!(point.ops, 20);
    assert_eq!(point.bytes, 10240);
    assert_eq!(point.latency.samples, 20);

    let mut stats = ReadStats::new();
    for (_, stamps) in &targets {
        for _ in stamps {
            stats.record_read(drained(&vec![512], None).unwrap(), 2);
        }
    }

    let mut run = ReadRun::new(&request);
    assert_eq!(run.next(), ReadPhase::Points);
    run.measured(point);
    assert_eq!(run.next(), ReadPhase::Queries);
    run.measured(stats.into_phase(5));
    assert_eq!(run.next(), ReadPhase::Done);
    let result = run.finish(&request, "benchmark-x", 4);
    assert!(result.prepared);
    assert!(result.prepare_us > 0);
    assert_eq!(result.entry, "bench-0..2");
    let point = result.point_read.unwrap();
    assert_eq!(point.ops, 20);
    assert_eq!(point.bytes, 10240);
    assert_eq!(point.latency.samples, 20);
    let query = result.query.unwrap();
    assert_eq!(query.ops, 20);
    assert_eq!(query.bytes, 10240);
}

#[test]
fn test_read_existing_bucket_entry() {
    let request = ReadBenchmarkRequest {
        bucket: Some("bucket-1".to_string()),
        entry: Some("entry-1".to_string()),
        mode: ReadBenchmarkMode::Point,
        concurrency: 3,
        ..Default::default()
    };
    let Ok(ReadPlan::Existing {
        bucket,
        entry,
        limit,
    }) = plan_read(&request, &bench_cfg())
    else {
        panic!("expected an entry that is there");
    };
    assert_eq!(bucket, "bucket-1");
    assert_eq!(entry, "entry-1");
    assert_eq!(limit, 10_000);
    assert!(reads_points(request.mode));
    assert!(!reads_queries(request.mode));
    let work = plan_work(&vec![(entry, vec![0])], request.random_order);
    let mut merged = ReadStats::new();
    for task_id in 0..3 {
        let mut stats = ReadStats::new();
        for _ in task_work(&work, task_id, 3) {
            stats.record_read(drained(&vec![6], None).unwrap(), 1);
        }
        merged.merge(stats);
    }
    let point = merged.into_phase(1);
    let mut run = ReadRun::new(&request);
    assert_eq!(run.next(), ReadPhase::Points);
    run.measured(point);
    assert_eq!(run.next(), ReadPhase::Done);
    let result = run.finish(&request, &bucket, 0);
    assert!(!result.prepared);
    assert_eq!(result.bucket, "bucket-1");
    assert_eq!(result.entry, "entry-1");
    let point = result.point_read.unwrap();
    assert_eq!(point.ops, 1);
    assert_eq!(point.bytes, 6);
    assert!(result.query.is_none());
}

#[test]
fn the_mode_says_what_is_measured() {
    for (mode, phases) in [
        (ReadBenchmarkMode::Point, vec![ReadPhase::Points]),
        (ReadBenchmarkMode::Query, vec![ReadPhase::Queries]),
        (
            ReadBenchmarkMode::Both,
            vec![ReadPhase::Points, ReadPhase::Queries],
        ),
    ] {
        let request = ReadBenchmarkRequest {
            mode,
            ..Default::default()
        };
        let mut run = ReadRun::new(&request);
        let mut seen = vec![];
        while run.next() != ReadPhase::Done {
            seen.push(run.next());
            run.measured(ReadStats::new().into_phase(1));
        }
        assert_eq!(seen, phases);
        let result = run.finish(&request, "b", 0);
        assert_eq!(result.point_read.is_some(), reads_points(mode));
        assert_eq!(result.query.is_some(), reads_queries(mode));
        assert!(result.prepared);
    }
}

#[test]
fn test_read_requires_entry_with_bucket() {
    for entry in [None, Some(String::new())] {
        let err = plan_read(
            &ReadBenchmarkRequest {
                bucket: Some("bucket-1".to_string()),
                entry,
                ..Default::default()
            },
            &bench_cfg(),
        )
        .err()
        .unwrap();
        assert_eq!(err.status(), ErrorCode::UnprocessableEntity);
        assert_eq!(err.message(), "entry is required when bucket is set");
    }
}

#[test]
fn read_requests_are_checked() {
    let message = |request: ReadBenchmarkRequest| {
        plan_read(&request, &bench_cfg())
            .err()
            .unwrap()
            .message()
            .to_string()
    };
    assert!(message(ReadBenchmarkRequest {
        concurrency: 0,
        ..Default::default()
    })
    .contains("concurrency must be between"));
    assert_eq!(
        message(ReadBenchmarkRequest {
            record_size: 0,
            ..Default::default()
        }),
        "record_size must be positive"
    );
    assert_eq!(
        message(ReadBenchmarkRequest {
            record_count: 1,
            record_size: 1,
            concurrency: 2,
            ..Default::default()
        }),
        "entries must not exceed record_count"
    );
}

#[test]
fn the_limit_of_an_existing_entry() {
    let limit = |record_count| {
        let plan = plan_read(
            &ReadBenchmarkRequest {
                bucket: Some("b".to_string()),
                entry: Some("e".to_string()),
                record_count,
                ..Default::default()
            },
            &bench_cfg(),
        );
        match plan {
            Ok(ReadPlan::Existing { limit, .. }) => limit,
            _ => panic!("expected an entry that is there"),
        }
    };
    assert_eq!(limit(0), 10_000);
    assert_eq!(limit(7), 7);
    assert_eq!(limit(10_001), 10_000);
}

#[test]
fn test_read_query_ends_on_no_content() {
    assert!(matches!(query_step(Some(Ok(()))), QueryStep::Record));
    assert!(matches!(query_step(None), QueryStep::End));
    assert!(matches!(
        query_step(Some(Err(ReductError::new(ErrorCode::NoContent, "")))),
        QueryStep::End
    ));
    let error = ReductError::new(ErrorCode::InternalServerError, "x");
    let QueryStep::Fail(failed) = query_step(Some(Err(error.clone()))) else {
        panic!("expected a failure");
    };
    assert_eq!(failed, error);
    assert!(reads_queries(ReadBenchmarkMode::Query));
    assert!(!reads_points(ReadBenchmarkMode::Query));
    assert!(reads_queries(ReadBenchmarkMode::Both) && reads_points(ReadBenchmarkMode::Both));
}

#[test]
fn test_collect_timestamps_respects_limit() {
    let stamps: Vec<u64> = (0..20).collect();
    let collect = |limit: usize| {
        let mut collector = TimestampCollector::new(limit);
        for ts in &stamps {
            if collector.is_full() || collector.take(*ts) {
                break;
            }
        }
        collector.timestamps
    };
    assert_eq!(collect(5), stamps[..5]);
    assert_eq!(collect(100).len(), 20);
    assert!(collect(0).is_empty());
}

#[test]
fn the_readers_share_the_work() {
    let targets = vec![
        ("bench-0".to_string(), vec![1, 2, 3]),
        ("bench-1".to_string(), vec![]),
        ("bench-2".to_string(), vec![9, 8]),
    ];
    let work = list_work(&targets);
    assert_eq!(work, vec![(0, 1), (0, 2), (0, 3), (2, 9), (2, 8)]);
    assert_eq!(plan_work(&targets, false), work);
    assert_eq!(task_work(&work, 0, 2), vec![(0, 1), (0, 3), (2, 8)]);
    assert_eq!(task_work(&work, 1, 2), vec![(0, 2), (2, 9)]);

    let many = vec![("bench-0".to_string(), (0..500).collect::<Vec<u64>>())];
    let mut shuffled = plan_work(&many, true);
    assert_ne!(shuffled, list_work(&many));
    shuffled.sort();
    assert_eq!(shuffled, list_work(&many));
}

#[test]
fn a_record_that_breaks_off_is_an_error() {
    let error = ReductError::new(ErrorCode::InternalServerError, "x");
    assert_eq!(drained(&vec![1, 2], Some(error.clone())), Err(error));
    assert_eq!(drained(&vec![], None), Ok(0));
    assert_eq!(drained(&vec![1, 2, 3], None), Ok(6));
    assert_eq!(
        read_task_failed("gone").message(),
        "Read task failed: gone"
    );
    assert_eq!(
        writer_task_failed("gone").message(),
        "Ingest writer task failed: gone"
    );
}
