//! The messages, limits and checks of the benchmark interface.

use reductstore::benchmark::api::{
    BenchmarkDefaults, BenchmarkStatus, DiskBenchmarkRequest, DiskFsyncMode,
    IngestBenchmarkRequest, LatencyStats, PhaseResult, ReadBenchmarkMode, ReadBenchmarkRequest,
};
use reductstore::benchmark::config::{
    config_of, parse_benchmark_api_config, BenchmarkApiConfig, BenchmarkApiVars, Duration,
};
use reductstore::benchmark::guard::{phase_timeout, BenchmarkSlot};
use reductstore::benchmark::list::describe;
use reductstore::benchmark::validation::{
    validate_concurrency, validate_disk_request, validate_ingest_request, MAX_BLOCK_SIZE,
    MAX_LABELS, MAX_RECORD_SIZE, MIN_BLOCK_SIZE,
};
use reductstore::error::ErrorCode;

fn bench_cfg() -> BenchmarkApiConfig {
    BenchmarkApiConfig {
        enabled: true,
        max_total_bytes: 64 * 1024 * 1024,
        max_records: 10_000,
        max_concurrency: 8,
        max_duration: Duration::from_secs(60),
    }
}

#[test]
fn disk_request_defaults() {
    let req = DiskBenchmarkRequest::default();
    assert_eq!(req.block_size, 1024 * 1024);
    assert_eq!(req.total_size, 256 * 1024 * 1024);
    assert_eq!(req.fsync, DiskFsyncMode::Off);
    assert!(req.read_sequential);
    assert_eq!(req.random_reads, 10_000);
    assert_eq!(req.random_read_size, 4096);
    assert!(!req.keep_file);
    assert_eq!(DiskFsyncMode::default(), DiskFsyncMode::Off);
}

#[test]
fn ingest_request_defaults() {
    let req = IngestBenchmarkRequest {
        record_count: 5,
        ..Default::default()
    };
    assert_eq!(req.record_count, 5);
    assert_eq!(req.record_size, 100_000);
    assert_eq!(req.concurrency, 1);
    assert_eq!(req.entries, None);
    assert!(req.sync_at_end);
    assert_eq!(req.content_type, "application/octet-stream");
    assert_eq!(req.clone(), req);
}

#[test]
fn read_request_defaults() {
    let req = ReadBenchmarkRequest::default();
    assert_eq!(req.mode, ReadBenchmarkMode::Both);
    assert_eq!(ReadBenchmarkMode::default(), ReadBenchmarkMode::Both);
    assert!(req.random_order);
    assert_eq!(req.bucket, None);
}

#[test]
fn latency_stats_empty() {
    assert_eq!(LatencyStats::from_micros(vec![]), LatencyStats::default());
}

#[test]
fn latency_stats_single_sample() {
    let stats = LatencyStats::from_micros(vec![7]);
    assert_eq!(stats.p50_us, 7);
    assert_eq!(stats.p99_us, 7);
    assert_eq!(stats.max_us, 7);
    assert_eq!(stats.mean_us, 7);
    assert_eq!(stats.samples, 1);
}

#[test]
fn latency_stats_percentiles() {
    let mut samples: Vec<u64> = (1..=100).collect();
    samples.reverse();
    let stats = LatencyStats::from_micros(samples);
    assert_eq!(stats.p50_us, 51);
    assert_eq!(stats.p99_us, 100);
    assert_eq!(stats.max_us, 100);
    assert_eq!(stats.mean_us, 50);
    assert_eq!(stats.samples, 100);
}

#[test]
fn latency_stats_of_large_samples() {
    let stats = LatencyStats::from_micros(vec![u64::MAX, u64::MAX, u64::MAX - 3]);
    assert_eq!(stats.mean_us, u64::MAX - 1);
    assert_eq!(stats.p50_us, u64::MAX);
    let stats = LatencyStats::from_micros((0..250).collect());
    assert_eq!(stats.p50_us, 125);
    assert_eq!(stats.p99_us, 247);
    assert_eq!(stats.mean_us, 124);
}

#[test]
fn phase_result_counts() {
    let phase = PhaseResult::new(2_000_000, 4_000_000, 10, vec![1, 2, 3]);
    assert_eq!(phase.elapsed_us, 2_000_000);
    assert_eq!(phase.bytes, 4_000_000);
    assert_eq!(phase.ops, 10);
    assert_eq!(phase.latency.samples, 3);
    assert_eq!(PhaseResult::default(), PhaseResult::new(0, 0, 0, vec![]));
}

#[test]
fn disk_ok() {
    let req = DiskBenchmarkRequest {
        block_size: 64 * 1024,
        total_size: 1024 * 1024,
        ..Default::default()
    };
    validate_disk_request(&req, &bench_cfg(), u64::MAX).unwrap();
}

#[test]
fn disk_rejects() {
    for (block_size, total_size, random_reads, expected) in [
        (1024, 1024 * 1024, 100, "block_size must be between"),
        (
            128 * 1024 * 1024,
            256 * 1024 * 1024,
            100,
            "block_size must be between",
        ),
        (12 * 1024, 120 * 1024, 100, "power of two"),
        (64 * 1024, 100 * 1024, 100, "multiple of block_size"),
        (64 * 1024, 0, 100, "multiple of block_size"),
        (
            1024 * 1024,
            128 * 1024 * 1024,
            100,
            "RS_BENCHMARK_MAX_TOTAL_SIZE",
        ),
        (
            64 * 1024,
            1024 * 1024,
            20_000,
            "RS_BENCHMARK_MAX_RECORDS",
        ),
    ] {
        let req = DiskBenchmarkRequest {
            block_size,
            total_size,
            random_reads,
            ..Default::default()
        };
        let err = validate_disk_request(&req, &bench_cfg(), u64::MAX).unwrap_err();
        assert_eq!(err.status(), ErrorCode::UnprocessableEntity);
        assert!(
            err.message().contains(expected),
            "unexpected message: {}",
            err.message()
        );
    }
}

#[test]
fn disk_rejects_when_disk_full() {
    let req = DiskBenchmarkRequest {
        block_size: 64 * 1024,
        total_size: 1024 * 1024,
        ..Default::default()
    };
    let err = validate_disk_request(&req, &bench_cfg(), 1024 * 1024).unwrap_err();
    assert_eq!(err.status(), ErrorCode::UnprocessableEntity);
    assert!(err.message().contains("available disk space"));
    assert_eq!(
        err.message(),
        "total_size 1048576 exceeds available disk space (1048576)"
    );
}

#[test]
fn disk_rejects_bad_random_read_size() {
    for (total_size, random_read_size) in [
        (1024 * 1024, 0),
        (1024 * 1024, 2 * 1024 * 1024),
        (64 * 1024 * 1024, MAX_BLOCK_SIZE + 64 * 1024),
    ] {
        let req = DiskBenchmarkRequest {
            block_size: 64 * 1024,
            total_size,
            random_read_size,
            ..Default::default()
        };
        let err = validate_disk_request(&req, &bench_cfg(), u64::MAX).unwrap_err();
        assert_eq!(err.status(), ErrorCode::UnprocessableEntity);
        assert!(err.message().contains("random_read_size"));
    }
}

#[test]
fn disk_messages() {
    let cfg = bench_cfg();
    let message = |req: DiskBenchmarkRequest| {
        validate_disk_request(&req, &cfg, u64::MAX)
            .unwrap_err()
            .message()
            .to_string()
    };
    let base = DiskBenchmarkRequest {
        block_size: 4096,
        total_size: 4096 * 16,
        ..Default::default()
    };
    assert_eq!(
        message(DiskBenchmarkRequest {
            block_size: 1,
            ..base
        }),
        "block_size must be between 4096 and 67108864 bytes"
    );
    assert_eq!(
        message(DiskBenchmarkRequest {
            block_size: 4097,
            ..base
        }),
        "block_size must be a power of two"
    );
    assert_eq!(
        message(DiskBenchmarkRequest {
            total_size: 4095,
            ..base
        }),
        "total_size must be a positive multiple of block_size"
    );
    assert_eq!(
        message(DiskBenchmarkRequest {
            total_size: 1 << 40,
            ..base
        }),
        "total_size 1099511627776 exceeds RS_BENCHMARK_MAX_TOTAL_SIZE (67108864)"
    );
    assert_eq!(
        message(DiskBenchmarkRequest {
            random_read_size: 0,
            ..base
        }),
        "random_read_size must be between 1 and min(total_size, 67108864)"
    );
    assert_eq!(
        message(DiskBenchmarkRequest {
            random_reads: 10_001,
            ..base
        }),
        "random_reads 10001 exceeds RS_BENCHMARK_MAX_RECORDS (10000)"
    );
    assert_eq!(MIN_BLOCK_SIZE, 4 * 1024);
    assert_eq!(MAX_BLOCK_SIZE, 64 * 1024 * 1024);
}

#[test]
fn ingest_ok_defaults_entries_to_concurrency() {
    let req = IngestBenchmarkRequest {
        record_size: 100,
        record_count: 100,
        concurrency: 4,
        ..Default::default()
    };
    assert_eq!(validate_ingest_request(&req, &bench_cfg()).unwrap(), 4);
}

#[test]
fn ingest_rejects() {
    for (record_size, record_count, concurrency, entries, expected) in [
        (0, 10, 1, None, "record_size"),
        (
            MAX_RECORD_SIZE + 1,
            1,
            1,
            None,
            "record_size must not exceed",
        ),
        (10, 0, 1, None, "record_count must be positive"),
        (10, 20_000, 1, None, "RS_BENCHMARK_MAX_RECORDS"),
        (1024 * 1024, 100, 1, None, "RS_BENCHMARK_MAX_TOTAL_SIZE"),
        (10, 10, 0, None, "concurrency must be between"),
        (10, 10, 9, None, "concurrency must be between"),
        (10, 10, 1, Some(0), "entries must be positive"),
        (10, 10, 4, Some(2), "entries must be >= concurrency"),
        (10, 2, 1, Some(3), "exceed record_count"),
    ] {
        let req = IngestBenchmarkRequest {
            record_size,
            record_count,
            concurrency,
            entries,
            ..Default::default()
        };
        let err = validate_ingest_request(&req, &bench_cfg()).unwrap_err();
        assert_eq!(err.status(), ErrorCode::UnprocessableEntity);
        assert!(
            err.message().contains(expected),
            "unexpected message: {}",
            err.message()
        );
    }
}

#[test]
fn ingest_rejects_too_many_labels() {
    let req = IngestBenchmarkRequest {
        record_size: 10,
        record_count: 10,
        concurrency: 1,
        labels: MAX_LABELS + 1,
        ..Default::default()
    };
    let err = validate_ingest_request(&req, &bench_cfg()).unwrap_err();
    assert_eq!(err.status(), ErrorCode::UnprocessableEntity);
    assert!(err.message().contains("labels must not exceed"));
    assert_eq!(err.message(), "labels must not exceed 64");
}

#[test]
fn ingest_messages() {
    let cfg = BenchmarkApiConfig {
        max_records: u64::MAX,
        ..bench_cfg()
    };
    let err = validate_ingest_request(
        &IngestBenchmarkRequest {
            record_size: 2,
            record_count: u64::MAX,
            ..Default::default()
        },
        &cfg,
    )
    .unwrap_err();
    assert_eq!(
        err.message(),
        "record_size * record_count (18446744073709551615) exceeds RS_BENCHMARK_MAX_TOTAL_SIZE (67108864)"
    );
    let err = validate_concurrency(9, &bench_cfg()).unwrap_err();
    assert_eq!(
        err.message(),
        "concurrency must be between 1 and RS_BENCHMARK_MAX_CONCURRENCY (8)"
    );
    assert_eq!(validate_concurrency(8, &bench_cfg()), Ok(()));
}

#[test]
fn second_acquire_conflicts_until_dropped() {
    let mut slot = BenchmarkSlot::new();
    slot.try_acquire("disk", 17).unwrap();
    let status = slot.status();
    assert!(status.busy);
    assert_eq!(status.running.as_deref(), Some("disk"));
    assert!(status.started_at.is_some());

    let err = slot.try_acquire("ingest", 18).unwrap_err();
    assert_eq!(err.status(), ErrorCode::Conflict);
    assert_eq!(err.message(), "Benchmark 'disk' is already running");
    assert_eq!(slot.status().started_at, Some(17));

    slot.release();
    assert!(!slot.status().busy);
    slot.try_acquire("ingest", 19).unwrap();
}

#[test]
fn test_disk_busy_returns_409() {
    let mut slot = BenchmarkSlot::new();
    slot.try_acquire("ingest", 0).unwrap();
    let err = slot.try_acquire("disk", 1).unwrap_err();
    assert_eq!(err.status(), ErrorCode::Conflict);
}

#[test]
fn test_ingest_busy_409() {
    let mut slot = BenchmarkSlot::new();
    slot.try_acquire("disk", 0).unwrap();
    let err = slot.try_acquire("ingest", 1).unwrap_err();
    assert_eq!(err.status(), ErrorCode::Conflict);
    assert_eq!(err.message(), "Benchmark 'disk' is already running");
}

#[test]
fn test_status_reflects_guard() {
    let mut slot = BenchmarkSlot::new();
    assert_eq!(slot.status(), BenchmarkStatus::default());
    assert!(!slot.status().busy);
    assert_eq!(slot.status().running, None);

    slot.try_acquire("ingest", 1).unwrap();
    assert!(slot.status().busy);
    assert_eq!(slot.status().running.as_deref(), Some("ingest"));
    slot.release();
    assert!(!slot.status().busy);
}

#[test]
fn phase_timeout_maps_to_timeout_error() {
    let cfg = BenchmarkApiConfig {
        max_duration: Duration::from_millis(10),
        ..bench_cfg()
    };
    let err = phase_timeout("sleep", cfg.max_duration);
    assert_eq!(err.status(), ErrorCode::Timeout);
    assert_eq!(
        err.message(),
        "Benchmark phase 'sleep' exceeded RS_BENCHMARK_MAX_DURATION (0 s)"
    );
    assert_eq!(
        phase_timeout("sleep", bench_cfg().max_duration).message(),
        "Benchmark phase 'sleep' exceeded RS_BENCHMARK_MAX_DURATION (60 s)"
    );
}

#[test]
fn durations_have_parts_of_seconds() {
    for (millis, secs, nanos) in [
        (0, 0, 0),
        (10, 0, 10_000_000),
        (999, 0, 999_000_000),
        (1000, 1, 0),
        (61_001, 61, 1_000_000),
        (u64::MAX, 18_446_744_073_709_551, 615_000_000),
    ] {
        let duration = Duration::from_millis(millis);
        assert_eq!(duration, Duration { secs, nanos });
        assert_eq!(duration.as_secs(), secs);
        assert_eq!(
            std::time::Duration::new(duration.secs, duration.nanos),
            std::time::Duration::from_millis(millis)
        );
    }
    assert_eq!(Duration::from_secs(300), Duration::from_millis(300_000));
}

#[test]
fn test_list_ok() {
    let list = describe(&bench_cfg());
    let names: Vec<&str> = list.benchmarks.iter().map(|b| b.name.as_str()).collect();
    assert_eq!(names, vec!["disk", "ingest", "read"]);
    let paths: Vec<&str> = list.benchmarks.iter().map(|b| b.path.as_str()).collect();
    assert_eq!(paths, names);
    let limit = |i: usize, name: &str| {
        list.benchmarks[i]
            .limits
            .iter()
            .find(|limit| limit.0 == name)
            .map(|limit| limit.1)
    };
    assert_eq!(limit(0, "min_block_size"), Some(MIN_BLOCK_SIZE));
    assert_eq!(limit(0, "max_random_reads"), Some(10_000));
    assert_eq!(limit(1, "max_concurrency"), Some(8));
    assert_eq!(limit(2, "max_duration_secs"), Some(60));
    assert_eq!(limit(1, "min_block_size"), None);
    let BenchmarkDefaults::Ingest(defaults) = &list.benchmarks[1].defaults else {
        panic!("expected the defaults of the ingest benchmark");
    };
    assert_eq!(defaults.concurrency, 1);
    assert_eq!(
        list.benchmarks[0].defaults,
        BenchmarkDefaults::Disk(DiskBenchmarkRequest::default())
    );
    assert_eq!(
        list.benchmarks[2].defaults,
        BenchmarkDefaults::Read(ReadBenchmarkRequest::default())
    );
    assert_eq!(
        list.benchmarks[2].description,
        "Point reads and a full query over an existing entry or a synthesized temporary bucket"
    );
}

fn no_vars() -> BenchmarkApiVars {
    BenchmarkApiVars {
        enabled: None,
        max_total_size: None,
        max_records: None,
        max_concurrency: None,
        max_duration: None,
    }
}

#[test]
fn defaults_when_env_absent() {
    let cfg = parse_benchmark_api_config(&no_vars());
    assert_eq!(cfg, BenchmarkApiConfig::default());
    assert!(!cfg.enabled);
    assert_eq!(cfg.max_total_bytes, 4 * 1024 * 1024 * 1024);
    assert_eq!(cfg.max_records, 1_000_000);
    assert_eq!(cfg.max_concurrency, 64);
    assert_eq!(cfg.max_duration, Duration::from_secs(300));
}

#[test]
fn parses_enabled_flag() {
    for (raw, expected) in [
        ("yes", true),
        ("1", true),
        ("true", true),
        ("bogus", false),
        ("0", false),
    ] {
        let cfg = parse_benchmark_api_config(&BenchmarkApiVars {
            enabled: Some(raw.to_string()),
            ..no_vars()
        });
        assert_eq!(cfg.enabled, expected);
    }
}

#[test]
fn parses_caps() {
    let expected = BenchmarkApiConfig {
        enabled: true,
        max_total_bytes: 1_000_000_000,
        max_records: 500,
        max_concurrency: 8,
        max_duration: Duration::from_secs(30),
    };
    assert_eq!(
        expected,
        parse_benchmark_api_config(&BenchmarkApiVars {
            enabled: Some("true".to_string()),
            max_total_size: Some("1GB".to_string()),
            max_records: Some("500".to_string()),
            max_concurrency: Some("8".to_string()),
            max_duration: Some("30".to_string()),
        })
    );
    assert_eq!(
        expected,
        config_of(Some(true), Some(1_000_000_000), Some(500), Some(8), Some(30))
    );
}

#[test]
fn sizes_and_numbers_that_make_no_sense_take_the_default() {
    let cfg = parse_benchmark_api_config(&BenchmarkApiVars {
        enabled: None,
        max_total_size: Some("1 parsec".to_string()),
        max_records: Some("many".to_string()),
        max_concurrency: Some("-1".to_string()),
        max_duration: Some("".to_string()),
    });
    assert_eq!(cfg, BenchmarkApiConfig::default());
    let cfg = parse_benchmark_api_config(&BenchmarkApiVars {
        max_total_size: Some("2MiB".to_string()),
        ..no_vars()
    });
    assert_eq!(cfg.max_total_bytes, 2 * 1024 * 1024);
    let cfg = parse_benchmark_api_config(&BenchmarkApiVars {
        max_total_size: Some("12345".to_string()),
        ..no_vars()
    });
    assert_eq!(cfg.max_total_bytes, 12345);
}
