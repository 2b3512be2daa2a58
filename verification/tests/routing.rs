//! Keys, buckets and entries.

use reductstore::api::routing::{BucketRouting, ZenohApiConfig, ZenohBucketRouting};

fn key_prefix() -> BucketRouting {
    BucketRouting::KeyPrefix {
        fallback: "zenoh".to_string(),
    }
}

#[test]
fn key_prefix_splits_first_chunk() {
    for (key, expected) in [
        (
            "run_abc/motion/welder/commanded",
            ("run_abc", "motion/welder/commanded"),
        ),
        ("/run_abc/lifecycle", ("run_abc", "lifecycle")),
        ("wc_cell/run_started/", ("wc_cell", "run_started")),
    ] {
        assert_eq!(key_prefix().resolve(key), expected);
    }
}

#[test]
fn key_prefix_single_chunk_falls_back() {
    for key in ["orphan", "/orphan/"] {
        assert_eq!(key_prefix().resolve(key), ("zenoh", "orphan"));
    }
}

#[test]
fn static_uses_full_key_as_entry() {
    let routing = BucketRouting::Static {
        bucket: "bucket-1".to_string(),
    };
    assert_eq!(
        routing.resolve("/factory/line1/status"),
        ("bucket-1", "factory/line1/status")
    );
}

#[test]
fn dynamic_flag() {
    assert!(key_prefix().is_dynamic());
    assert!(!BucketRouting::Static {
        bucket: "b".to_string()
    }
    .is_dynamic());
}

#[test]
fn outer_slashes_do_not_matter() {
    assert_eq!(key_prefix().resolve("///a/b//"), ("a", "b"));
    assert_eq!(key_prefix().resolve("a//b"), ("a", "/b"));
    assert_eq!(key_prefix().resolve("//"), ("zenoh", ""));
    assert_eq!(key_prefix().resolve(""), ("zenoh", ""));
    assert_eq!(key_prefix().resolve("/ü/ß/"), ("ü", "ß"));
}

#[test]
fn describes_itself() {
    let config = ZenohApiConfig {
        bucket: "b".to_string(),
        bucket_routing: ZenohBucketRouting::Static,
    };
    let routing = BucketRouting::from_config(&config);
    assert!(!routing.is_dynamic());
    assert_eq!(routing.describe(), "bucket='b'");
    let config = ZenohApiConfig {
        bucket: "b".to_string(),
        bucket_routing: ZenohBucketRouting::KeyPrefix,
    };
    let routing = BucketRouting::from_config(&config);
    assert!(routing.is_dynamic());
    assert_eq!(
        routing.describe(),
        "bucket=<key prefix> (fallback 'b')"
    );
}
