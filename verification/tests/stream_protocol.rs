//! The record stream: writing, reading back, and what a broken stream leads to.

use bytes::{BufMut, BytesMut};
use reductstore::batch::encoder::{MAX_INTERNED, MAX_STRINGS, STR_REF_BASE, TAG_RECORD};
use reductstore::batch::wire::{
    apply_delta, put_varint, timestamp_delta, unzigzag, zigzag, Cursor,
};
use reductstore::batch::{
    Labels, RecordFrame, RecordMeta, StreamDecoder, StreamEncoder, StreamItem, StreamRecord,
    API_FEATURES_HEADER, READ_STREAM_FEATURE, STREAM_CONTENT_TYPE,
};
use reductstore::error::{ErrorCode, ReductError};

fn labels(pairs: &[(&str, &str)]) -> Labels {
    let mut labels = Labels::new();
    for (name, value) in pairs {
        labels.insert(name.to_string(), value.to_string());
    }
    labels
}

fn encode_all(records: &[(StreamRecord, &[u8])]) -> BytesMut {
    let mut encoder = StreamEncoder::new();
    let mut buf = BytesMut::new();
    for (record, payload) in records {
        encoder.encode_record(
            &mut buf,
            RecordFrame {
                entry: &record.entry,
                timestamp: record.timestamp,
                content_type: &record.content_type,
                content_length: record.content_length,
                labels: &record.labels,
                with_payload: record.has_payload,
            },
        );
        if record.has_payload {
            buf.put_slice(payload);
        }
    }
    encoder.encode_end(&mut buf);
    buf
}

fn decode_all(bytes: &[u8], chunk_size: usize) -> (Vec<(StreamRecord, Vec<u8>)>, bool) {
    let mut decoder = StreamDecoder::new();
    let mut out: Vec<(StreamRecord, Vec<u8>)> = Vec::new();
    let mut ended = false;

    for chunk in bytes.chunks(chunk_size) {
        decoder.feed(chunk);
        while let Some(item) = decoder.next_item().unwrap() {
            match item {
                StreamItem::Record(record) => out.push((record, Vec::new())),
                StreamItem::Payload(payload) => {
                    out.last_mut().unwrap().1.extend_from_slice(&payload)
                }
                StreamItem::End => ended = true,
                StreamItem::Error(err) => panic!("unexpected error frame: {:?}", err),
            }
        }
    }

    (out, ended)
}

fn record(entry: &str, timestamp: u64, content_type: &str, payload: &[u8]) -> StreamRecord {
    StreamRecord {
        entry: entry.to_string(),
        timestamp,
        content_type: content_type.to_string(),
        content_length: payload.len() as u64,
        labels: Labels::new(),
        has_payload: true,
    }
}

fn put_head(encoder: &mut StreamEncoder, buf: &mut BytesMut, entry: &str, timestamp: u64) {
    let empty = Labels::new();
    encoder.encode_record(
        buf,
        RecordFrame {
            entry,
            timestamp,
            content_type: "text/plain",
            content_length: 0,
            labels: &empty,
            with_payload: false,
        },
    );
}

#[test]
fn round_trips_at_any_chunk_boundary() {
    for chunk_size in [1, 3, 7, 64, 4096] {
        let mut first = record("entry-1", 1_000_000, "text/plain", b"hello");
        first.labels = labels(&[("host", "svc01"), ("seq", "1")]);
        let mut second = record("entry-1", 1_000_100, "text/plain", b"world!!");
        second.labels = labels(&[("host", "svc01"), ("seq", "2")]);
        let third = record("entry-2", 999_000, "application/cbor", b"\x01\x02\x03");

        let input = vec![
            (first.clone(), b"hello".as_slice()),
            (second.clone(), b"world!!".as_slice()),
            (third.clone(), b"\x01\x02\x03".as_slice()),
        ];
        let bytes = encode_all(&input);
        let (decoded, ended) = decode_all(&bytes, chunk_size);

        assert!(ended);
        assert_eq!(decoded.len(), 3);
        assert_eq!(decoded[0].0, first);
        assert_eq!(decoded[0].1, b"hello");
        assert_eq!(decoded[1].0, second);
        assert_eq!(decoded[1].1, b"world!!");
        assert_eq!(decoded[2].0, third);
        assert_eq!(decoded[2].1, b"\x01\x02\x03");
    }
}

#[test]
fn reuses_content_type_and_labels_per_entry() {
    let mut a1 = record("a", 100, "application/cbor", b"1");
    a1.labels = labels(&[("k", "v")]);
    let mut b1 = record("b", 101, "text/plain", b"2");
    b1.labels = labels(&[("k", "other")]);
    let mut a2 = record("a", 102, "application/cbor", b"3");
    a2.labels = labels(&[("k", "v")]);

    let bytes = encode_all(&[
        (a1.clone(), b"1".as_slice()),
        (b1.clone(), b"2".as_slice()),
        (a2.clone(), b"3".as_slice()),
    ]);
    let (decoded, _) = decode_all(&bytes, 4096);

    assert_eq!(decoded[2].0, a2, "entry a's baseline survives entry b");
}

#[test]
fn interns_repeated_strings() {
    let mut records = Vec::new();
    for i in 0..64u64 {
        let mut rec = record("telemetry", 1_000_000 + i, "application/cbor", b"xxxxxxxx");
        rec.labels = labels(&[("source", "aaaaaaaaaaaaaaaaaaaaaaaaaaaaaaaa")]);
        records.push((rec, b"xxxxxxxx".as_slice()));
    }
    let bytes = encode_all(&records);

    let payload_bytes = 64 * 8;
    let overhead = bytes.len() - payload_bytes;
    assert!(
        overhead < 64 * 6,
        "interning should hold steady-state metadata under 6 B/record, got {} B total",
        overhead
    );

    let (decoded, ended) = decode_all(&bytes, 5);
    assert!(ended);
    assert_eq!(decoded.len(), 64);
    assert_eq!(
        decoded[63].0.labels.get("source"),
        Some("aaaaaaaaaaaaaaaaaaaaaaaaaaaaaaaa")
    );
}

#[test]
fn never_interns_a_value_seen_once() {
    let mut records = Vec::new();
    for i in 0..MAX_INTERNED as u64 + 100 {
        let mut rec = record("e", i, "text/plain", b"");
        rec.labels = labels(&[("ts", &format!("{}", i))]);
        records.push((rec, b"".as_slice()));
    }
    let bytes = encode_all(&records);
    let (decoded, ended) = decode_all(&bytes, 997);

    assert!(ended);
    assert_eq!(decoded.len(), MAX_INTERNED + 100);
    assert_eq!(
        decoded.last().unwrap().0.labels.get("ts"),
        Some(format!("{}", MAX_INTERNED + 99).as_str())
    );
}

#[test]
fn carries_metadata_only_records() {
    let mut head = record("e", 5, "text/plain", b"ignored");
    head.has_payload = false;
    head.content_length = 7;

    let bytes = encode_all(&[(head.clone(), b"".as_slice())]);
    let (decoded, ended) = decode_all(&bytes, 4096);

    assert!(ended);
    assert_eq!(decoded[0].0, head);
    assert!(
        decoded[0].1.is_empty(),
        "no payload follows a head-only record"
    );
}

#[test]
fn decodes_a_terminal_error() {
    let mut encoder = StreamEncoder::new();
    let mut buf = BytesMut::new();
    put_head(&mut encoder, &mut buf, "e", 1);
    encoder.encode_error(
        &mut buf,
        &ReductError::new(ErrorCode::TooManyRequests, "slow down"),
    );

    let mut decoder = StreamDecoder::new();
    decoder.feed(&buf);
    assert!(matches!(
        decoder.next_item().unwrap(),
        Some(StreamItem::Record(_))
    ));
    let Some(StreamItem::Error(err)) = decoder.next_item().unwrap() else {
        panic!("expected an error frame");
    };
    assert_eq!(err.status(), ErrorCode::TooManyRequests);
    assert_eq!(err.message(), "slow down");
    assert!(decoder.is_finished());
}

#[test]
fn skips_keepalives() {
    let mut encoder = StreamEncoder::new();
    let mut buf = BytesMut::new();
    encoder.encode_keepalive(&mut buf);
    encoder.encode_keepalive(&mut buf);
    put_head(&mut encoder, &mut buf, "e", 1);
    encoder.encode_end(&mut buf);

    let (decoded, ended) = decode_all(&buf, 1);
    assert!(ended);
    assert_eq!(decoded.len(), 1);
}

#[test]
fn reports_a_truncated_stream() {
    let bytes = encode_all(&[(record("e", 1, "text/plain", b"abcd"), b"abcd".as_slice())]);
    let mut decoder = StreamDecoder::new();
    decoder.feed(&bytes[..bytes.len() - 3]);
    while decoder.next_item().unwrap().is_some() {}
    assert!(!decoder.is_finished());
}

#[test]
fn every_cut_of_a_stream_is_seen() {
    let mut rec = record("entry", 77, "text/plain", b"abcd");
    rec.labels = labels(&[("a", "1"), ("b", "2")]);
    let bytes = encode_all(&[(rec, b"abcd".as_slice())]);
    for cut in 0..bytes.len() {
        let mut decoder = StreamDecoder::new();
        decoder.feed(&bytes[..cut]);
        while decoder.next_item().unwrap().is_some() {}
        assert!(!decoder.is_finished());
    }
}

#[test]
fn rejects_an_unknown_tag() {
    let mut decoder = StreamDecoder::new();
    decoder.feed(&[0x7f]);
    assert!(decoder.next_item().is_err());
}

#[test]
fn names_the_unknown_tag() {
    let mut decoder = StreamDecoder::new();
    decoder.feed(&[0x7f]);
    let err = decoder.next_item().unwrap_err();
    assert_eq!(err.status(), ErrorCode::Unknown);
    assert_eq!(
        err.message(),
        "Malformed record stream: unknown frame tag 0x7f"
    );

    let mut decoder = StreamDecoder::new();
    decoder.feed(&[0x04, 0x00]);
    let err = decoder.next_item().unwrap_err();
    assert_eq!(
        err.message(),
        "Malformed record stream: unknown frame tag 0x00"
    );
}

#[test]
fn rejects_an_out_of_range_string_reference() {
    let mut buf = BytesMut::new();
    buf.put_u8(TAG_RECORD);
    buf.put_u8(0);
    put_varint(&mut buf, STR_REF_BASE + 9);

    let mut decoder = StreamDecoder::new();
    decoder.feed(&buf);
    assert!(decoder.next_item().is_err());
}

fn decode_failure(bytes: &[u8]) -> String {
    let mut decoder = StreamDecoder::new();
    decoder.feed(bytes);
    loop {
        match decoder.next_item() {
            Ok(Some(_)) => {}
            Ok(None) => panic!("expected an error"),
            Err(err) => {
                assert_eq!(err.status(), ErrorCode::Unknown);
                return err.message().to_string();
            }
        }
    }
}

#[test]
fn says_what_is_malformed() {
    let prefix = "Malformed record stream: ";
    assert_eq!(
        decode_failure(&[1, 0, 11]),
        format!("{}string reference is out of range", prefix)
    );
    assert_eq!(
        decode_failure(&[1, 1]),
        format!("{}first record reuses an entry name", prefix)
    );
    assert_eq!(
        decode_failure(&[1, 2, 0, 1, b'e', 0, 0]),
        format!("{}first record of an entry reuses a content type", prefix)
    );
    assert_eq!(
        decode_failure(&[1, 4, 0, 1, b'e', 0, 0, 0, 1, b't']),
        format!("{}first record of an entry reuses labels", prefix)
    );
    assert_eq!(
        decode_failure(&[1, 0, 0, 1, 0xff]),
        format!("{}inline string is not valid UTF-8", prefix)
    );
    let mut buf = BytesMut::new();
    buf.put_slice(&[1, 0, 0]);
    put_varint(&mut buf, (1 << 20) + 1);
    assert_eq!(
        decode_failure(&buf),
        format!("{}inline string is too long", prefix)
    );
    assert_eq!(
        decode_failure(&[1, 0, 255, 255, 255, 255, 255, 255, 255, 255, 255, 255]),
        format!("{}varint overflows 64 bits", prefix)
    );
    let mut buf = BytesMut::new();
    buf.put_slice(&[3, 0]);
    put_varint(&mut buf, (1 << 20) + 1);
    assert_eq!(
        decode_failure(&buf),
        format!("{}error message is too long", prefix)
    );
    assert_eq!(
        decode_failure(&[3, 0, 1, 0xc0]),
        format!("{}error message is not valid UTF-8", prefix)
    );
}

#[test]
fn a_full_string_table_is_an_error() {
    let mut buf = BytesMut::new();
    buf.put_u8(TAG_RECORD);
    buf.put_u8(0);
    // The entry name, the numbers and the content type.
    buf.put_slice(&[0, 1, b'e', 0, 0, 0, 1, b't']);
    let pairs = MAX_INTERNED as u64 / 2;
    put_varint(&mut buf, pairs + 1);
    for i in 0..pairs {
        for side in ["n", "v"] {
            let text = format!("{}{}", side, i);
            put_varint(&mut buf, 1);
            put_varint(&mut buf, text.len() as u64);
            buf.put_slice(text.as_bytes());
        }
    }
    buf.put_slice(&[1, 1, b'x']);
    assert_eq!(
        decode_failure(&buf),
        "Malformed record stream: string table is full"
    );
}

#[test]
fn timestamps_may_go_backwards() {
    let bytes = encode_all(&[
        (record("e", 5_000_000, "text/plain", b""), b"".as_slice()),
        (record("e", 4_000_000, "text/plain", b""), b"".as_slice()),
        (record("e", 6_000_000, "text/plain", b""), b"".as_slice()),
    ]);
    let (decoded, _) = decode_all(&bytes, 4096);
    let stamps: Vec<u64> = decoded.iter().map(|(r, _)| r.timestamp).collect();
    assert_eq!(stamps, vec![5_000_000, 4_000_000, 6_000_000]);
}

#[test]
fn timestamps_cover_the_whole_range() {
    let stamps = [0, u64::MAX, 1 << 63, 1, (1 << 63) - 1, u64::MAX - 1, 0];
    let records: Vec<(StreamRecord, &[u8])> = stamps
        .iter()
        .map(|ts| (record("e", *ts, "t", b""), b"".as_slice()))
        .collect();
    let bytes = encode_all(&records);
    let (decoded, ended) = decode_all(&bytes, 2);
    assert!(ended);
    let read: Vec<u64> = decoded.iter().map(|(r, _)| r.timestamp).collect();
    assert_eq!(read, stamps);
}

#[test]
fn writes_the_frames_byte_by_byte() {
    let mut encoder = StreamEncoder::new();
    let mut buf = BytesMut::new();
    put_head(&mut encoder, &mut buf, "e", 1);
    put_head(&mut encoder, &mut buf, "e", 3);
    encoder.encode_keepalive(&mut buf);
    encoder.encode_error(&mut buf, &ReductError::new(ErrorCode::Unknown, "no"));
    encoder.encode_end(&mut buf);

    let mut expected: Vec<u8> = vec![1, 0, 0, 1, b'e', 2, 0, 0, 10];
    expected.extend_from_slice(b"text/plain");
    // No labels, then the second record repeats all but the timestamp.
    expected.extend_from_slice(&[0, 1, 7, 4, 0]);
    expected.extend_from_slice(&[4, 3, 1, 2, b'n', b'o', 2]);
    assert_eq!(&buf[..], &expected[..]);
}

#[test]
fn a_string_takes_an_index_on_its_second_use() {
    let mut encoder = StreamEncoder::new();
    let mut buf = BytesMut::new();
    let first = labels(&[("k", "k")]);
    encoder.encode_record(
        &mut buf,
        RecordFrame {
            entry: "k",
            timestamp: 0,
            content_type: "k",
            content_length: 0,
            labels: &first,
            with_payload: false,
        },
    );
    // Inline, then inline with an index, then two references.
    assert_eq!(
        &buf[..],
        &[1, 0, 0, 1, b'k', 0, 0, 1, 1, b'k', 1, 2, 2]
    );
}

#[test]
fn folds_computed_labels() {
    let meta = RecordMeta {
        entry_name: "e".to_string(),
        timestamp: 9,
        content_type: "text/plain".to_string(),
        content_length: 3,
        labels: labels(&[("a", "1"), ("@b", "old")]),
        computed_labels: labels(&[("b", "2"), ("c", "3")]),
    };
    let mut encoder = StreamEncoder::new();
    let mut buf = BytesMut::new();
    encoder.encode_record_meta(&mut buf, &meta, true);
    buf.put_slice(b"abc");
    encoder.encode_end(&mut buf);

    let (decoded, ended) = decode_all(&buf, 1);
    assert!(ended);
    assert_eq!(
        decoded[0].0.labels,
        labels(&[("a", "1"), ("@b", "2"), ("@c", "3")])
    );
    assert!(decoded[0].0.has_payload);
    assert_eq!(decoded[0].1, b"abc");
}

#[test]
fn unknown_error_numbers_become_unknown() {
    let mut buf = BytesMut::new();
    buf.put_u8(3);
    put_varint(&mut buf, zigzag(9999));
    put_varint(&mut buf, 2);
    buf.put_slice(b"hm");
    let mut decoder = StreamDecoder::new();
    decoder.feed(&buf);
    assert_eq!(
        decoder.next_item().unwrap(),
        Some(StreamItem::Error(ReductError::new(
            ErrorCode::Unknown,
            "hm"
        )))
    );
}

#[test]
fn nothing_follows_the_end() {
    let mut buf = BytesMut::new();
    StreamEncoder::new().encode_end(&mut buf);
    put_head(&mut StreamEncoder::new(), &mut buf, "e", 1);
    let mut decoder = StreamDecoder::default();
    decoder.feed(&buf);
    assert_eq!(decoder.next_item().unwrap(), Some(StreamItem::End));
    assert_eq!(decoder.next_item().unwrap(), None);
    assert!(decoder.is_finished());
}

#[test]
fn labels_are_equal_in_any_order() {
    let a = labels(&[("x", "1"), ("y", "2")]);
    let b = labels(&[("y", "2"), ("x", "1")]);
    assert_eq!(a, b);
    assert_eq!(a, a.clone());
    assert_ne!(a, labels(&[("x", "1")]));
    assert_ne!(labels(&[("x", "1")]), a);
    assert_ne!(a, labels(&[("x", "1"), ("y", "3")]));
    assert_eq!(labels(&[("x", "1"), ("x", "2")]).get("x"), Some("2"));
    assert_eq!(labels(&[("x", "1"), ("x", "2")]).len(), 1);
    assert!(Labels::default().is_empty());
    assert_eq!(a.get("z"), None);
}

#[test]
fn varints_and_signs() {
    for (value, bytes) in [
        (0u64, vec![0u8]),
        (127, vec![127]),
        (128, vec![128, 1]),
        (300, vec![172, 2]),
        (
            u64::MAX,
            vec![255, 255, 255, 255, 255, 255, 255, 255, 255, 1],
        ),
    ] {
        let mut buf = BytesMut::new();
        put_varint(&mut buf, value);
        assert_eq!(&buf[..], &bytes[..]);
        let mut cursor = Cursor {
            buf: &buf[..],
            pos: 0,
        };
        assert_eq!(cursor.varint(), Ok(Some(value)));
        assert_eq!(cursor.pos, bytes.len());
    }
    let mut cursor = Cursor {
        buf: &[128, 128],
        pos: 0,
    };
    assert_eq!(cursor.varint(), Ok(None));

    for (value, code) in [
        (0i64, 0u64),
        (-1, 1),
        (1, 2),
        (-2, 3),
        (i64::MAX, u64::MAX - 1),
        (i64::MIN, u64::MAX),
    ] {
        assert_eq!(zigzag(value), code);
        assert_eq!(unzigzag(code), value);
    }

    assert_eq!(timestamp_delta(5, 3), -2);
    assert_eq!(timestamp_delta(u64::MAX, 0), 1);
    assert_eq!(apply_delta(u64::MAX, 1), 0);
    assert_eq!(apply_delta(3, -4), u64::MAX);
}

#[test]
fn varints_are_as_short_as_they_can_be() {
    for len in 1..=10u32 {
        let least = if len == 1 { 0 } else { 1u64 << (7 * (len - 1)) };
        let most = if len == 10 { u64::MAX } else { (1u64 << (7 * len)) - 1 };
        for value in [least, most] {
            let mut buf = BytesMut::new();
            put_varint(&mut buf, value);
            assert_eq!(buf.len(), len as usize);
        }
    }
    // A longer form is read as well.
    let mut cursor = Cursor {
        buf: &[129, 128, 0],
        pos: 0,
    };
    assert_eq!(cursor.varint(), Ok(Some(1)));
    assert_eq!(cursor.pos, 3);
}

#[test]
fn the_writer_remembers_so_many_strings_and_no_more() {
    let mut records = Vec::new();
    for i in 0..MAX_STRINGS as u64 + 10 {
        records.push((record(&format!("entry-{}", i), i, "text/plain", b""), b"".as_slice()));
    }
    for i in 0..3 {
        records.push((record("late-a", 10_000 + i, "text/plain", b""), b"".as_slice()));
        records.push((record("entry-0", 20_000 + i, "text/plain", b""), b"".as_slice()));
    }
    let bytes = encode_all(&records);
    // A string that comes when the table is full is written out every time.
    let count = |text: &[u8]| bytes.windows(text.len()).filter(|part| *part == text).count();
    assert_eq!(count(b"late-a"), 3);
    // A string that is remembered is written out twice.
    assert_eq!(count(b"entry-0"), 2);
    let (decoded, ended) = decode_all(&bytes, 997);
    assert!(ended);
    assert_eq!(decoded.len(), records.len());
    for (got, (put, _)) in decoded.iter().zip(&records) {
        assert_eq!(&got.0, put);
    }
}

#[test]
fn a_string_that_is_cut_leaves_no_trace() {
    let mut records = Vec::new();
    for i in 0..4 {
        let mut rec = record("e", i, "text/plain", b"");
        rec.labels = labels(&[("name", if i % 2 == 0 { "even" } else { "odd" })]);
        records.push((rec, b"".as_slice()));
    }
    let bytes = encode_all(&records);
    // Every frame is tried again for each byte that comes, and its strings count once.
    let (decoded, ended) = decode_all(&bytes, 1);
    assert!(ended);
    assert_eq!(decoded.len(), 4);
    assert_eq!(decoded[3].0.labels.get("name"), Some("odd"));

    // A string that is announced too long is an error before its bytes come.
    let failure = decode_failure(&[TAG_RECORD, 2, 0, 0x81, 0x80, 0x40]);
    assert_eq!(
        failure,
        "Malformed record stream: inline string is too long"
    );
}

#[test]
fn flags_tell_what_came_before() {
    let mut encoder = StreamEncoder::new();
    let mut flags = |entry: &str, content_type: &str, label: &str, with_payload: bool| {
        let mut buf = BytesMut::new();
        encoder.encode_record(
            &mut buf,
            RecordFrame {
                entry,
                timestamp: 1,
                content_type,
                content_length: 0,
                labels: &labels(&[("l", label)]),
                with_payload,
            },
        );
        assert_eq!(buf[0], TAG_RECORD);
        buf[1]
    };
    assert_eq!(flags("a", "t", "x", false), 0);
    assert_eq!(flags("a", "t", "x", true), 1 + 2 + 4 + 8);
    assert_eq!(flags("b", "t", "x", true), 8);
    // The latest record of the entry counts, not the one right before.
    assert_eq!(flags("a", "t", "y", false), 2);
    assert_eq!(flags("a", "u", "y", false), 1 + 4);
    assert_eq!(flags("b", "t", "x", false), 2 + 4);
}

#[test]
fn cursor_reads_slices() {
    let mut cursor = Cursor {
        buf: b"abc",
        pos: 0,
    };
    assert_eq!(cursor.slice(2), Some(b"ab".as_slice()));
    assert_eq!(cursor.slice(2), None);
    assert_eq!(cursor.u8(), Some(b'c'));
    assert_eq!(cursor.u8(), None);
    assert_eq!(cursor.slice(0), Some(b"".as_slice()));
}

#[test]
fn protocol_names() {
    assert_eq!(API_FEATURES_HEADER, "x-reduct-api-features");
    assert_eq!(READ_STREAM_FEATURE, "read-stream");
    assert_eq!(STREAM_CONTENT_TYPE, "application/x-reduct-stream-v3");
}
