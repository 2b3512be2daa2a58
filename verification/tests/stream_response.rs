//! The response body of a streaming query, driven by a query in memory.

use reductstore::api::stream::{
    query_path, Phase, Pump, PumpAction, PumpEvent, PumpSettings, StreamRequest, FILL_SIZE,
};
use reductstore::batch::{Labels, RecordMeta, StreamDecoder, StreamItem, StreamRecord};
use reductstore::error::{ErrorCode, ReductError};
use std::collections::VecDeque;

/// Decodes a whole response into its records, their payloads, and how it ended.
fn decode(body: &[u8]) -> (Vec<(StreamRecord, Vec<u8>)>, Option<StreamItem>) {
    let mut decoder = StreamDecoder::new();
    decoder.feed(body);

    let mut records: Vec<(StreamRecord, Vec<u8>)> = Vec::new();
    let mut terminal = None;
    while let Some(item) = decoder.next_item().unwrap() {
        match item {
            StreamItem::Record(record) => records.push((record, Vec::new())),
            StreamItem::Payload(payload) => {
                records.last_mut().unwrap().1.extend_from_slice(&payload)
            }
            other => terminal = Some(other),
        }
    }
    (records, terminal)
}

fn error(status: ErrorCode, message: &str) -> Option<StreamItem> {
    Some(StreamItem::Error(ReductError::new(status, message)))
}

/// A record that breaks off behind some bytes.
fn broken_reader(timestamp: u64, length: u64, data: &[u8]) -> Reader {
    Ok((
        meta("e", timestamp, length),
        vec![
            Ok(data.to_vec()),
            Err(ReductError::new(ErrorCode::InternalServerError, "disk")),
        ],
    ))
}

fn meta(entry: &str, timestamp: u64, length: u64) -> RecordMeta {
    RecordMeta {
        entry_name: entry.to_string(),
        timestamp,
        content_type: "text/plain".to_string(),
        content_length: length,
        labels: Labels::new(),
        computed_labels: Labels::new(),
    }
}

type Reader = Result<(RecordMeta, Vec<Result<Vec<u8>, ReductError>>), ReductError>;

fn reader(entry: &str, timestamp: u64, data: &str) -> Reader {
    Ok((
        meta(entry, timestamp, data.len() as u64),
        vec![Ok(data.as_bytes().to_vec())],
    ))
}

fn no_content() -> Reader {
    Err(ReductError::new(ErrorCode::NoContent, "no content"))
}

/// A query in memory with a client and an egress limit.
struct World {
    batches: VecDeque<Vec<Reader>>,
    limit: u64,
    client_leaves_after: usize,
    clock: Vec<u64>,
    sent: Vec<Vec<u8>>,
    charges: Vec<u64>,
    removed: usize,
}

impl World {
    fn new(batches: Vec<Vec<Reader>>) -> World {
        World {
            batches: batches.into(),
            limit: u64::MAX,
            client_leaves_after: usize::MAX,
            clock: vec![],
            sent: vec![],
            charges: vec![],
            removed: 0,
        }
    }

    fn run(&mut self, settings: PumpSettings) -> Vec<u8> {
        let mut pump = Pump::new(settings, 0);
        let mut now = 0;
        let mut fetched: VecDeque<Reader> = VecDeque::new();
        let mut chunks: VecDeque<Result<Vec<u8>, ReductError>> = VecDeque::new();
        let mut action = PumpAction::Fetch;
        loop {
            let event = match action {
                PumpAction::Fetch => {
                    if !self.clock.is_empty() {
                        now = self.clock.remove(0);
                    }
                    fetched = self.batches.pop_front().unwrap_or_default().into();
                    PumpEvent::Fetched(!fetched.is_empty())
                }
                PumpAction::TakeRecord => PumpEvent::Record(match fetched.pop_front() {
                    None => None,
                    Some(Err(err)) => Some(Err(err)),
                    Some(Ok((meta, data))) => {
                        chunks = data.into();
                        Some(Ok(meta))
                    }
                }),
                PumpAction::ReadChunk => PumpEvent::Chunk(chunks.pop_front()),
                PumpAction::Charge(bytes) => {
                    self.charges.push(bytes);
                    if bytes <= self.limit {
                        self.limit -= bytes;
                        PumpEvent::Charged(Ok(()))
                    } else {
                        PumpEvent::Charged(Err(ReductError::new(
                            ErrorCode::TooManyRequests,
                            "egress limit",
                        )))
                    }
                }
                PumpAction::Send(bytes) => {
                    self.sent.push(bytes.to_vec());
                    PumpEvent::Sent(self.sent.len() <= self.client_leaves_after)
                }
                PumpAction::RemoveQuery => {
                    self.removed += 1;
                    PumpEvent::QueryRemoved
                }
                PumpAction::Finish => break,
            };
            action = pump.step(now, event);
        }
        assert_eq!(pump.phase(), Phase::Done);
        assert_eq!(self.removed, 1);
        self.sent.concat()
    }
}

fn settings() -> PumpSettings {
    PumpSettings {
        flush_size: 64,
        keepalive: 1_000,
        head_only: false,
    }
}

#[test]
fn streams_past_the_batch_record_cap() {
    let times: Vec<u64> = (1000..1100).collect();
    let mut batches: Vec<Vec<Reader>> = times
        .chunks(10)
        .map(|chunk| {
            chunk
                .iter()
                .map(|time| reader("entry-1", *time, "payload"))
                .collect()
        })
        .collect();
    batches.push(vec![no_content()]);

    let (records, terminal) = decode(&World::new(batches).run(settings()));

    assert_eq!(
        records.len(),
        100,
        "one response carries the whole query, past the {}-record batch cap",
        10
    );
    assert_eq!(terminal, Some(StreamItem::End));
    assert!(records.iter().all(|(_, payload)| payload == b"payload"));
    let stamps: Vec<u64> = records.iter().map(|(record, _)| record.timestamp).collect();
    assert_eq!(stamps, times);
}

#[test]
fn streams_several_entries_in_one_response() {
    let batches = vec![
        vec![
            reader("entry-1", 1000, "aa"),
            reader("entry-2", 1001, "bbb"),
        ],
        vec![
            reader("entry-1", 1002, "aa"),
            reader("entry-2", 1003, "bbb"),
        ],
        vec![no_content()],
    ];
    let (records, terminal) = decode(&World::new(batches).run(settings()));

    assert_eq!(terminal, Some(StreamItem::End));
    let mut seen: Vec<(String, u64, Vec<u8>)> = records
        .into_iter()
        .map(|(record, payload)| (record.entry, record.timestamp, payload))
        .collect();
    seen.sort();
    assert_eq!(
        seen,
        vec![
            ("entry-1".to_string(), 1000, b"aa".to_vec()),
            ("entry-1".to_string(), 1002, b"aa".to_vec()),
            ("entry-2".to_string(), 1001, b"bbb".to_vec()),
            ("entry-2".to_string(), 1003, b"bbb".to_vec()),
        ]
    );
}

#[test]
fn omits_payloads_for_a_metadata_only_query() {
    let batches = vec![vec![
        reader("entry-1", 1000, "payload"),
        reader("entry-1", 1001, "payload"),
        no_content(),
    ]];
    let mut world = World::new(batches);
    let (records, terminal) = decode(&world.run(PumpSettings {
        head_only: true,
        ..settings()
    }));

    assert_eq!(terminal, Some(StreamItem::End));
    assert_eq!(records.len(), 2);
    assert!(records.iter().all(|(record, payload)| {
        record.content_length == 7 && !record.has_payload && payload.is_empty()
    }));
}

#[test]
fn ends_an_empty_query_cleanly() {
    let (records, terminal) = decode(&World::new(vec![vec![no_content()]]).run(settings()));
    assert!(records.is_empty());
    assert_eq!(terminal, Some(StreamItem::End));
}

#[test]
fn reports_an_exceeded_egress_limit_in_the_body() {
    let mut batch: Vec<Reader> = (1000..1100)
        .map(|time| reader("entry-1", time, "payload"))
        .collect();
    batch.push(no_content());
    let mut world = World::new(vec![batch]);
    world.limit = 5;
    let (_, terminal) = decode(&world.run(PumpSettings {
        flush_size: 1 << 20,
        ..settings()
    }));

    let Some(StreamItem::Error(err)) = terminal else {
        panic!("expected the stream to end with an error frame, got {terminal:?}");
    };
    assert_eq!(err.status(), ErrorCode::TooManyRequests);
}

#[test]
fn keeps_a_continuous_query_open_for_records_written_later() {
    let batches = vec![
        vec![reader("entry-1", 1000, "first")],
        vec![],
        vec![],
        vec![reader("entry-1", 2000, "later")],
        vec![no_content()],
    ];
    let mut world = World::new(batches);
    let body = world.run(settings());
    // The first record goes out as soon as nothing more comes.
    let (early, terminal) = decode(&world.sent[0]);
    assert_eq!(early[0].1, b"first");
    assert_eq!(terminal, None);
    let (records, terminal) = decode(&body);
    assert_eq!(records[0].1, b"first");
    assert_eq!(records[1].1, b"later");
    assert_eq!(terminal, Some(StreamItem::End));
}

#[test]
fn does_not_charge_egress_for_a_metadata_only_query() {
    let mut batch: Vec<Reader> = (1000..1100)
        .map(|time| reader("entry-1", time, "payload"))
        .collect();
    batch.push(no_content());
    let mut world = World::new(vec![batch]);
    world.limit = 5;
    let (records, terminal) = decode(&world.run(PumpSettings {
        head_only: true,
        ..settings()
    }));

    assert_eq!(records.len(), 100);
    assert_eq!(terminal, Some(StreamItem::End));
    assert!(world.charges.is_empty());
}

#[test]
fn charges_every_payload_before_it_is_sent() {
    let mut batch: Vec<Reader> = (0..20)
        .map(|time| reader("e", time, "0123456789"))
        .collect();
    batch.push(no_content());
    let mut world = World::new(vec![batch]);
    let (records, _) = decode(&world.run(settings()));
    assert_eq!(records.len(), 20);
    assert_eq!(world.charges.iter().sum::<u64>(), 200);
    assert!(world.sent.len() > 2);
}

#[test]
fn sends_keepalives_while_idle() {
    let mut world = World::new(vec![
        vec![],
        vec![],
        vec![],
        vec![reader("e", 1, "x")],
        vec![no_content()],
    ]);
    world.clock = vec![500, 1_000, 1_500, 2_000, 2_000];
    let body = world.run(settings());
    assert_eq!(world.sent[0], vec![4]);
    assert_eq!(body.iter().filter(|byte| **byte == 4).count(), 1);
    let (records, terminal) = decode(&body);
    assert_eq!(records.len(), 1);
    assert_eq!(terminal, Some(StreamItem::End));
}

#[test]
fn a_failure_between_records_ends_with_its_error() {
    let batches = vec![vec![
        reader("e", 1, "abc"),
        Err(ReductError::new(ErrorCode::InternalServerError, "broken")),
    ]];
    let mut world = World::new(batches);
    world.limit = 0;
    let (records, terminal) = decode(&world.run(settings()));
    // What the query had left goes out with its error and is not charged.
    assert_eq!(records.len(), 1);
    assert_eq!(records[0].1, b"abc");
    assert_eq!(
        terminal,
        Some(StreamItem::Error(ReductError::new(
            ErrorCode::InternalServerError,
            "broken"
        )))
    );
    assert!(world.charges.is_empty());
}

#[test]
fn a_failed_chunk_stops_the_stream() {
    let mut world = World::new(vec![vec![broken_reader(1, 10, b"0123")]]);
    let (records, terminal) = decode(&world.run(settings()));
    // Nothing of the record was sent, so the client never hears of it.
    assert!(records.is_empty());
    assert_eq!(terminal, error(ErrorCode::InternalServerError, "disk"));
    assert_eq!(world.charges.len(), 0);
    assert_eq!(world.sent.len(), 1);
}

#[test]
fn a_failed_chunk_leaves_the_records_before() {
    let mut world = World::new(vec![vec![reader("e", 1, "abc"), broken_reader(2, 10, b"0123")]]);
    let (records, terminal) = decode(&world.run(settings()));
    assert_eq!(records.len(), 1);
    assert_eq!(records[0].1, b"abc");
    assert_eq!(terminal, error(ErrorCode::InternalServerError, "disk"));
    assert!(world.charges.is_empty());
}

#[test]
fn a_record_that_was_partly_sent_is_completed_before_the_error() {
    let mut world = World::new(vec![vec![broken_reader(1, 200, &[7; 100])]]);
    let (records, terminal) = decode(&world.run(settings()));
    assert_eq!(records.len(), 1);
    assert_eq!(records[0].0.content_length, 200);
    assert_eq!(records[0].1, [vec![7; 100], vec![0; 100]].concat());
    assert_eq!(terminal, error(ErrorCode::InternalServerError, "disk"));
    assert_eq!(world.charges, vec![200]);
}

#[test]
fn a_long_record_is_completed_piece_by_piece() {
    let length = 100 + 2 * FILL_SIZE + 5;
    let mut world = World::new(vec![vec![broken_reader(1, length as u64, &[7; 100])]]);
    let (records, terminal) = decode(&world.run(settings()));
    assert_eq!(records[0].1.len(), length);
    assert_eq!(terminal, error(ErrorCode::InternalServerError, "disk"));
    let sizes: Vec<usize> = world.sent.iter().map(|bytes| bytes.len()).collect();
    assert_eq!(sizes[1..4], [FILL_SIZE, FILL_SIZE, 5]);
    assert_eq!(sizes.len(), 5);
}

#[test]
fn a_client_may_leave_while_a_record_is_completed() {
    let length = 100 + 2 * FILL_SIZE + 5;
    let mut world = World::new(vec![vec![broken_reader(1, length as u64, &[7; 100])]]);
    world.client_leaves_after = 2;
    world.run(settings());
    assert_eq!(world.sent.len(), 3);
}

#[test]
fn a_client_that_leaves_gets_nothing_more() {
    let mut batch: Vec<Reader> = (0..20)
        .map(|time| reader("e", time, "0123456789"))
        .collect();
    batch.push(no_content());
    let mut world = World::new(vec![batch]);
    world.client_leaves_after = 1;
    world.run(settings());
    assert_eq!(world.sent.len(), 2);
}

#[test]
fn an_end_that_is_not_paid_for_is_an_error() {
    let mut world = World::new(vec![vec![reader("e", 1, "abc"), no_content()]]);
    world.limit = 2;
    let (records, terminal) = decode(&world.run(settings()));
    assert!(records.is_empty());
    assert!(matches!(terminal, Some(StreamItem::Error(_))));
    assert_eq!(world.charges, vec![3]);
}

#[test]
fn a_refusal_while_idle_is_an_error() {
    let mut world = World::new(vec![vec![reader("e", 1, "abc")], vec![]]);
    world.limit = 2;
    let (records, terminal) = decode(&world.run(settings()));
    assert!(records.is_empty());
    assert_eq!(terminal, error(ErrorCode::TooManyRequests, "egress limit"));
    assert_eq!(world.charges, vec![3]);
}

#[test]
fn a_refusal_leaves_a_record_that_was_partly_sent_whole() {
    let first = Ok((
        meta("e", 1, 130),
        vec![Ok(vec![7; 100]), Ok(vec![8; 30])],
    ));
    let second = Ok((meta("e", 2, 50), vec![Ok(vec![9; 50])]));
    let mut world = World::new(vec![vec![first, second, no_content()]]);
    world.limit = 130;
    let (records, terminal) = decode(&world.run(settings()));
    assert_eq!(world.charges, vec![130, 50]);
    assert_eq!(records.len(), 1);
    assert_eq!(records[0].1, [vec![7; 100], vec![8; 30]].concat());
    assert_eq!(terminal, error(ErrorCode::TooManyRequests, "egress limit"));
}

#[test]
fn a_client_that_stays_always_gets_an_ending() {
    for limit in 0..=60 {
        for broken in [false, true] {
            let mut batch: Vec<Reader> = (0..4)
                .map(|time| reader("e", time, "0123456789"))
                .collect();
            batch.push(if broken {
                broken_reader(9, 20, b"abc")
            } else {
                no_content()
            });
            let mut world = World::new(vec![batch, vec![]]);
            world.limit = limit;
            let (records, terminal) = decode(&world.run(settings()));
            assert!(matches!(
                terminal,
                Some(StreamItem::End) | Some(StreamItem::Error(_))
            ));
            assert_eq!(terminal == Some(StreamItem::End), !broken && limit >= 40);
            let sent: u64 = records.iter().map(|(_, payload)| payload.len() as u64).sum();
            if terminal != error(ErrorCode::InternalServerError, "disk") {
                assert!(sent <= limit);
            }
        }
    }
}

#[test]
fn a_refusal_in_the_middle_is_an_error() {
    let mut batch: Vec<Reader> = (0..20)
        .map(|time| reader("e", time, "0123456789"))
        .collect();
    batch.push(no_content());
    let mut world = World::new(vec![batch]);
    world.limit = 100;
    let (_, terminal) = decode(&world.run(settings()));
    assert_eq!(
        terminal,
        Some(StreamItem::Error(ReductError::new(
            ErrorCode::TooManyRequests,
            "egress limit"
        )))
    );
}

#[test]
fn a_request_names_its_query() {
    let request = StreamRequest {
        entries: Some(vec!["entry-1".to_string(), "entry-2".to_string()]),
        only_metadata: Some(true),
    };
    assert!(request.head_only());
    assert_eq!(request.entry_name(), "entry-1");
    let request = StreamRequest {
        entries: None,
        only_metadata: None,
    };
    assert!(!request.head_only());
    assert_eq!(request.entry_name(), "");
    let request = StreamRequest {
        entries: Some(vec![]),
        only_metadata: Some(false),
    };
    assert!(!request.head_only());
    assert_eq!(request.entry_name(), "");
    assert_eq!(query_path("bucket-1", 42), "bucket-1/42");
}
