use split_indexer::counters::IndexerCounters;
use split_indexer::document::{ParsedDoc, ParsedDocBatch, RawDocBatch};
use split_indexer::error::IndexerError;
use split_indexer::indexer::Indexer;
use split_indexer::split::{IndexedSplit, SplitStatistics};
use split_indexer::time_range::TimeRange;
use tantivy::schema::{Field, Schema, INDEXED, STORED, TEXT};
use std::time::{Duration, Instant};
use tantivy::{Document, Index, IndexWriter, TantivyError};

struct Fixture {
    index: Index,
    timestamp_field: Field,
    body_field: Field,
}

fn new_fixture() -> Fixture {
    let mut schema_builder = Schema::builder();
    let timestamp_field = schema_builder.add_i64_field("timestamp", INDEXED | STORED);
    let body_field = schema_builder.add_text_field("body", TEXT | STORED);
    let schema = schema_builder.build();
    Fixture { index: Index::create_in_ram(schema), timestamp_field, body_field }
}

impl Fixture {
    fn writer(&self) -> IndexWriter {
        self.index.writer_with_num_threads(1, 3_000_000).expect("a writer on a fresh index")
    }

    fn stage(&self, commit_timeout: u64) -> Indexer {
        Indexer::new(
            "test-index".to_string(),
            Some(self.timestamp_field.field_id()),
            commit_timeout,
        )
    }

    fn well_formed(&self, doc_json: &str, timestamp: i64) -> ParsedDoc {
        let mut doc = Document::new();
        doc.add_text(self.body_field, doc_json);
        doc.add_i64(self.timestamp_field, timestamp);
        ParsedDoc { doc_json: doc_json.to_string(), parsed: Some(doc) }
    }

    fn without_timestamp(&self, doc_json: &str) -> ParsedDoc {
        let mut doc = Document::new();
        doc.add_text(self.body_field, doc_json);
        ParsedDoc { doc_json: doc_json.to_string(), parsed: Some(doc) }
    }
}

fn malformed(doc_json: &str) -> ParsedDoc {
    ParsedDoc { doc_json: doc_json.to_string(), parsed: None }
}

fn started(fixture: &Fixture, commit_timeout: u64, now: u64) -> Indexer {
    let mut stage = fixture.stage(commit_timeout);
    assert!(stage.start_split(fixture.writer(), now).is_ok());
    stage
}

fn split_of(stage: &Indexer) -> SplitStatistics {
    stage.split_statistics().expect("a split in progress")
}

#[test]
fn new_stage_is_idle_and_has_counted_nothing() {
    let fixture = new_fixture();
    let stage = fixture.stage(10);
    assert!(stage.is_idle());
    assert_eq!(stage.timestamp_field(), Some(fixture.timestamp_field.field_id()));
    assert_eq!(stage.split_statistics(), None);
    assert_eq!(stage.next_commit_deadline(), None);
    assert_eq!(stage.observable_state(), IndexerCounters { parse_error: 0, docs: 0 });
    assert_eq!(IndexerCounters::default(), IndexerCounters { parse_error: 0, docs: 0 });
}

#[test]
fn starting_a_split_arms_the_deadline() {
    let fixture = new_fixture();
    let mut stage = fixture.stage(25);
    assert!(stage.start_split(fixture.writer(), 100).is_ok());
    assert!(!stage.is_idle());
    assert_eq!(stage.next_commit_deadline(), Some(125));
    assert_eq!(split_of(&stage), SplitStatistics { size_in_bytes: 0, time_range: None });
    let split = stage.flush().expect("the split in progress");
    assert_eq!(split.index_id, "test-index");
    assert_eq!(split.statistics(), SplitStatistics { size_in_bytes: 0, time_range: None });
}

#[test]
fn deadline_does_not_wrap() {
    let fixture = new_fixture();
    let mut stage = fixture.stage(u64::MAX);
    assert!(stage.start_split(fixture.writer(), u64::MAX).is_ok());
    assert_eq!(stage.next_commit_deadline(), Some(2 * (u64::MAX as u128)));
    assert!(!stage.commit_due(u64::MAX));
    assert!(stage.flush_if_due(u64::MAX).is_none());
    assert!(!stage.is_idle());
}

#[test]
fn starting_a_second_split_gives_the_writer_back() {
    let fixture = new_fixture();
    let mut stage = started(&fixture, 10, 0);
    let batch = ParsedDocBatch { docs: vec![fixture.well_formed("{\"n\": 1}", 3)] };
    assert!(stage.process_message(batch).is_ok());
    let other = new_fixture();
    assert!(stage.start_split(other.writer(), 50).is_err());
    assert_eq!(stage.next_commit_deadline(), Some(10));
    assert_eq!(split_of(&stage).size_in_bytes, 8);
    assert_eq!(split_of(&stage).time_range, Some(TimeRange { start: 3, end: 3 }));
}

#[test]
fn well_formed_batch_counts_every_document() {
    let fixture = new_fixture();
    let mut stage = started(&fixture, 10, 0);
    let batch = ParsedDocBatch {
        docs: vec![
            fixture.well_formed("a", 1),
            fixture.well_formed("bb", 2),
            fixture.well_formed("ccc", 3),
            fixture.without_timestamp("dddd"),
        ],
    };
    assert!(stage.process_message(batch).is_ok());
    assert_eq!(stage.observable_state(), IndexerCounters { parse_error: 0, docs: 4 });
    assert_eq!(split_of(&stage).size_in_bytes, 10);
}

#[test]
fn malformed_documents_are_counted_and_sized() {
    let fixture = new_fixture();
    let mut stage = started(&fixture, 10, 0);
    let batch = ParsedDocBatch {
        docs: vec![
            malformed("{{{"),
            fixture.well_formed("{\"ok\": 1}", 40),
            malformed("not json"),
            fixture.well_formed("{\"ok\": 2}", 41),
            malformed(""),
        ],
    };
    assert!(stage.process_message(batch).is_ok());
    assert_eq!(stage.observable_state(), IndexerCounters { parse_error: 3, docs: 2 });
    assert_eq!(split_of(&stage).size_in_bytes, 3 + 9 + 8 + 9);
    assert_eq!(split_of(&stage).time_range, Some(TimeRange { start: 40, end: 41 }));
}

#[test]
fn counters_add_up_over_batches() {
    let fixture = new_fixture();
    let mut stage = started(&fixture, 10, 0);
    let first = ParsedDocBatch { docs: vec![malformed("x"), fixture.well_formed("yy", 5)] };
    let second = ParsedDocBatch { docs: vec![fixture.well_formed("zzz", -5), malformed("wwww")] };
    assert!(stage.process_message(first).is_ok());
    assert!(stage.process_message(second).is_ok());
    assert_eq!(stage.observable_state(), IndexerCounters { parse_error: 2, docs: 2 });
    assert_eq!(split_of(&stage).size_in_bytes, 10);
    assert_eq!(split_of(&stage).time_range, Some(TimeRange { start: -5, end: 5 }));
}

#[test]
fn size_is_counted_in_bytes() {
    let fixture = new_fixture();
    let mut stage = started(&fixture, 10, 0);
    let batch = ParsedDocBatch { docs: vec![malformed("h\u{e9}llo \u{4e16}\u{754c}")] };
    assert!(stage.process_message(batch).is_ok());
    assert_eq!(split_of(&stage).size_in_bytes, 13);
    assert_eq!(malformed("h\u{e9}").size_in_bytes(), 3);
}

#[test]
fn empty_batch_changes_nothing() {
    let fixture = new_fixture();
    let mut stage = started(&fixture, 10, 4);
    assert!(stage.process_message(ParsedDocBatch { docs: Vec::new() }).is_ok());
    assert_eq!(stage.observable_state(), IndexerCounters { parse_error: 0, docs: 0 });
    assert_eq!(split_of(&stage).size_in_bytes, 0);
    assert_eq!(split_of(&stage).time_range, None);
    assert_eq!(stage.next_commit_deadline(), Some(14));
}

fn range_after(timestamps: &[i64]) -> Option<TimeRange> {
    let fixture = new_fixture();
    let mut stage = started(&fixture, 10, 0);
    let docs = timestamps.iter().map(|timestamp| fixture.well_formed("{}", *timestamp)).collect();
    assert!(stage.process_message(ParsedDocBatch { docs }).is_ok());
    split_of(&stage).time_range
}

#[test]
fn time_range_is_min_and_max_in_any_order() {
    let expected = Some(TimeRange { start: -7, end: 12 });
    assert_eq!(range_after(&[3, -7, 12, 0]), expected);
    assert_eq!(range_after(&[12, 0, 3, -7]), expected);
    assert_eq!(range_after(&[-7, 0, 3, 12]), expected);
    assert_eq!(range_after(&[12, 3, 0, -7]), expected);
    assert_eq!(range_after(&[4, 4, 4]), Some(TimeRange { start: 4, end: 4 }));
    assert_eq!(
        range_after(&[i64::MAX, i64::MIN]),
        Some(TimeRange { start: i64::MIN, end: i64::MAX })
    );
    assert_eq!(range_after(&[]), None);
}

#[test]
fn time_range_never_narrows() {
    let fixture = new_fixture();
    let mut stage = started(&fixture, 10, 0);
    let wide = ParsedDocBatch {
        docs: vec![fixture.well_formed("a", 10), fixture.well_formed("b", 20)],
    };
    assert!(stage.process_message(wide).is_ok());
    let inside = ParsedDocBatch {
        docs: vec![fixture.well_formed("c", 15), fixture.without_timestamp("d"), malformed("e")],
    };
    assert!(stage.process_message(inside).is_ok());
    assert_eq!(split_of(&stage).time_range, Some(TimeRange { start: 10, end: 20 }));
}

#[test]
fn documents_without_a_timestamp_leave_the_range_alone() {
    let fixture = new_fixture();
    let mut stage = started(&fixture, 10, 0);
    let batch = ParsedDocBatch { docs: vec![fixture.without_timestamp("a"), malformed("b")] };
    assert!(stage.process_message(batch).is_ok());
    assert_eq!(split_of(&stage).time_range, None);
    assert_eq!(stage.observable_state(), IndexerCounters { parse_error: 1, docs: 1 });
}

#[test]
fn stage_without_timestamp_field_records_no_range() {
    let fixture = new_fixture();
    let mut stage = Indexer::new("test-index".to_string(), None, 10);
    assert!(stage.start_split(fixture.writer(), 0).is_ok());
    let batch = ParsedDocBatch { docs: vec![fixture.well_formed("a", 10)] };
    assert!(stage.process_message(batch).is_ok());
    assert_eq!(split_of(&stage).time_range, None);
    assert_eq!(stage.observable_state(), IndexerCounters { parse_error: 0, docs: 1 });
}

#[test]
fn idle_stage_refuses_documents() {
    let fixture = new_fixture();
    let mut stage = fixture.stage(10);
    let batch = ParsedDocBatch { docs: vec![fixture.well_formed("a", 1), malformed("b")] };
    assert!(matches!(stage.process_message(batch), Err(IndexerError::NoIndexWriter)));
    assert!(stage.is_idle());
    assert_eq!(stage.next_commit_deadline(), None);
    assert_eq!(stage.observable_state(), IndexerCounters { parse_error: 0, docs: 0 });
    let batch = ParsedDocBatch { docs: vec![malformed("b")] };
    assert!(matches!(stage.process_message(batch), Err(IndexerError::NoIndexWriter)));
    assert_eq!(stage.observable_state(), IndexerCounters { parse_error: 0, docs: 0 });
}

#[test]
fn idle_stage_takes_an_empty_batch_and_stays_idle() {
    let fixture = new_fixture();
    let mut stage = fixture.stage(0);
    assert!(!stage.needs_split(&RawDocBatch { docs: Vec::new() }));
    assert!(stage.process_message(ParsedDocBatch { docs: Vec::new() }).is_ok());
    assert!(stage.is_idle());
    assert_eq!(stage.split_statistics(), None);
    assert_eq!(stage.next_commit_deadline(), None);
    assert_eq!(stage.observable_state(), IndexerCounters { parse_error: 0, docs: 0 });
    assert!(stage.flush_if_due(u64::MAX).is_none());
    assert!(stage.is_idle());
}

#[test]
fn split_is_needed_for_the_first_document_of_a_cycle() {
    let fixture = new_fixture();
    let mut stage = fixture.stage(5);
    let empty = RawDocBatch { docs: Vec::new() };
    let one = RawDocBatch { docs: vec!["{}".to_string()] };
    let two = RawDocBatch { docs: vec!["{}".to_string(), "not json".to_string()] };
    assert!(!stage.needs_split(&empty));
    assert!(stage.needs_split(&one));
    assert!(stage.needs_split(&two));
    assert!(stage.start_split(fixture.writer(), 0).is_ok());
    assert!(!stage.needs_split(&empty));
    assert!(!stage.needs_split(&one));
    assert!(!stage.needs_split(&two));
    drop(stage.flush());
    assert!(!stage.needs_split(&empty));
    assert!(stage.needs_split(&one));
}

#[test]
fn flush_without_split_is_a_no_op() {
    let fixture = new_fixture();
    let mut stage = fixture.stage(0);
    assert!(stage.flush().is_none());
    assert!(stage.flush_if_due(u64::MAX).is_none());
    assert!(!stage.commit_due(u64::MAX));
    assert!(stage.is_idle());
    assert_eq!(stage.next_commit_deadline(), None);
    assert_eq!(stage.observable_state(), IndexerCounters { parse_error: 0, docs: 0 });
}

#[test]
fn split_after_flush_is_brand_new() {
    let fixture = new_fixture();
    let mut stage = started(&fixture, 5, 0);
    let batch = ParsedDocBatch { docs: vec![fixture.well_formed("abc", 9), malformed("de")] };
    assert!(stage.process_message(batch).is_ok());
    let flushed = stage.flush().expect("the split in progress");
    assert_eq!(flushed.size_in_bytes, 5);
    assert_eq!(flushed.time_range, Some(TimeRange { start: 9, end: 9 }));
    assert_eq!(flushed.index_id, "test-index");
    assert!(stage.is_idle());
    assert_eq!(stage.next_commit_deadline(), None);
    drop(flushed);

    assert!(stage.start_split(fixture.writer(), 30).is_ok());
    assert_eq!(split_of(&stage).size_in_bytes, 0);
    assert_eq!(split_of(&stage).time_range, None);
    assert_eq!(stage.next_commit_deadline(), Some(35));
    let batch = ParsedDocBatch { docs: vec![fixture.well_formed("f", 2)] };
    assert!(stage.process_message(batch).is_ok());
    assert_eq!(split_of(&stage).size_in_bytes, 1);
    assert_eq!(split_of(&stage).time_range, Some(TimeRange { start: 2, end: 2 }));
    assert_eq!(stage.observable_state(), IndexerCounters { parse_error: 1, docs: 2 });
}

#[test]
fn split_is_due_from_its_deadline_on() {
    let fixture = new_fixture();
    let mut stage = started(&fixture, 10, 100);
    assert!(!stage.commit_due(0));
    assert!(!stage.commit_due(109));
    assert!(stage.commit_due(110));
    assert!(stage.commit_due(111));
    assert!(stage.flush_if_due(109).is_none());
    assert!(!stage.is_idle());
    assert!(stage.flush_if_due(110).is_some());
    assert!(stage.is_idle());
    assert!(!stage.commit_due(111));
}

#[test]
fn elapsed_timeout_flushes_within_the_batch() {
    let fixture = new_fixture();
    let mut stage = fixture.stage(0);
    let now = 42;
    assert!(stage.start_split(fixture.writer(), now).is_ok());
    let batch = ParsedDocBatch {
        docs: vec![
            fixture.well_formed("{\"t\": 5}", 5),
            fixture.well_formed("{\"t\": 1}", 1),
            fixture.well_formed("{\"t\": 9}", 9),
        ],
    };
    assert!(stage.process_message(batch).is_ok());
    let mut split = stage.flush_if_due(now).expect("the split is due");
    assert_eq!(split.time_range, Some(TimeRange { start: 1, end: 9 }));
    assert_eq!(split.size_in_bytes, 24);
    assert_eq!(stage.observable_state(), IndexerCounters { parse_error: 0, docs: 3 });
    assert!(stage.is_idle());
    assert_eq!(stage.next_commit_deadline(), None);
    assert_eq!(stage.split_statistics(), None);

    split.index_writer.commit().expect("a commit of the handed-over writer");
    let reader = fixture.index.reader().expect("a reader");
    assert_eq!(reader.searcher().num_docs(), 3);
}

#[test]
fn malformed_then_well_formed_before_the_deadline() {
    let fixture = new_fixture();
    let mut stage = fixture.stage(1_000);
    assert!(stage.start_split(fixture.writer(), 0).is_ok());
    let batch = ParsedDocBatch {
        docs: vec![malformed("{oops"), fixture.well_formed("{\"t\": 7}", 7)],
    };
    assert!(stage.process_message(batch).is_ok());
    assert!(stage.flush_if_due(999).is_none());
    assert_eq!(stage.observable_state(), IndexerCounters { parse_error: 1, docs: 1 });
    assert!(!stage.is_idle());
    let split = split_of(&stage);
    assert_eq!(split.time_range, Some(TimeRange { start: 7, end: 7 }));
    assert_eq!(split.size_in_bytes, 5 + 8);
}

#[test]
fn closed_sink_is_a_failure_that_keeps_the_split() {
    let fixture = new_fixture();
    let mut stage = started(&fixture, 0, 0);
    let batch = ParsedDocBatch { docs: vec![fixture.well_formed("abcd", 11)] };
    assert!(stage.process_message(batch).is_ok());
    let split = stage.flush_if_due(0).expect("the split is due");

    let (sink, packager) = std::sync::mpsc::sync_channel::<IndexedSplit>(1);
    drop(packager);
    let outcome = sink.send(split).map_err(|refused| refused.0);
    match Indexer::sent_to_packager(outcome) {
        Err(IndexerError::SinkClosed(split)) => {
            assert_eq!(split.size_in_bytes, 4);
            assert_eq!(split.time_range, Some(TimeRange { start: 11, end: 11 }));
            assert_eq!(split.index_id, "test-index");
        }
        _ => panic!("a closed sink must be reported"),
    }
    assert!(stage.is_idle());
}

#[test]
fn open_sink_takes_the_split() {
    let fixture = new_fixture();
    let mut stage = started(&fixture, 0, 0);
    let split = stage.flush().expect("the split in progress");
    let (sink, packager) = std::sync::mpsc::sync_channel::<IndexedSplit>(1);
    let outcome = sink.send(split).map_err(|refused| refused.0);
    assert!(Indexer::sent_to_packager(outcome).is_ok());
    assert_eq!(packager.recv().expect("the split").size_in_bytes, 0);
}

#[test]
fn accepted_document_is_counted() {
    let fixture = new_fixture();
    let mut stage = started(&fixture, 10, 0);
    assert!(stage.record_append(0, Ok(17)).is_ok());
    assert_eq!(stage.observable_state(), IndexerCounters { parse_error: 0, docs: 1 });
}

#[test]
fn refused_document_is_reported_and_not_counted() {
    let fixture = new_fixture();
    let mut stage = started(&fixture, 10, 0);
    let refusal = TantivyError::ErrorInThread("the writer was killed".to_string());
    match stage.record_append(3, Err(refusal)) {
        Err(IndexerError::Writer { doc_index, error }) => {
            assert_eq!(doc_index, 3);
            assert!(matches!(error, TantivyError::ErrorInThread(_)));
        }
        _ => panic!("a refused document must be reported"),
    }
    assert_eq!(stage.observable_state(), IndexerCounters { parse_error: 0, docs: 0 });
    assert!(!stage.is_idle());
}

#[test]
fn fresh_split_carries_the_index_id() {
    let fixture = new_fixture();
    let stage = fixture.stage(10);
    let split = stage.create_indexed_split(fixture.writer());
    assert_eq!(split.index_id, "test-index");
    assert_eq!(split.size_in_bytes, 0);
    assert_eq!(split.time_range, None);
    assert!(stage.is_idle());
    let other = new_fixture();
    let split = IndexedSplit::new("other".to_string(), other.writer());
    assert_eq!(split.index_id, "other");
    assert_eq!(split.size_in_bytes, 0);
    assert_eq!(split.time_range, None);
}

#[test]
fn routed_document_grows_the_split() {
    let fixture = new_fixture();
    let mut stage = started(&fixture, 10, 0);
    stage.route_doc(12, true, Some(-2));
    assert_eq!(split_of(&stage).size_in_bytes, 12);
    assert_eq!(split_of(&stage).time_range, Some(TimeRange { start: -2, end: -2 }));
    assert_eq!(stage.observable_state(), IndexerCounters { parse_error: 0, docs: 0 });
    stage.route_doc(3, true, None);
    assert_eq!(split_of(&stage).size_in_bytes, 15);
    assert_eq!(split_of(&stage).time_range, Some(TimeRange { start: -2, end: -2 }));
    stage.route_doc(5, false, Some(100));
    assert_eq!(split_of(&stage).size_in_bytes, 20);
    assert_eq!(split_of(&stage).time_range, Some(TimeRange { start: -2, end: -2 }));
    assert_eq!(stage.observable_state(), IndexerCounters { parse_error: 1, docs: 0 });
}

#[test]
fn idle_stage_routes_nothing() {
    let fixture = new_fixture();
    let mut stage = fixture.stage(10);
    stage.route_doc(12, true, Some(1));
    stage.route_doc(12, false, None);
    assert!(stage.is_idle());
    assert_eq!(stage.observable_state(), IndexerCounters { parse_error: 0, docs: 0 });
}

#[test]
fn room_is_checked_against_the_counters_and_the_split() {
    let fixture = new_fixture();
    let mut stage = started(&fixture, 10, 0);
    let two = || ParsedDocBatch { docs: vec![malformed("abc"), malformed("de")] };
    assert!(stage.check_room_for(&two()));
    stage.route_doc(u64::MAX - 5, true, None);
    assert!(stage.check_room_for(&two()));
    stage.route_doc(1, true, None);
    assert!(!stage.check_room_for(&two()));
    assert!(stage.check_room_for(&ParsedDocBatch { docs: vec![malformed("abc")] }));
    assert!(stage.check_room_for(&ParsedDocBatch { docs: Vec::new() }));
    drop(stage.flush());
    assert!(stage.check_room_for(&two()));
}

#[test]
fn killed_writer_ends_the_batch_at_the_refused_document() {
    let fixture = new_fixture();
    let mut stage = started(&fixture, 10, 0);
    // The writer takes this document and its thread gives up on it later:
    // the timestamp field wants an integer.
    let mut unindexable = Document::new();
    unindexable.add_text(fixture.timestamp_field, "not a number");
    let doc = ParsedDoc { doc_json: "{}".to_string(), parsed: Some(unindexable) };
    assert!(stage.process_message(ParsedDocBatch { docs: vec![doc] }).is_ok());
    assert_eq!(stage.observable_state(), IndexerCounters { parse_error: 0, docs: 1 });
    assert_eq!(split_of(&stage), SplitStatistics { size_in_bytes: 2, time_range: None });

    let started_at = Instant::now();
    loop {
        let counters = stage.observable_state();
        let statistics = split_of(&stage);
        let batch = ParsedDocBatch { docs: vec![malformed("ab"), fixture.well_formed("cde", 4)] };
        match stage.process_message(batch) {
            Ok(()) => {
                assert!(started_at.elapsed() < Duration::from_secs(10), "the writer lives on");
                std::hint::spin_loop();
            }
            Err(IndexerError::Writer { doc_index, error }) => {
                assert_eq!(doc_index, 1);
                assert!(matches!(error, TantivyError::ErrorInThread(_)));
                assert_eq!(
                    stage.observable_state(),
                    IndexerCounters { parse_error: counters.parse_error + 1, docs: counters.docs }
                );
                assert_eq!(
                    split_of(&stage),
                    SplitStatistics {
                        size_in_bytes: statistics.size_in_bytes + 2 + 3,
                        time_range: Some(TimeRange { start: 4, end: 4 }),
                    }
                );
                assert!(!stage.is_idle());
                break;
            }
            Err(_) => panic!("the writer's refusal must be reported as such"),
        }
    }
}
