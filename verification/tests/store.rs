use diagnostic_logs::json::Json;
use diagnostic_logs::payload::{decode_payload, encode_payload, EncodedPayload};
use diagnostic_logs::records::{
    BeginTrace, CompleteTrace, RuntimeLogInput, TraceEventInput, WriteCommand,
};
use diagnostic_logs::redact::RedactionPatterns;
use diagnostic_logs::store::{prepare, Outcome, StoreError};
use diagnostic_logs::tables::LogStore;

fn patterns() -> RedactionPatterns {
    RedactionPatterns::new().expect("valid redaction patterns")
}

fn begin(id: &str) -> WriteCommand {
    WriteCommand::Begin {
        trace_id: id.to_string(),
        input: BeginTrace {
            app_type: "codex".to_string(),
            method: "POST".to_string(),
            path: "/v1/responses".to_string(),
            request_model: Some("m1".to_string()),
            provider_id: Some("p1".to_string()),
            is_streaming: true,
            headers: Json::Object(vec![("accept".to_string(), Json::Str("x".to_string()))]),
            body: Json::Null,
        },
    }
}

fn step(id: &str, attempt_no: Option<u32>, payload: Option<Json>) -> WriteCommand {
    WriteCommand::Event(TraceEventInput {
        trace_id: id.to_string(),
        offset_ms: 7,
        stage: "upstream_attempt".to_string(),
        kind: "request".to_string(),
        attempt_no,
        provider_id: Some("p2".to_string()),
        status_code: Some(200),
        summary: Some("abcd".to_string()),
        payload,
    })
}

fn complete(id: &str, dropped: u64) -> WriteCommand {
    WriteCommand::Complete(CompleteTrace {
        trace_id: id.to_string(),
        usage_request_id: Some("u1".to_string()),
        response_model: None,
        final_provider_id: None,
        status_code: Some(502),
        duration_ms: 12,
        outcome: "error".to_string(),
        dropped_event_count: dropped,
    })
}

fn message(text: &str) -> WriteCommand {
    WriteCommand::Runtime(RuntimeLogInput {
        occurred_at: 5,
        level: "warn".to_string(),
        target: "app".to_string(),
        message: text.to_string(),
        fields: Some(Json::Array(vec![Json::Bool(true)])),
    })
}

fn plain(at: i64) -> Outcome {
    Outcome { at, event_at: at + 1, reply: None, fields: None }
}

fn with_payload(at: i64, value: &Json) -> Outcome {
    Outcome {
        at,
        event_at: at + 1,
        reply: Some(encode_payload(&patterns(), value)),
        fields: None,
    }
}

#[test]
fn a_batch_is_written() {
    let mut store = LogStore::new();
    let batch = vec![
        begin("t1"),
        step("t1", Some(2), Some(Json::Bool(true))),
        step("t1", Some(1), None),
        complete("t1", 3),
        message("hello"),
    ];
    assert_eq!(store.write_batch(&patterns(), &batch), Ok(()));
    assert_eq!(store.traces.len(), 1);
    let trace = &store.traces[0];
    assert_eq!(trace.trace_id, "t1");
    assert_eq!(trace.app_type, "codex");
    assert_eq!(trace.is_streaming, 1);
    assert_eq!(trace.attempt_count, 2);
    assert_eq!(trace.outcome, "error");
    assert_eq!(trace.status_code, Some(502));
    assert_eq!(trace.usage_request_id.as_deref(), Some("u1"));
    assert_eq!(trace.response_model, None);
    assert_eq!(trace.final_provider_id.as_deref(), Some("p1"));
    assert_eq!(trace.duration_ms, Some(12));
    assert_eq!(trace.partial, 1);
    assert_eq!(trace.dropped_event_count, 3);
    assert!(trace.started_at > 0);
    assert!(trace.completed_at.is_some());

    let sequences: Vec<i64> = store.events.iter().map(|event| event.sequence).collect();
    assert_eq!(sequences, vec![1, 2, 3, 4]);
    assert_eq!(store.events[0].stage, "client_request");
    assert_eq!(store.events[0].summary.as_deref(), Some("Client request received"));
    assert_eq!(store.events[3].stage, "complete");
    assert_eq!(store.events[3].kind, "error");
    assert_eq!(store.events[3].summary.as_deref(), Some("Request error"));
    assert_eq!(store.events[0].payload_id, Some(1));
    assert_eq!(store.events[1].payload_id, Some(2));
    assert_eq!(store.events[2].payload_id, None);

    assert_eq!(store.payloads[0].body, b"{\"body\":null,\"headers\":{\"accept\":\"x\"}}".to_vec());
    assert_eq!(store.payloads[0].content_type, "application/json");
    assert_eq!(store.payloads[1].body, b"true".to_vec());

    assert_eq!(store.runtime_logs[0].message, "hello");
    assert_eq!(store.runtime_logs[0].fields_json.as_deref(), Some("[true]"));
    assert_eq!(store.runtime_logs[0].stored_bytes, 5 + 3 + 6);
    assert_eq!((store.last_event_id, store.last_payload_id, store.last_log_id), (4, 2, 1));
}

#[test]
fn the_bytes_of_a_request_are_those_of_its_steps() {
    let mut store = LogStore::new();
    let batch = vec![begin("t1"), step("t1", None, Some(Json::Bool(true))), complete("t1", 0)];
    assert_eq!(store.write_batch(&patterns(), &batch), Ok(()));
    let summaries: usize = store
        .events
        .iter()
        .map(|event| event.summary.as_ref().map(String::len).unwrap_or(0))
        .sum();
    let payloads: i64 = store.payloads.iter().map(|payload| payload.stored_bytes).sum();
    assert_eq!(store.traces[0].stored_bytes, summaries as i64 + payloads);
    assert_eq!(store.traces[0].stored_bytes, 23 + 38 + 4 + 4 + 13);
    assert_eq!(store.traces[0].partial, 0);
}

#[test]
fn steps_of_unknown_requests_are_passed_over() {
    let mut store = LogStore::new();
    let batch = vec![step("t9", Some(1), Some(Json::Null)), complete("t9", 1)];
    assert_eq!(store.write_batch(&patterns(), &batch), Ok(()));
    assert!(store.traces.is_empty());
    assert!(store.events.is_empty());
    assert!(store.payloads.is_empty());
}

#[test]
fn a_request_that_begins_again_keeps_its_row() {
    let mut store = LogStore::new();
    let batch = vec![begin("t1"), begin("t1")];
    let value = Json::Null;
    let outcomes = vec![with_payload(10, &value), with_payload(20, &value)];
    assert_eq!(store.apply_batch(&batch, &outcomes), Ok(()));
    assert_eq!(store.traces.len(), 1);
    assert_eq!(store.traces[0].started_at, 10);
    assert_eq!(store.events.len(), 2);
    assert_eq!(store.events[1].occurred_at, 21);
}

#[test]
fn requests_are_numbered_apart() {
    let mut store = LogStore::new();
    let batch = vec![begin("a"), begin("b"), step("a", None, None), step("b", None, None)];
    assert_eq!(store.write_batch(&patterns(), &batch), Ok(()));
    let numbers: Vec<(String, i64)> = store
        .events
        .iter()
        .map(|event| (event.trace_id.clone(), event.sequence))
        .collect();
    assert_eq!(
        numbers,
        vec![
            ("a".to_string(), 1),
            ("b".to_string(), 1),
            ("a".to_string(), 2),
            ("b".to_string(), 2)
        ]
    );
}

#[test]
fn dropped_steps_add_up_and_leave_a_mark() {
    let mut store = LogStore::new();
    let batch = vec![begin("t1"), complete("t1", 2), complete("t1", 0), complete("t1", 5)];
    assert_eq!(store.write_batch(&patterns(), &batch), Ok(()));
    assert_eq!(store.traces[0].dropped_event_count, 7);
    assert_eq!(store.traces[0].partial, 1);
}

#[test]
fn cutting_into_batches_makes_no_difference() {
    let commands = || vec![begin("t1"), step("t1", Some(1), None), message("x"), complete("t1", 1)];
    let outcomes = || {
        vec![with_payload(1, &Json::Null), plain(2), plain(3), plain(4)]
    };
    let mut whole = LogStore::new();
    assert_eq!(whole.apply_batch(&commands(), &outcomes()), Ok(()));
    let mut parts = LogStore::new();
    for (command, outcome) in commands().into_iter().zip(outcomes()) {
        assert_eq!(parts.apply_batch(&vec![command], &vec![outcome]), Ok(()));
    }
    assert_eq!(whole.events.len(), parts.events.len());
    assert_eq!(whole.traces[0].stored_bytes, parts.traces[0].stored_bytes);
    assert_eq!(whole.traces[0].completed_at, parts.traces[0].completed_at);
    assert_eq!(whole.events[2].occurred_at, parts.events[2].occurred_at);
}

#[test]
fn a_part_of_the_log_is_enough() {
    let mut whole = LogStore::new();
    let first = vec![begin("a"), begin("b"), message("x")];
    assert_eq!(whole.write_batch(&patterns(), &first), Ok(()));
    let mut part = whole.clone();
    part.traces.retain(|row| row.trace_id == "a");
    part.events.retain(|row| row.trace_id == "a");
    part.payloads.clear();
    part.runtime_logs.clear();
    let next = vec![step("a", Some(4), None)];
    assert_eq!(whole.apply_batch(&next, &vec![plain(9)]), Ok(()));
    assert_eq!(part.apply_batch(&next, &vec![plain(9)]), Ok(()));
    let added = &whole.events[whole.events.len() - 1];
    let same = &part.events[part.events.len() - 1];
    assert_eq!((added.event_id, added.sequence), (same.event_id, same.sequence));
    assert_eq!(whole.traces[0].attempt_count, part.traces[0].attempt_count);
    assert_eq!(whole.traces[0].stored_bytes, part.traces[0].stored_bytes);
}

#[test]
fn a_batch_that_fails_changes_nothing() {
    let mut store = LogStore::new();
    assert_eq!(store.write_batch(&patterns(), &vec![begin("t1")]), Ok(()));
    store.last_log_id = i64::MAX;
    let before = store.clone();
    let result = store.write_batch(&patterns(), &vec![complete("t1", 1), message("x")]);
    assert_eq!(result, Err(StoreError::Full));
    assert_eq!(store.events.len(), before.events.len());
    assert_eq!(store.traces[0].outcome, "in_progress");
    assert_eq!(store.last_event_id, before.last_event_id);
}

#[test]
fn identifiers_run_out() {
    let mut store = LogStore::new();
    assert_eq!(store.write_batch(&patterns(), &vec![begin("t1")]), Ok(()));
    let mut events = store.clone();
    events.last_event_id = i64::MAX;
    assert_eq!(
        events.apply_batch(&vec![step("t1", None, None)], &vec![plain(1)]),
        Err(StoreError::Full)
    );
    let mut payloads = store.clone();
    payloads.last_payload_id = i64::MAX;
    assert_eq!(
        payloads.apply_batch(
            &vec![step("t1", None, None)],
            &vec![with_payload(1, &Json::Null)]
        ),
        Err(StoreError::Full)
    );
}

#[test]
fn steps_are_stored_one_by_one() {
    let mut store = LogStore::new();
    assert_eq!(store.write_batch(&patterns(), &vec![begin("a"), begin("b")]), Ok(()));
    for expected in 2..6 {
        if let WriteCommand::Event(event) = step("a", None, Some(Json::Bool(true))) {
            let reply = Some(encode_payload(&patterns(), &Json::Bool(true)));
            assert_eq!(store.insert_event(&event, &reply, 7), Ok(()));
        }
        let last = &store.events[store.events.len() - 1];
        assert_eq!((last.trace_id.as_str(), last.sequence), ("a", expected));
    }
    let payloads = store.payloads.len();
    store.last_event_id = i64::MAX;
    if let WriteCommand::Event(event) = step("a", None, None) {
        let reply = Some(encode_payload(&patterns(), &Json::Null));
        assert_eq!(store.insert_event(&event, &reply, 7), Err(StoreError::Full));
    }
    assert_eq!(store.payloads.len(), payloads);
    assert_eq!(store.last_payload_id, payloads as i64);
}

#[test]
fn a_stored_payload_is_read_back() {
    let mut store = LogStore::new();
    for value in [Json::Bool(true), Json::Str("some words ".repeat(900))] {
        let stored = encode_payload(&patterns(), &value).expect("stored");
        let (id, bytes) = store.insert_payload(&stored).expect("inserted");
        let row = &store.payloads[store.payloads.len() - 1];
        assert_eq!((row.payload_id, row.stored_bytes), (id, bytes));
        assert_eq!(decode_payload(&row.encoding, &row.body), Some(value));
    }
    let encodings: Vec<&str> = store.payloads.iter().map(|row| row.encoding.as_str()).collect();
    assert_eq!(encodings, ["identity", "zstd"]);
}

#[test]
fn numbers_out_of_range_are_errors() {
    let mut store = LogStore::new();
    assert_eq!(store.write_batch(&patterns(), &vec![begin("t1")]), Ok(()));
    let mut sequence = store.clone();
    sequence.events[0].sequence = i64::MAX;
    assert_eq!(
        sequence.apply_batch(&vec![step("t1", None, None)], &vec![plain(1)]),
        Err(StoreError::Overflow)
    );
    let mut bytes = store.clone();
    bytes.traces[0].stored_bytes = i64::MAX;
    assert_eq!(
        bytes.apply_batch(&vec![step("t1", None, None)], &vec![plain(1)]),
        Err(StoreError::Overflow)
    );
    let mut dropped = store.clone();
    dropped.traces[0].dropped_event_count = i64::MAX;
    assert_eq!(
        dropped.apply_batch(&vec![complete("t1", 1)], &vec![plain(1)]),
        Err(StoreError::Overflow)
    );
}

#[test]
fn a_payload_without_text_is_an_error() {
    let mut store = LogStore::new();
    assert_eq!(store.write_batch(&patterns(), &vec![begin("t1")]), Ok(()));
    let failed: Option<Option<EncodedPayload<String, Vec<u8>>>> = Some(None);
    let outcome = Outcome { at: 1, event_at: 1, reply: failed, fields: None };
    assert_eq!(
        store.apply_batch(&vec![step("t1", None, None)], &vec![outcome]),
        Err(StoreError::Json)
    );
}

#[test]
fn errors_have_words() {
    assert_eq!(StoreError::Json.message(), "value cannot be written as JSON");
    assert_eq!(StoreError::Full.message(), "database or disk is full");
    assert_eq!(StoreError::Overflow.message(), "integer overflow");
}

#[test]
fn commands_are_prepared() {
    let patterns = patterns();
    let outcome = prepare(&patterns, &message("x"));
    assert!(outcome.at > 0 && outcome.event_at >= outcome.at);
    assert_eq!(outcome.fields.as_deref(), Some("[true]"));
    assert!(outcome.reply.is_none());
    let outcome = prepare(&patterns, &step("t", None, Some(Json::Null)));
    assert_eq!(outcome.reply.expect("payload").expect("stored").body, b"null".to_vec());
    assert!(prepare(&patterns, &complete("t", 0)).reply.is_none());
}

#[test]
fn commands_name_their_request() {
    assert_eq!(begin("t1").trace_id(), Some("t1"));
    assert_eq!(step("t2", None, None).trace_id(), Some("t2"));
    assert_eq!(complete("t3", 0).trace_id(), Some("t3"));
    assert_eq!(message("x").trace_id(), None);
}
