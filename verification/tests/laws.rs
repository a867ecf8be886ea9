use diagnostic_logs::json::Json;
use diagnostic_logs::payload::encode_payload;
use diagnostic_logs::records::{
    BeginTrace, CompleteTrace, RuntimeLogInput, TraceEventInput, TraceQuery, WriteCommand,
};
use diagnostic_logs::redact::RedactionPatterns;
use diagnostic_logs::service::DiagnosticLogService;
use diagnostic_logs::store::Outcome;
use diagnostic_logs::tables::LogStore;
use std::collections::BTreeSet;

const DAY: i64 = 24 * 60 * 60 * 1000;

fn patterns() -> RedactionPatterns {
    RedactionPatterns::new().expect("valid redaction patterns")
}

fn begin(id: &str) -> WriteCommand {
    WriteCommand::Begin {
        trace_id: id.to_string(),
        input: BeginTrace {
            app_type: "codex".to_string(),
            method: "GET".to_string(),
            path: "/v1/models".to_string(),
            request_model: Some("m".to_string()),
            provider_id: Some("p".to_string()),
            is_streaming: true,
            headers: Json::Object(Vec::new()),
            body: Json::Null,
        },
    }
}

fn step(id: &str, payload: Option<Json>) -> WriteCommand {
    WriteCommand::Event(TraceEventInput {
        trace_id: id.to_string(),
        offset_ms: 42,
        stage: "upstream_response".to_string(),
        kind: "response".to_string(),
        attempt_no: Some(3),
        provider_id: Some("p9".to_string()),
        status_code: Some(429),
        summary: Some("slow down".to_string()),
        payload,
    })
}

fn message(at: i64) -> WriteCommand {
    WriteCommand::Runtime(RuntimeLogInput {
        occurred_at: at,
        level: "info".to_string(),
        target: "t".to_string(),
        message: "m".to_string(),
        fields: None,
    })
}

fn outcome(at: i64, payload: Option<&Json>) -> Outcome {
    Outcome {
        at,
        event_at: at,
        reply: payload.map(|value| encode_payload(&patterns(), value)),
        fields: None,
    }
}

/// Two requests of different days, each with two steps, and two messages.
fn sample() -> LogStore {
    let mut store = LogStore::new();
    let payload = Json::Str("some text".to_string());
    let batch = vec![
        begin("a"),
        step("a", Some(payload.clone())),
        message(DAY),
        begin("b"),
        step("b", Some(payload.clone())),
        message(5 * DAY),
    ];
    let outcomes = vec![
        outcome(DAY, Some(&Json::Null)),
        outcome(DAY + 1, Some(&payload)),
        outcome(DAY, None),
        outcome(5 * DAY, Some(&Json::Null)),
        outcome(5 * DAY + 1, Some(&payload)),
        outcome(5 * DAY, None),
    ];
    assert_eq!(store.apply_batch(&batch, &outcomes), Ok(()));
    store
}

fn check_consistent(store: &LogStore) {
    let traces: BTreeSet<&str> = store.traces.iter().map(|row| row.trace_id.as_str()).collect();
    assert_eq!(traces.len(), store.traces.len());
    let payloads: BTreeSet<i64> = store.payloads.iter().map(|row| row.payload_id).collect();
    assert_eq!(payloads.len(), store.payloads.len());
    let mut numbers = BTreeSet::new();
    let mut used = BTreeSet::new();
    for event in &store.events {
        assert!(traces.contains(event.trace_id.as_str()));
        assert!(event.event_id <= store.last_event_id);
        assert!(numbers.insert((event.trace_id.clone(), event.sequence)));
        if let Some(id) = event.payload_id {
            assert!(payloads.contains(&id));
            used.insert(id);
        }
    }
    assert_eq!(used, payloads);
    let logs: BTreeSet<i64> = store.runtime_logs.iter().map(|row| row.log_id).collect();
    assert_eq!(logs.len(), store.runtime_logs.len());
}

fn check_accounts(store: &LogStore) {
    for trace in &store.traces {
        let mut bytes = 0;
        for event in store.events.iter().filter(|event| event.trace_id == trace.trace_id) {
            bytes += event.summary.as_ref().map(|text| text.len() as i64).unwrap_or(0);
            bytes += store
                .payloads
                .iter()
                .filter(|payload| Some(payload.payload_id) == event.payload_id)
                .map(|payload| payload.stored_bytes)
                .sum::<i64>();
        }
        assert_eq!(trace.stored_bytes, bytes);
    }
}

#[test]
fn writing_keeps_the_log_consistent_and_accounted() {
    let empty = LogStore::new();
    check_consistent(&empty);
    check_accounts(&empty);
    let store = sample();
    check_consistent(&store);
    check_accounts(&store);
}

#[test]
fn maintenance_keeps_the_log_consistent_and_accounted() {
    let mut store = sample();
    assert_eq!(store.maintain_at(6 * DAY), Ok(()));
    assert_eq!(store.traces.len(), 1);
    assert_eq!(store.runtime_logs.len(), 1);
    check_consistent(&store);
    check_accounts(&store);
}

#[test]
fn clearing_keeps_the_log_consistent_and_accounted() {
    let service = DiagnosticLogService::start("logs.db".to_string());
    for kind in ["requests", "runtime", "all"] {
        let mut store = sample();
        assert_eq!(service.clear(&mut store, kind), Ok(()));
        check_consistent(&store);
        check_accounts(&store);
    }
}

#[test]
fn a_batch_only_adds() {
    let before = sample();
    let mut after = before.clone();
    let batch = vec![step("a", None), begin("c"), message(6 * DAY)];
    let outcomes = vec![
        outcome(6 * DAY, None),
        outcome(6 * DAY, Some(&Json::Null)),
        outcome(6 * DAY, None),
    ];
    assert_eq!(after.apply_batch(&batch, &outcomes), Ok(()));
    for (old, new) in before.traces.iter().zip(&after.traces) {
        assert_eq!(old.trace_id, new.trace_id);
        assert_eq!(old.started_at, new.started_at);
    }
    for (old, new) in before.events.iter().zip(&after.events) {
        assert_eq!((old.event_id, old.sequence), (new.event_id, new.sequence));
    }
    assert_eq!(after.events.len(), before.events.len() + 2);
    assert_eq!(after.payloads.len(), before.payloads.len() + 1);
    assert_eq!(after.runtime_logs.len(), before.runtime_logs.len() + 1);
}

#[test]
fn taking_out_what_is_missing_gives_what_maintenance_left() {
    let before = sample();
    let mut after = before.clone();
    assert_eq!(after.maintain_at(6 * DAY), Ok(()));
    let gone = before.missing_in(&after);
    let mut taken = before.clone();
    taken.traces.retain(|row| !gone.traces.contains(&row.trace_id));
    taken.events.retain(|row| !gone.events.contains(&row.event_id));
    taken.payloads.retain(|row| !gone.payloads.contains(&row.payload_id));
    taken.runtime_logs.retain(|row| !gone.logs.contains(&row.log_id));
    let rest = taken.missing_in(&after);
    assert!(rest.traces.is_empty() && rest.events.is_empty());
    assert!(rest.payloads.is_empty() && rest.logs.is_empty());
    assert_eq!(taken.events.len(), after.events.len());
    assert_eq!(taken.payloads.len(), after.payloads.len());
}

#[test]
fn lists_do_not_depend_on_the_order_of_rows() {
    let service = DiagnosticLogService::start("logs.db".to_string());
    let query = TraceQuery {
        query: None,
        app_type: None,
        provider_id: None,
        status_code: None,
        streaming: None,
        cursor: None,
        offset: Some(0),
        limit: Some(5),
    };
    let store = sample();
    let mut turned = store.clone();
    turned.traces.reverse();
    let ids = |store: &LogStore| -> Vec<String> {
        let listed = service.list_traces(store, &query).expect("listed");
        listed.into_iter().map(|row| row.trace_id).collect()
    };
    let one = ids(&store);
    let other = ids(&turned);
    assert_eq!(one, ["b", "a"]);
    assert_eq!(one, other);
}

#[test]
fn a_request_that_has_begun_is_shown_in_progress() {
    let service = DiagnosticLogService::start("logs.db".to_string());
    let mut store = LogStore::new();
    let outcomes = vec![outcome(77, Some(&Json::Bool(true)))];
    assert_eq!(store.apply_batch(&vec![begin("x")], &outcomes), Ok(()));
    let shown = service.get_trace(&store, "x").expect("shown");
    assert_eq!(shown.trace.outcome, "in_progress");
    assert_eq!(shown.trace.started_at, 77);
    assert_eq!(shown.trace.path, "/v1/models");
    assert_eq!(shown.trace.request_model.as_deref(), Some("m"));
    assert_eq!(shown.trace.final_provider_id.as_deref(), Some("p"));
    assert!(shown.trace.is_streaming);
    assert!(!shown.trace.partial);
    assert_eq!(shown.events.len(), 1);
    assert_eq!(shown.events[0].sequence, 1);
    assert_eq!(shown.events[0].stage, "client_request");
    assert_eq!(shown.events[0].payload, Some(Json::Bool(true)));
}

#[test]
fn a_recorded_step_is_shown_last() {
    let service = DiagnosticLogService::start("logs.db".to_string());
    let mut store = sample();
    let payload = Json::Array(vec![Json::Str("x ".repeat(4000))]);
    let outcomes = vec![outcome(9 * DAY, Some(&payload))];
    let batch = vec![step("a", Some(payload.clone()))];
    assert_eq!(store.apply_batch(&batch, &outcomes), Ok(()));
    let shown = service.get_trace(&store, "a").expect("shown");
    assert_eq!(shown.events.len(), 3);
    let last = &shown.events[2];
    assert_eq!(last.sequence, 3);
    assert_eq!(last.occurred_at, 9 * DAY);
    assert_eq!(last.offset_ms, 42);
    assert_eq!(last.stage, "upstream_response");
    assert_eq!(last.kind, "response");
    assert_eq!(last.attempt_no, Some(3));
    assert_eq!(last.provider_id.as_deref(), Some("p9"));
    assert_eq!(last.status_code, Some(429));
    assert_eq!(last.summary.as_deref(), Some("slow down"));
    assert_eq!(last.payload, Some(payload));
    assert!(!last.truncated);
    assert_eq!(store.payloads[4].encoding, "zstd");
}

#[test]
fn steps_are_numbered_without_a_gap() {
    let service = DiagnosticLogService::start("logs.db".to_string());
    let mut store = sample();
    let batch = vec![step("a", None), step("b", None), begin("a"), step("a", None)];
    let outcomes = vec![
        outcome(9 * DAY, None),
        outcome(9 * DAY, None),
        outcome(9 * DAY, Some(&Json::Null)),
        outcome(9 * DAY, None),
    ];
    assert_eq!(store.apply_batch(&batch, &outcomes), Ok(()));
    assert_eq!(store.maintain_at(6 * DAY), Ok(()));
    for (id, count) in [("b", 3)] {
        let shown = service.get_trace(&store, id).expect("shown");
        let numbers: Vec<i64> = shown.events.iter().map(|event| event.sequence).collect();
        assert_eq!(numbers, (1..=count).collect::<Vec<i64>>());
    }
    assert!(service.get_trace(&store, "a").is_none());
}

#[test]
fn dropped_steps_are_the_sum_over_the_ends() {
    let end = |dropped: u64| {
        WriteCommand::Complete(CompleteTrace {
            trace_id: "x".to_string(),
            usage_request_id: None,
            response_model: None,
            final_provider_id: None,
            status_code: None,
            duration_ms: 1,
            outcome: "success".to_string(),
            dropped_event_count: dropped,
        })
    };
    let mut store = LogStore::new();
    let batch = vec![end(50), begin("x"), end(0)];
    let outcomes = vec![outcome(1, None), outcome(1, Some(&Json::Null)), outcome(1, None)];
    assert_eq!(store.apply_batch(&batch, &outcomes), Ok(()));
    assert_eq!((store.traces[0].dropped_event_count, store.traces[0].partial), (0, 0));
    let batch = vec![end(2), step("x", None), end(0), end(3)];
    let outcomes = vec![outcome(1, None), outcome(1, None), outcome(1, None), outcome(1, None)];
    assert_eq!(store.apply_batch(&batch, &outcomes), Ok(()));
    assert_eq!((store.traces[0].dropped_event_count, store.traces[0].partial), (5, 1));
}

#[test]
fn an_offset_out_of_range_is_shown_as_none() {
    let service = DiagnosticLogService::start("logs.db".to_string());
    let mut store = sample();
    let mut late = step("a", None);
    if let WriteCommand::Event(event) = &mut late {
        event.offset_ms = u64::MAX;
        event.attempt_no = Some(7);
    }
    assert_eq!(store.apply_batch(&vec![late], &vec![outcome(9 * DAY, None)]), Ok(()));
    let shown = service.get_trace(&store, "a").expect("shown");
    assert_eq!(shown.events[2].offset_ms, 0);
    assert_eq!(shown.trace.attempt_count, 7);
}

#[test]
fn a_cut_payload_is_shown_as_its_note() {
    let service = DiagnosticLogService::start("logs.db".to_string());
    let mut store = sample();
    let payload = Json::Array(vec![Json::Str("some words".to_string()); 100_000]);
    let batch = vec![step("a", Some(payload.clone()))];
    assert_eq!(store.apply_batch(&batch, &vec![outcome(9 * DAY, Some(&payload))]), Ok(()));
    let shown = service.get_trace(&store, "a").expect("shown");
    assert!(shown.events[2].truncated);
    let note = shown.events[2].payload.as_ref().expect("note").to_value();
    assert_eq!(note["truncated"], true);
    assert_eq!(note["originalBytes"], 1_300_001);
}
