use diagnostic_logs::maintenance::{count_kept, trim_runtime_capacity, trim_trace_capacity};
use diagnostic_logs::service::DiagnosticLogService;
use diagnostic_logs::store::StoreError;
use diagnostic_logs::tables::{EventRow, LogStore, PayloadRow, RuntimeRow, TraceRow};

const DAY: i64 = 24 * 60 * 60 * 1000;
const MIB: i64 = 1024 * 1024;

fn trace(id: &str, started_at: i64, stored_bytes: i64) -> TraceRow {
    TraceRow {
        trace_id: id.to_string(),
        usage_request_id: None,
        app_type: "codex".to_string(),
        method: "POST".to_string(),
        path: "/".to_string(),
        request_model: None,
        response_model: None,
        final_provider_id: None,
        status_code: None,
        is_streaming: 0,
        attempt_count: 0,
        started_at,
        completed_at: None,
        duration_ms: None,
        outcome: "success".to_string(),
        partial: 0,
        dropped_event_count: 0,
        stored_bytes,
    }
}

fn event(id: i64, trace_id: &str, payload_id: Option<i64>) -> EventRow {
    EventRow {
        event_id: id,
        trace_id: trace_id.to_string(),
        sequence: 1,
        occurred_at: 0,
        offset_ms: 0,
        stage: "stream".to_string(),
        kind: "delta".to_string(),
        attempt_no: None,
        provider_id: None,
        status_code: None,
        summary: None,
        payload_id,
    }
}

fn payload(id: i64) -> PayloadRow {
    PayloadRow {
        payload_id: id,
        content_type: "application/json".to_string(),
        encoding: "identity".to_string(),
        body: vec![b'1'],
        original_bytes: 1,
        stored_bytes: 1,
        sha256: String::new(),
        truncated: 0,
    }
}

fn log(id: i64, occurred_at: i64, stored_bytes: i64) -> RuntimeRow {
    RuntimeRow {
        log_id: id,
        occurred_at,
        level: "info".to_string(),
        target: "t".to_string(),
        message: "m".to_string(),
        fields_json: None,
        stored_bytes,
    }
}

fn trace_ids(store: &LogStore) -> Vec<String> {
    store.traces.iter().map(|row| row.trace_id.clone()).collect()
}

fn sample() -> LogStore {
    let mut store = LogStore::new();
    store.traces = vec![trace("old", 10 * DAY - 1, 5), trace("new", 10 * DAY, 7)];
    store.events = vec![
        event(1, "old", Some(1)),
        event(2, "new", Some(2)),
        event(3, "new", None),
    ];
    store.payloads = vec![payload(1), payload(2), payload(3)];
    store.runtime_logs = vec![log(1, 10 * DAY - 1, 3), log(2, 10 * DAY, 4)];
    store.last_event_id = 3;
    store.last_payload_id = 3;
    store.last_log_id = 2;
    store
}

#[test]
fn what_is_too_old_goes() {
    let mut store = sample();
    assert_eq!(store.maintain_at(13 * DAY), Ok(()));
    assert_eq!(trace_ids(&store), ["new"]);
    let events: Vec<i64> = store.events.iter().map(|row| row.event_id).collect();
    assert_eq!(events, [2, 3]);
    let payloads: Vec<i64> = store.payloads.iter().map(|row| row.payload_id).collect();
    assert_eq!(payloads, [2]);
    let logs: Vec<i64> = store.runtime_logs.iter().map(|row| row.log_id).collect();
    assert_eq!(logs, [2]);
    assert_eq!(store.last_event_id, 3);
}

#[test]
fn what_is_gone_is_told() {
    let before = sample();
    let mut after = before.clone();
    assert_eq!(after.maintain_at(13 * DAY), Ok(()));
    let gone = before.missing_in(&after);
    assert_eq!(gone.traces, ["old"]);
    assert_eq!(gone.events, [1]);
    assert_eq!(gone.payloads, [1, 3]);
    assert_eq!(gone.logs, [1]);
    let none = before.missing_in(&before);
    assert!(none.traces.is_empty() && none.events.is_empty());
    assert!(none.payloads.is_empty() && none.logs.is_empty());
}

#[test]
fn idle_maintenance_changes_nothing() {
    let mut store = sample();
    store.payloads.pop();
    assert_eq!(store.maintain_at(11 * DAY), Ok(()));
    assert_eq!(trace_ids(&store), ["old", "new"]);
    assert_eq!(store.events.len(), 3);
    assert_eq!(store.payloads.len(), 2);
    assert_eq!(store.runtime_logs.len(), 2);
}

#[test]
fn maintenance_now_drops_what_is_long_past() {
    let mut store = sample();
    assert_eq!(store.run_maintenance(), Ok(()));
    assert!(store.traces.is_empty());
    assert!(store.events.is_empty());
    assert!(store.payloads.is_empty());
    assert!(store.runtime_logs.is_empty());
}

#[test]
fn the_oldest_requests_go_until_the_rest_fits() {
    let mut rows = Vec::new();
    for i in 0..310i64 {
        rows.push(trace(&format!("t{i:03}"), 1000 - i, MIB));
    }
    let kept = trim_trace_capacity(rows).expect("kept");
    assert_eq!(kept.len(), 300);
    assert!(kept.iter().all(|row| row.started_at > 1000 - 300));
    let full: Vec<TraceRow> = (0..300).map(|i| trace(&i.to_string(), i, MIB)).collect();
    assert_eq!(trim_trace_capacity(full).expect("kept").len(), 300);
    let few = vec![trace("a", 1, 301 * MIB), trace("b", 2, 1)];
    let kept = trim_trace_capacity(few).expect("kept");
    assert_eq!(kept.len(), 1);
    assert_eq!(kept[0].trace_id, "b");
    let two = vec![trace("a", 1, 200_000_000), trace("b", 2, 200_000_000)];
    let kept = trim_trace_capacity(two).expect("kept");
    assert_eq!(kept.len(), 1);
    assert_eq!(kept[0].trace_id, "b");
    let large = vec![trace("a", 1, 1), trace("b", 2, 301 * MIB)];
    assert!(trim_trace_capacity(large).expect("kept").is_empty());
}

#[test]
fn the_oldest_messages_go_until_the_rest_fits() {
    let mut rows = Vec::new();
    for i in 0..1200i64 {
        rows.push(log(i, i, MIB / 20));
    }
    let kept = trim_runtime_capacity(rows).expect("kept");
    assert_eq!(kept.len(), 1000);
    assert!(kept.iter().all(|row| row.occurred_at >= 200));
}

#[test]
fn sums_out_of_range_are_errors_and_change_nothing() {
    assert_eq!(count_kept(&vec![i64::MAX, 1], 10), Err(StoreError::Overflow));
    let mut store = sample();
    store.traces = vec![trace("a", 12 * DAY, i64::MAX), trace("b", 12 * DAY, 1)];
    assert_eq!(store.maintain_at(13 * DAY), Err(StoreError::Overflow));
    assert_eq!(trace_ids(&store), ["a", "b"]);
    assert_eq!(store.payloads.len(), 3);
    assert_eq!(store.stored_totals(), None);
}

#[test]
fn rows_are_counted_off_from_the_oldest() {
    assert_eq!(count_kept(&vec![1, 1, 1], 3), Ok(3));
    assert_eq!(count_kept(&vec![1, 1, 1], 2), Ok(2));
    assert_eq!(count_kept(&vec![1, 1, 5], 2), Ok(2));
    assert_eq!(count_kept(&vec![9, 1, 1], 5), Ok(0));
    assert_eq!(count_kept(&Vec::new(), 0), Ok(0));
}

#[test]
fn categories_are_cleared() {
    let service = DiagnosticLogService::start("logs.db".to_string());
    let mut store = sample();
    assert_eq!(service.clear(&mut store, "requests"), Ok(()));
    assert!(store.traces.is_empty() && store.events.is_empty() && store.payloads.is_empty());
    assert_eq!(store.runtime_logs.len(), 2);

    let mut store = sample();
    assert_eq!(service.clear(&mut store, "runtime"), Ok(()));
    assert!(store.runtime_logs.is_empty());
    assert_eq!(store.traces.len(), 2);
    assert_eq!(store.events.len(), 3);
    assert_eq!(store.payloads.len(), 2);

    let mut store = sample();
    assert_eq!(service.clear(&mut store, "all"), Ok(()));
    assert!(store.traces.is_empty() && store.runtime_logs.is_empty());
    assert_eq!(store.last_log_id, 2);

    let mut store = sample();
    assert_eq!(
        service.clear(&mut store, "Requests"),
        Err("Unsupported diagnostic log category".to_string())
    );
    assert_eq!(store.payloads.len(), 3);
}

#[test]
fn stored_bytes_are_added_up() {
    assert_eq!(sample().stored_totals(), Some((12, 7)));
    assert_eq!(LogStore::new().stored_totals(), Some((0, 0)));
}
