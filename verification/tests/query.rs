use diagnostic_logs::json::Json;
use diagnostic_logs::query::show_event;
use diagnostic_logs::records::{RuntimeLogQuery, TraceCursor, TraceQuery};
use diagnostic_logs::service::DiagnosticLogService;
use diagnostic_logs::tables::{
    at_least_zero, bool_to_i64, map_trace_summary, EventRow, LogStore, PayloadRow, RuntimeRow,
    TraceRow,
};

fn trace(id: &str, started_at: i64) -> TraceRow {
    TraceRow {
        trace_id: id.to_string(),
        usage_request_id: None,
        app_type: "codex".to_string(),
        method: "POST".to_string(),
        path: "/v1/messages".to_string(),
        request_model: None,
        response_model: None,
        final_provider_id: None,
        status_code: None,
        is_streaming: 0,
        attempt_count: 0,
        started_at,
        completed_at: None,
        duration_ms: None,
        outcome: "in_progress".to_string(),
        partial: 0,
        dropped_event_count: 0,
        stored_bytes: 0,
    }
}

fn event(id: i64, trace_id: &str, sequence: i64, payload_id: Option<i64>) -> EventRow {
    EventRow {
        event_id: id,
        trace_id: trace_id.to_string(),
        sequence,
        occurred_at: 100 + id,
        offset_ms: 3,
        stage: "stream".to_string(),
        kind: "delta".to_string(),
        attempt_no: Some(1),
        provider_id: None,
        status_code: Some(200),
        summary: Some(format!("step {sequence}")),
        payload_id,
    }
}

fn payload(id: i64, encoding: &str, body: &[u8], truncated: i64) -> PayloadRow {
    PayloadRow {
        payload_id: id,
        content_type: "application/json".to_string(),
        encoding: encoding.to_string(),
        body: body.to_vec(),
        original_bytes: body.len() as i64,
        stored_bytes: body.len() as i64,
        sha256: String::new(),
        truncated,
    }
}

fn log(id: i64, occurred_at: i64, level: &str, target: &str, message: &str) -> RuntimeRow {
    RuntimeRow {
        log_id: id,
        occurred_at,
        level: level.to_string(),
        target: target.to_string(),
        message: message.to_string(),
        fields_json: None,
        stored_bytes: message.len() as i64,
    }
}

fn any_trace() -> TraceQuery {
    TraceQuery {
        query: None,
        app_type: None,
        provider_id: None,
        status_code: None,
        streaming: None,
        cursor: None,
        offset: None,
        limit: None,
    }
}

fn any_log() -> RuntimeLogQuery {
    RuntimeLogQuery {
        query: None,
        level: None,
        target: None,
        cursor: None,
        offset: None,
        limit: None,
    }
}

fn ids(store: &LogStore, query: &TraceQuery) -> Vec<String> {
    let service = DiagnosticLogService::start("logs.db".to_string());
    let listed = service.list_traces(store, query).expect("listed");
    listed.into_iter().map(|trace| trace.trace_id).collect()
}

fn log_ids(store: &LogStore, query: &RuntimeLogQuery) -> Vec<i64> {
    let service = DiagnosticLogService::start("logs.db".to_string());
    let listed = service.list_runtime_logs(store, query).expect("listed");
    listed.into_iter().map(|log| log.log_id).collect()
}

#[test]
fn requests_are_listed_newest_first() {
    let mut store = LogStore::new();
    store.traces = vec![trace("a", 10), trace("c", 30), trace("b", 20), trace("d", 20)];
    assert_eq!(ids(&store, &any_trace()), ["c", "d", "b", "a"]);
}

#[test]
fn requests_are_filtered() {
    let mut store = LogStore::new();
    let mut one = trace("one", 1);
    one.app_type = "gemini".to_string();
    one.final_provider_id = Some("p1".to_string());
    one.status_code = Some(200);
    one.is_streaming = 1;
    let mut two = trace("two", 2);
    two.status_code = Some(500);
    store.traces = vec![one, two];
    let mut query = any_trace();
    query.app_type = Some("gemini".to_string());
    assert_eq!(ids(&store, &query), ["one"]);
    let mut query = any_trace();
    query.provider_id = Some("p1".to_string());
    assert_eq!(ids(&store, &query), ["one"]);
    query.provider_id = Some("P1".to_string());
    assert!(ids(&store, &query).is_empty());
    let mut query = any_trace();
    query.status_code = Some(500);
    assert_eq!(ids(&store, &query), ["two"]);
    let mut query = any_trace();
    query.streaming = Some(false);
    assert_eq!(ids(&store, &query), ["two"]);
    query.streaming = Some(true);
    assert_eq!(ids(&store, &query), ["one"]);
    query.status_code = Some(500);
    assert!(ids(&store, &query).is_empty());
}

#[test]
fn requests_are_searched() {
    let mut store = LogStore::new();
    let mut one = trace("alpha", 1);
    one.request_model = Some("Model-X".to_string());
    let mut two = trace("beta", 2);
    two.response_model = Some("model-y".to_string());
    two.path = "/other".to_string();
    let mut three = trace("gamma", 3);
    three.final_provider_id = Some("prov".to_string());
    store.traces = vec![one, two, three];
    let search = |text: &str| {
        let mut query = any_trace();
        query.query = Some(text.to_string());
        ids(&store, &query)
    };
    assert_eq!(search("  MODEL "), ["beta", "alpha"]);
    assert_eq!(search("ALPHA"), ["alpha"]);
    assert_eq!(search("prov"), ["gamma"]);
    assert_eq!(search("other"), ["beta"]);
    assert_eq!(search("_lpha"), ["alpha"]);
    assert_eq!(search(""), ["gamma", "beta", "alpha"]);
    assert!(search("POST").is_empty());
}

#[test]
fn pages_are_bounded_and_join_up() {
    let mut store = LogStore::new();
    for i in 0..450 {
        store.traces.push(trace(&format!("t{i:03}"), i));
    }
    let page = |offset: Option<u32>, limit: Option<u32>| {
        let mut query = any_trace();
        query.offset = offset;
        query.limit = limit;
        ids(&store, &query)
    };
    assert_eq!(page(None, None).len(), 100);
    assert_eq!(page(None, Some(0)).len(), 1);
    assert_eq!(page(None, Some(10_000)).len(), 200);
    assert_eq!(page(Some(400), Some(200)).len(), 50);
    assert!(page(Some(450), None).is_empty());
    assert!(page(Some(u32::MAX), Some(u32::MAX)).is_empty());
    let mut joined = page(Some(0), Some(7));
    joined.extend(page(Some(7), Some(7)));
    assert_eq!(joined, page(Some(0), Some(14)));
    assert_eq!(joined[0], "t449");
    assert_eq!(joined[13], "t436");
}

#[test]
fn a_request_is_shown_with_its_steps() {
    let mut store = LogStore::new();
    store.traces = vec![trace("a", 1), trace("b", 2)];
    store.events = vec![
        event(1, "b", 2, Some(9)),
        event(2, "a", 1, None),
        event(3, "b", 1, Some(8)),
        event(4, "b", 3, Some(77)),
    ];
    store.payloads = vec![
        payload(8, "identity", b"{\"x\":1}", 0),
        payload(9, "zstd", b"no frame", 1),
    ];
    let service = DiagnosticLogService::start("logs.db".to_string());
    let shown = service.get_trace(&store, "b").expect("shown");
    assert_eq!(shown.trace.trace_id, "b");
    let sequences: Vec<i64> = shown.events.iter().map(|event| event.sequence).collect();
    assert_eq!(sequences, [1, 2, 3]);
    let first = shown.events[0].payload.as_ref().expect("payload").to_value();
    assert_eq!(first["x"], 1);
    assert!(!shown.events[0].truncated);
    assert_eq!(shown.events[1].payload, None);
    assert!(shown.events[1].truncated);
    assert_eq!(shown.events[2].payload, None);
    assert!(!shown.events[2].truncated);
    assert_eq!(shown.events[0].event_id, 3);
    assert_eq!(shown.events[0].summary.as_deref(), Some("step 1"));
    assert!(service.get_trace(&store, "c").is_none());
}

#[test]
fn stored_numbers_are_read_as_counts() {
    let mut row = event(1, "a", 1, None);
    row.offset_ms = -5;
    row.attempt_no = Some(-1);
    row.status_code = Some(65_536 + 404);
    let shown = show_event(&row, Some(Json::Null), true);
    assert_eq!(shown.offset_ms, 0);
    assert_eq!(shown.attempt_no, Some(0));
    assert_eq!(shown.status_code, Some(404));
    assert_eq!(shown.payload, Some(Json::Null));
    assert!(shown.truncated);

    let mut row = trace("a", 1);
    row.attempt_count = -1;
    row.duration_ms = Some(-9);
    row.dropped_event_count = -2;
    row.partial = 5;
    row.is_streaming = 2;
    let shown = map_trace_summary(&row);
    assert_eq!(shown.attempt_count, 0);
    assert_eq!(shown.duration_ms, Some(0));
    assert_eq!(shown.dropped_event_count, 0);
    assert!(shown.partial);
    assert!(shown.is_streaming);
    assert_eq!((at_least_zero(-1), at_least_zero(4)), (0, 4));
    assert_eq!((bool_to_i64(false), bool_to_i64(true)), (0, 1));
}

#[test]
fn messages_are_listed_newest_first_and_filtered() {
    let mut store = LogStore::new();
    store.runtime_logs = vec![
        log(1, 10, "info", "app::net", "started"),
        log(2, 30, "warn", "app::db", "slow"),
        log(3, 30, "info", "app::net", "stopped"),
        log(4, 20, "error", "other", "app failed"),
    ];
    assert_eq!(log_ids(&store, &any_log()), [3, 2, 4, 1]);
    let mut query = any_log();
    query.level = Some("info".to_string());
    assert_eq!(log_ids(&store, &query), [3, 1]);
    let mut query = any_log();
    query.target = Some(" NET ".to_string());
    assert_eq!(log_ids(&store, &query), [3, 1]);
    let mut query = any_log();
    query.query = Some("app".to_string());
    assert_eq!(log_ids(&store, &query), [3, 2, 4, 1]);
    query.target = Some("other".to_string());
    assert_eq!(log_ids(&store, &query), [4]);
    let mut query = any_log();
    query.offset = Some(1);
    query.limit = Some(2);
    assert_eq!(log_ids(&store, &query), [2, 4]);
}

#[test]
fn lists_of_messages_are_bounded() {
    let mut store = LogStore::new();
    for i in 0..600 {
        store.runtime_logs.push(log(i, i, "info", "t", "m"));
    }
    assert_eq!(log_ids(&store, &any_log()).len(), 200);
    let mut query = any_log();
    query.limit = Some(9_999);
    assert_eq!(log_ids(&store, &query).len(), 500);
    query.offset = Some(500);
    assert_eq!(log_ids(&store, &query).len(), 100);
}

#[test]
fn fields_of_messages_are_read() {
    let mut store = LogStore::new();
    let mut good = log(1, 1, "info", "t", "m");
    good.fields_json = Some("{\"a\":2}".to_string());
    let mut bad = log(2, 2, "info", "t", "m");
    bad.fields_json = Some("{".to_string());
    store.runtime_logs = vec![good, bad];
    let service = DiagnosticLogService::start("logs.db".to_string());
    let listed = service.list_runtime_logs(&store, &any_log()).expect("listed");
    assert_eq!(listed[0].fields, None);
    assert_eq!(listed[1].fields.as_ref().expect("fields").to_value()["a"], 2);
}

#[test]
fn pages_of_requests_are_stable_under_new_requests() {
    let service = DiagnosticLogService::start("logs.db".to_string());
    let mut store = LogStore::new();
    for i in 0..10 {
        store.traces.push(trace(&format!("t{i}"), 100 + i / 2));
    }
    let mut query = any_trace();
    query.limit = Some(4);
    let whole = ids(&store, &any_trace());
    let first = service.list_traces(&store, &query).expect("listed");
    let mut seen: Vec<String> = first.iter().map(|row| row.trace_id.clone()).collect();
    assert_eq!(seen, ["t9", "t8", "t7", "t6"]);
    store.traces.push(trace("new", 200));
    store.traces.push(trace("zz", first[3].started_at));
    query.cursor = Some(first[3].cursor());
    let second = service.list_traces(&store, &query).expect("listed");
    seen.extend(second.iter().map(|row| row.trace_id.clone()));
    query.cursor = Some(second[3].cursor());
    store.traces.insert(0, trace("newer", 300));
    let third = service.list_traces(&store, &query).expect("listed");
    seen.extend(third.iter().map(|row| row.trace_id.clone()));
    assert_eq!(seen, whole);
}

#[test]
fn pages_of_messages_are_stable_under_new_messages() {
    let service = DiagnosticLogService::start("logs.db".to_string());
    let mut store = LogStore::new();
    for i in 0..6 {
        store.runtime_logs.push(log(i, 100 + i / 3, "info", "t", "m"));
    }
    let mut query = any_log();
    query.limit = Some(2);
    let mut seen = Vec::new();
    loop {
        let page = service.list_runtime_logs(&store, &query).expect("listed");
        let Some(last) = page.last() else {
            break;
        };
        query.cursor = Some(last.cursor());
        seen.extend(page.iter().map(|row| row.log_id));
        store.runtime_logs.push(log(100 + seen.len() as i64, 500, "info", "t", "m"));
    }
    assert_eq!(seen, [5, 4, 3, 2, 1, 0]);
}

#[test]
fn a_cursor_and_an_offset_go_together() {
    let mut store = LogStore::new();
    for i in 0..6 {
        store.traces.push(trace(&format!("t{i}"), i));
    }
    let mut query = any_trace();
    query.cursor = Some(TraceCursor { started_at: 4, trace_id: "t4".to_string() });
    assert_eq!(ids(&store, &query), ["t3", "t2", "t1", "t0"]);
    query.offset = Some(2);
    query.limit = Some(1);
    assert_eq!(ids(&store, &query), ["t1"]);
    let mut query = any_trace();
    query.cursor = Some(TraceCursor { started_at: 4, trace_id: "t40".to_string() });
    assert_eq!(ids(&store, &query), ["t4", "t3", "t2", "t1", "t0"]);
}

#[test]
fn searches_with_long_patterns_fail_where_they_are_applied() {
    let service = DiagnosticLogService::start("logs.db".to_string());
    let mut store = LogStore::new();
    let mut query = any_trace();
    query.query = Some("a".repeat(49_999));
    assert!(ids(&store, &query).is_empty());
    store.traces.push(trace("a", 1));
    let error = service.list_traces(&store, &query).unwrap_err();
    assert_eq!(error, "LIKE or GLOB pattern too complex");
    query.app_type = Some("none".to_string());
    assert!(ids(&store, &query).is_empty());
    query.app_type = None;
    query.query = Some("a".repeat(49_998));
    assert!(ids(&store, &query).is_empty());
    query.query = Some(format!("  {}  ", "a".repeat(49_998)));
    assert!(ids(&store, &query).is_empty());
}

#[test]
fn searches_of_messages_with_long_patterns_fail_where_they_are_applied() {
    let service = DiagnosticLogService::start("logs.db".to_string());
    let mut store = LogStore::new();
    store.runtime_logs.push(log(1, 1, "info", "app", "m"));
    let long = "a".repeat(49_999);
    let mut query = any_log();
    query.query = Some(long.clone());
    let error = service.list_runtime_logs(&store, &query).unwrap_err();
    assert_eq!(error, "LIKE or GLOB pattern too complex");
    query.target = Some("other".to_string());
    assert!(log_ids(&store, &query).is_empty());
    query.target = Some(long.clone());
    assert!(service.list_runtime_logs(&store, &query).is_err());
    query.level = Some("warn".to_string());
    assert!(log_ids(&store, &query).is_empty());
}

#[test]
fn a_nul_character_ends_what_is_searched() {
    let mut store = LogStore::new();
    store.runtime_logs.push(log(1, 1, "info", "app", "before\0after"));
    let mut query = any_log();
    query.query = Some("before".to_string());
    assert_eq!(log_ids(&store, &query), [1]);
    query.query = Some("after".to_string());
    assert!(log_ids(&store, &query).is_empty());
}
