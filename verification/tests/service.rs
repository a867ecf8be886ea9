use diagnostic_logs::commands::{
    clear_diagnostic_logs, export_diagnostic_trace, export_diagnostic_trace_at,
    get_diagnostic_log_health, get_diagnostic_request_traces, get_diagnostic_runtime_logs,
    get_diagnostic_trace, record_frontend_diagnostic_log,
};
use diagnostic_logs::json::Json;
use diagnostic_logs::records::{
    BeginTrace, RuntimeLogInput, RuntimeLogQuery, TraceEventInput, TraceQuery, WriteCommand,
};
use diagnostic_logs::redact::RedactionPatterns;
use diagnostic_logs::service::{
    begin_trace, complete_trace, record_runtime_log, record_runtime_log_at, record_trace_event,
    redact_begin, redact_message, redact_message_now, redact_step, submit, submit_begin,
    DiagnosticLogService, MAX_BATCH_SIZE, QUEUE_CAPACITY,
};
use diagnostic_logs::tables::LogStore;
use diagnostic_logs::writer::{
    Writer, WriterAction, WriterEvent, FIRST_RETRY_MILLIS, MAINTENANCE_INTERVAL_NANOS,
    MAX_RETRY_MILLIS,
};

fn patterns() -> RedactionPatterns {
    RedactionPatterns::new().expect("valid redaction patterns")
}

fn slot() -> Option<DiagnosticLogService> {
    Some(DiagnosticLogService::start("logs.db".to_string()))
}

fn text(value: &str) -> Json {
    Json::Str(value.to_string())
}

fn begin() -> BeginTrace {
    BeginTrace {
        app_type: "codex".to_string(),
        method: "POST".to_string(),
        path: "/v1".to_string(),
        request_model: None,
        provider_id: None,
        is_streaming: false,
        headers: Json::Object(vec![("cookie".to_string(), text("a=b"))]),
        body: text("Bearer abc"),
    }
}

fn step(id: &str) -> TraceEventInput {
    TraceEventInput {
        trace_id: id.to_string(),
        offset_ms: 1,
        stage: "stream".to_string(),
        kind: "delta".to_string(),
        attempt_no: None,
        provider_id: None,
        status_code: None,
        summary: Some("token abc".to_string()),
        payload: Some(Json::Object(vec![("secret".to_string(), Json::Null)])),
    }
}

fn message(text: &str) -> WriteCommand {
    leveled("info", text)
}

fn leveled(level: &str, text: &str) -> WriteCommand {
    WriteCommand::Runtime(RuntimeLogInput {
        occurred_at: 1,
        level: level.to_string(),
        target: "t".to_string(),
        message: text.to_string(),
        fields: None,
    })
}

fn drain(slot: &mut Option<DiagnosticLogService>) -> Vec<WriteCommand> {
    slot.as_mut().expect("service").take_batch()
}

/// Reads the one line of an export.
fn read_line(exported: &str) -> serde_json::Value {
    assert_eq!(exported.find('\n'), Some(exported.len() - 1));
    serde_json::from_str(exported).expect("JSON")
}

fn dropped(slot: &Option<DiagnosticLogService>) -> u64 {
    slot.as_ref().expect("service").health(None, None).dropped_events
}

#[test]
fn a_request_is_recorded_redacted() {
    let mut slot = slot();
    let id = begin_trace(&mut slot, &patterns(), begin()).expect("identifier");
    assert_eq!(id.len(), 36);
    assert_eq!(id.as_bytes()[14], b'4');
    let other = begin_trace(&mut slot, &patterns(), begin()).expect("identifier");
    assert_ne!(id, other);
    let batch = drain(&mut slot);
    assert_eq!(batch.len(), 2);
    match &batch[0] {
        WriteCommand::Begin { trace_id, input } => {
            assert_eq!(trace_id, &id);
            assert_eq!(input.headers.to_value()["cookie"], "[REDACTED]");
            assert_eq!(input.body, text("Bearer [REDACTED]"));
            assert_eq!(input.path, "/v1");
        }
        other => panic!("unexpected {other:?}"),
    }
}

#[test]
fn a_step_is_recorded_redacted() {
    let mut slot = slot();
    record_trace_event(&mut slot, &patterns(), step("t1"));
    match &drain(&mut slot)[0] {
        WriteCommand::Event(event) => {
            assert_eq!(event.summary.as_deref(), Some("token [REDACTED]"));
            let payload = event.payload.as_ref().expect("payload");
            assert_eq!(payload.to_value()["secret"], "[REDACTED]");
        }
        other => panic!("unexpected {other:?}"),
    }
}

#[test]
fn a_message_is_recorded_redacted() {
    let mut slot = slot();
    let fields = Json::Object(vec![("password".to_string(), text("x"))]);
    record_runtime_log_at(&mut slot, &patterns(), 9, "WARN", "app", "Basic abc", Some(fields));
    record_runtime_log(&mut slot, &patterns(), "Info", "app", "hello", None);
    let batch = drain(&mut slot);
    match &batch[0] {
        WriteCommand::Runtime(input) => {
            assert_eq!(input.occurred_at, 9);
            assert_eq!(input.level, "warn");
            assert_eq!(input.message, "Basic [REDACTED]");
            let fields = input.fields.as_ref().expect("fields");
            assert_eq!(fields.to_value()["password"], "[REDACTED]");
        }
        other => panic!("unexpected {other:?}"),
    }
    match &batch[1] {
        WriteCommand::Runtime(input) => {
            assert!(input.occurred_at > 1_600_000_000_000);
            assert_eq!(input.level, "info");
            assert!(input.fields.is_none());
        }
        other => panic!("unexpected {other:?}"),
    }
}

#[test]
fn without_a_service_nothing_is_recorded() {
    let mut none: Option<DiagnosticLogService> = None;
    let patterns = patterns();
    assert_eq!(begin_trace(&mut none, &patterns, begin()), None);
    record_trace_event(&mut none, &patterns, step("t"));
    complete_trace(&mut none, "t", None, None, None, None, 1, "success");
    record_runtime_log(&mut none, &patterns, "info", "t", "m", None);
    assert!(none.is_none());
}

#[test]
fn the_queue_is_bounded_and_drops_are_counted() {
    let mut slot = slot();
    let service = slot.as_mut().expect("service");
    for i in 0..QUEUE_CAPACITY {
        service.enqueue(message(&i.to_string()));
    }
    assert_eq!(dropped(&slot), 0);
    record_trace_event(&mut slot, &patterns(), step("t1"));
    record_trace_event(&mut slot, &patterns(), step("t1"));
    record_trace_event(&mut slot, &patterns(), step("t2"));
    let service = slot.as_mut().expect("service");
    service.enqueue(message("late"));
    assert_eq!(dropped(&slot), 4);
    let service = slot.as_mut().expect("service");
    assert_eq!(service.take_dropped_for_trace("t1"), 2);
    assert_eq!(service.take_dropped_for_trace("t1"), 0);
    assert_eq!(service.take_dropped_for_trace("t2"), 1);
    assert_eq!(service.take_dropped_for_trace("t3"), 0);
}

fn drain_all(slot: &mut Option<DiagnosticLogService>) -> Vec<WriteCommand> {
    let mut all = Vec::new();
    loop {
        let batch = drain(slot);
        if batch.is_empty() {
            return all;
        }
        all.extend(batch);
    }
}

fn ends(commands: &[WriteCommand]) -> Vec<(u64, u64)> {
    commands
        .iter()
        .filter_map(|command| match command {
            WriteCommand::Complete(end) => Some((end.duration_ms, end.dropped_event_count)),
            _ => None,
        })
        .collect()
}

#[test]
fn the_end_of_a_request_reports_what_was_dropped() {
    let mut slot = slot();
    let service = slot.as_mut().expect("service");
    for i in 0..QUEUE_CAPACITY {
        service.enqueue(message(&i.to_string()));
    }
    record_trace_event(&mut slot, &patterns(), step("t1"));
    record_trace_event(&mut slot, &patterns(), step("t1"));
    drain(&mut slot);
    complete_trace(&mut slot, "t1", None, Some("m".to_string()), None, Some(200), 8, "success");
    complete_trace(&mut slot, "t1", None, None, None, None, 9, "error");
    assert_eq!(ends(&drain_all(&mut slot)), [(8, 2), (9, 0)]);
}

#[test]
fn the_end_of_a_request_takes_the_place_of_what_matters_less() {
    let mut slot = slot();
    let service = slot.as_mut().expect("service");
    service.enqueue(message("first"));
    service.enqueue(leveled("debug", "low"));
    service.enqueue(leveled("trace", "lower"));
    for i in 3..QUEUE_CAPACITY {
        service.enqueue(message(&i.to_string()));
    }
    complete_trace(&mut slot, "t1", None, None, None, None, 8, "success");
    assert_eq!(dropped(&slot), 1);
    let all = drain_all(&mut slot);
    assert_eq!(all.len(), QUEUE_CAPACITY);
    assert_eq!(ends(&all), [(8, 0)]);
    assert!(matches!(all.last(), Some(WriteCommand::Complete(_))));
    let levels: Vec<&str> = all
        .iter()
        .take(3)
        .map(|command| match command {
            WriteCommand::Runtime(input) => input.level.as_str(),
            _ => "",
        })
        .collect();
    assert_eq!(levels, ["info", "trace", "info"]);
}

#[test]
fn messages_that_trace_the_program_go_before_what_is_streamed() {
    let mut slot = slot();
    let patterns = patterns();
    record_trace_event(&mut slot, &patterns, step("t1"));
    let service = slot.as_mut().expect("service");
    service.enqueue(leveled("trace", "low"));
    for i in 2..QUEUE_CAPACITY {
        service.enqueue(leveled("error", &i.to_string()));
    }
    service.enqueue(message("one"));
    assert_eq!(service.take_dropped_for_trace("t1"), 0);
    service.enqueue(message("two"));
    assert_eq!(service.take_dropped_for_trace("t1"), 1);
    service.enqueue(message("three"));
    service.enqueue(leveled("debug", "four"));
    assert_eq!(dropped(&slot), 4);
    complete_trace(&mut slot, "t1", None, None, None, None, 1, "success");
    complete_trace(&mut slot, "t2", None, None, None, None, 2, "success");
    complete_trace(&mut slot, "t3", None, None, None, None, 3, "success");
    assert_eq!(dropped(&slot), 7);
    assert_eq!(ends(&drain_all(&mut slot)), [(1, 0), (2, 0)]);
}

#[test]
fn ends_that_are_dropped_add_to_the_count() {
    let mut slot = slot();
    let service = slot.as_mut().expect("service");
    for i in 0..QUEUE_CAPACITY {
        service.enqueue(leveled("error", &i.to_string()));
    }
    for _ in 0..3 {
        record_trace_event(&mut slot, &patterns(), step("t1"));
    }
    complete_trace(&mut slot, "t1", None, None, None, None, 1, "success");
    assert_eq!(dropped(&slot), 4);
    drain(&mut slot);
    complete_trace(&mut slot, "t1", None, None, None, None, 2, "success");
    assert_eq!(ends(&drain_all(&mut slot)), [(2, 4)]);
    let service = slot.as_mut().expect("service");
    assert_eq!(service.take_dropped_for_trace("t1"), 0);
}

#[test]
fn commands_have_priorities() {
    let event = |stage: &str, kind: &str| {
        let mut event = step("t");
        event.stage = stage.to_string();
        event.kind = kind.to_string();
        WriteCommand::Event(event).priority()
    };
    assert_eq!(event("stream", "delta"), 1);
    assert_eq!(event("stream", "error"), 3);
    assert_eq!(event("stream", "cancelled"), 3);
    assert_eq!(event("upstream_attempt", "request"), 3);
    assert_eq!(event("client_response", "response"), 2);
    assert_eq!(leveled("trace", "m").priority(), 0);
    assert_eq!(leveled("debug", "m").priority(), 0);
    assert_eq!(leveled("info", "m").priority(), 2);
    assert_eq!(leveled("warn", "m").priority(), 2);
    assert_eq!(leveled("error", "m").priority(), 3);
    let start = WriteCommand::Begin { trace_id: "t".to_string(), input: begin() };
    assert_eq!(start.priority(), 3);
}

#[test]
fn what_is_redacted_before_is_handed_on_as_it_is() {
    let mut slot = slot();
    let patterns = patterns();
    let recorded = redact_begin(&patterns, begin());
    assert_eq!(recorded.body, text("Bearer [REDACTED]"));
    let id = submit_begin(&mut slot, recorded).expect("identifier");
    let recorded = redact_step(&patterns, step("t1"));
    assert_eq!(recorded.summary.as_deref(), Some("token [REDACTED]"));
    submit(&mut slot, WriteCommand::Event(recorded));
    let recorded = redact_message(&patterns, 4, "INFO", "app", "Basic abc", None);
    assert_eq!(recorded.message, "Basic [REDACTED]");
    submit(&mut slot, WriteCommand::Runtime(recorded));
    let later = redact_message_now(&patterns, "Debug", "app", "hello", None);
    assert!(later.occurred_at > 1_600_000_000_000);
    assert_eq!(later.level, "debug");
    let batch = drain(&mut slot);
    assert_eq!(batch.len(), 3);
    assert_eq!(batch[0].trace_id(), Some(id.as_str()));
    let mut none: Option<DiagnosticLogService> = None;
    assert_eq!(submit_begin(&mut none, begin()), None);
    submit(&mut none, message("m"));
    assert!(none.is_none());
}

#[test]
fn commands_leave_in_the_order_they_came() {
    let mut slot = slot();
    let service = slot.as_mut().expect("service");
    for i in 0..250 {
        service.enqueue(message(&i.to_string()));
    }
    assert!(service.has_work());
    let mut seen = Vec::new();
    let mut sizes = Vec::new();
    loop {
        let batch = service.take_batch();
        if batch.is_empty() {
            break;
        }
        sizes.push(batch.len());
        for command in batch {
            match command {
                WriteCommand::Runtime(input) => seen.push(input.message),
                other => panic!("unexpected {other:?}"),
            }
        }
    }
    assert_eq!(sizes, [MAX_BATCH_SIZE, MAX_BATCH_SIZE, 50]);
    let expected: Vec<String> = (0..250).map(|i| i.to_string()).collect();
    assert_eq!(seen, expected);
    assert!(!service.has_work());
}

#[test]
fn without_a_writer_commands_are_dropped_with_an_error() {
    let mut service = DiagnosticLogService::start("logs.db".to_string());
    service.enqueue(message("a"));
    service.disconnect();
    assert!(!service.has_work());
    service.enqueue(message("b"));
    let health = service.health(None, None);
    assert_eq!(health.dropped_events, 1);
    assert!(!health.available);
    assert_eq!(health.error.as_deref(), Some("Diagnostic log writer is not running"));
    assert_eq!(service.take_dropped_for_trace("a"), 0);
}

#[test]
fn without_a_writer_the_count_of_a_request_is_given_up_at_its_end() {
    let mut slot = slot();
    let service = slot.as_mut().expect("service");
    for i in 0..QUEUE_CAPACITY {
        service.enqueue(message(&i.to_string()));
    }
    record_trace_event(&mut slot, &patterns(), step("t1"));
    record_trace_event(&mut slot, &patterns(), step("t2"));
    slot.as_mut().expect("service").disconnect();
    complete_trace(&mut slot, "t1", None, None, None, None, 1, "success");
    assert_eq!(dropped(&slot), 3);
    let service = slot.as_mut().expect("service");
    assert_eq!(service.take_dropped_for_trace("t1"), 0);
    assert_eq!(service.take_dropped_for_trace("t2"), 1);
    let health = service.health(None, None);
    assert_eq!(health.error.as_deref(), Some("Diagnostic log writer is not running"));
}

#[test]
fn health_shows_errors_and_sizes() {
    let mut service = DiagnosticLogService::start("/tmp/logs.db".to_string());
    assert_eq!(service.db_path(), "/tmp/logs.db");
    let health = service.health(Some(&LogStore::new()), Some(4096));
    assert!(health.available);
    assert_eq!(health.error, None);
    assert_eq!(health.db_path, "/tmp/logs.db");
    assert_eq!(health.retention_days, 3);
    assert_eq!((health.request_bytes, health.runtime_bytes), (0, 0));
    assert_eq!(health.physical_bytes, 4096);
    service.set_error("disk".to_string());
    let health = service.health(None, None);
    assert!(!health.available);
    assert_eq!(health.error.as_deref(), Some("disk"));
    assert_eq!(health.physical_bytes, 0);
    service.clear_error();
    assert!(service.health(None, None).available);
}

#[test]
fn the_writer_opens_waits_writes_and_maintains() {
    let mut service = DiagnosticLogService::start("logs.db".to_string());
    let mut writer = Writer::new();
    assert_eq!(writer.unfinished_work(), WriterAction::Open);
    let action = writer.react(&mut service, WriterEvent::Opened(Ok(())), 0);
    assert_eq!(action, WriterAction::Wait);
    let action = writer.react(&mut service, WriterEvent::Ready, 0);
    assert_eq!(action, WriterAction::Wait);
    for i in 0..120 {
        service.enqueue(message(&i.to_string()));
    }
    let action = writer.react(&mut service, WriterEvent::Ready, 1);
    assert_eq!((action, writer.batch.len()), (WriterAction::Write, 100));
    let action = writer.react(&mut service, WriterEvent::Written(Ok(())), 2);
    assert_eq!((action, writer.batch.len()), (WriterAction::Maintain, 0));
    let action = writer.react(&mut service, WriterEvent::Maintained(Ok(())), 3);
    assert_eq!(action, WriterAction::Wait);
    assert_eq!(writer.last_maintenance, Some(3));
    let action = writer.react(&mut service, WriterEvent::Ready, 4);
    assert_eq!((action, writer.batch.len()), (WriterAction::Write, 20));
    let action = writer.react(&mut service, WriterEvent::Written(Ok(())), 5);
    assert_eq!(action, WriterAction::Wait);
    assert!(service.health(None, None).available);
}

#[test]
fn a_batch_that_was_not_written_is_tried_again() {
    let mut service = DiagnosticLogService::start("logs.db".to_string());
    let mut writer = Writer::new();
    writer.react(&mut service, WriterEvent::Opened(Ok(())), 0);
    writer.react(&mut service, WriterEvent::Maintained(Ok(())), 0);
    service.enqueue(message("a"));
    service.enqueue(message("b"));
    assert_eq!(writer.react(&mut service, WriterEvent::Ready, 1), WriterAction::Write);
    service.enqueue(message("c"));
    let mut delays = Vec::new();
    for i in 0..11 {
        let event = WriterEvent::Written(Err(format!("busy {i}")));
        match writer.react(&mut service, event, 2) {
            WriterAction::Retry(millis) => delays.push(millis),
            other => panic!("unexpected {other:?}"),
        }
        assert_eq!(service.health(None, None).error, Some(format!("busy {i}")));
        assert_eq!(writer.batch.len(), 2);
        assert_eq!(writer.react(&mut service, WriterEvent::RetryDue, 3), WriterAction::Write);
        assert_eq!(writer.react(&mut service, WriterEvent::Ready, 3), WriterAction::Write);
    }
    assert_eq!(delays[0], FIRST_RETRY_MILLIS);
    assert_eq!(delays[..4], [250, 500, 1000, 2000]);
    assert_eq!(delays[8..], [MAX_RETRY_MILLIS; 3]);
    let action = writer.react(&mut service, WriterEvent::Written(Ok(())), 4);
    assert_eq!(action, WriterAction::Wait);
    assert!(service.health(None, None).available);
    assert!(writer.batch.is_empty());
    assert_eq!(writer.react(&mut service, WriterEvent::Ready, 6), WriterAction::Write);
    assert_eq!(writer.batch.len(), 1);
    let event = WriterEvent::Written(Err("busy".to_string()));
    assert_eq!(writer.react(&mut service, event, 7), WriterAction::Retry(250));
}

#[test]
fn maintenance_is_done_while_writes_fail() {
    let mut service = DiagnosticLogService::start("logs.db".to_string());
    let mut writer = Writer::new();
    writer.react(&mut service, WriterEvent::Opened(Ok(())), 0);
    service.enqueue(message("a"));
    assert_eq!(writer.react(&mut service, WriterEvent::Ready, 1), WriterAction::Write);
    let full = || WriterEvent::Written(Err("disk full".to_string()));
    assert_eq!(writer.react(&mut service, full(), 2), WriterAction::Retry(250));
    assert_eq!(writer.react(&mut service, WriterEvent::RetryDue, 3), WriterAction::Maintain);
    let failed = WriterEvent::Maintained(Err("disk full".to_string()));
    assert_eq!(writer.react(&mut service, failed, 4), WriterAction::Write);
    assert_eq!(writer.batch.len(), 1);
    assert_eq!(writer.react(&mut service, full(), 5), WriterAction::Retry(500));
    assert_eq!(writer.react(&mut service, WriterEvent::RetryDue, 6), WriterAction::Write);
    assert_eq!(writer.react(&mut service, full(), 7), WriterAction::Retry(1000));
    let later = 4 + MAINTENANCE_INTERVAL_NANOS;
    assert_eq!(writer.react(&mut service, WriterEvent::RetryDue, later), WriterAction::Maintain);
    let done = WriterEvent::Maintained(Ok(()));
    assert_eq!(writer.react(&mut service, done, later), WriterAction::Write);
}

#[test]
fn maintenance_comes_round() {
    let mut service = DiagnosticLogService::start("logs.db".to_string());
    let mut writer = Writer::new();
    writer.react(&mut service, WriterEvent::Opened(Ok(())), 0);
    assert!(writer.is_maintenance_due(0));
    let action = writer.react(&mut service, WriterEvent::TimedOut, 0);
    assert_eq!(action, WriterAction::Maintain);
    writer.react(&mut service, WriterEvent::Maintained(Err("locked".to_string())), 10);
    assert_eq!(service.health(None, None).error.as_deref(), Some("locked"));
    let just_before = 9 + MAINTENANCE_INTERVAL_NANOS;
    let action = writer.react(&mut service, WriterEvent::TimedOut, just_before);
    assert_eq!(action, WriterAction::Wait);
    let action = writer.react(&mut service, WriterEvent::TimedOut, just_before + 1);
    assert_eq!(action, WriterAction::Maintain);
}

#[test]
fn a_log_that_does_not_open_is_tried_again() {
    let mut service = DiagnosticLogService::start("logs.db".to_string());
    service.enqueue(message("a"));
    let mut writer = Writer::new();
    let event = WriterEvent::Opened(Err("no such directory".to_string()));
    assert_eq!(writer.react(&mut service, event, 0), WriterAction::Retry(250));
    assert_eq!(service.health(None, None).error.as_deref(), Some("no such directory"));
    service.enqueue(message("b"));
    assert_eq!(service.health(None, None).dropped_events, 0);
    assert_eq!(writer.react(&mut service, WriterEvent::RetryDue, 0), WriterAction::Open);
    assert_eq!(writer.react(&mut service, WriterEvent::TimedOut, 0), WriterAction::Open);
    let event = WriterEvent::Opened(Err("still none".to_string()));
    assert_eq!(writer.react(&mut service, event, 0), WriterAction::Retry(500));
    assert_eq!(writer.react(&mut service, WriterEvent::Opened(Ok(())), 0), WriterAction::Wait);
    assert!(service.health(None, None).available);
    assert_eq!(writer.react(&mut service, WriterEvent::Ready, 0), WriterAction::Write);
    assert_eq!(writer.batch.len(), 2);
}

#[test]
fn the_writer_stops_where_nothing_will_come() {
    let mut service = DiagnosticLogService::start("logs.db".to_string());
    let mut writer = Writer::new();
    let action = writer.react(&mut service, WriterEvent::Disconnected, 0);
    assert_eq!(action, WriterAction::Stop);
    service.enqueue(message("b"));
    assert_eq!(service.health(None, None).dropped_events, 1);
}

fn any_trace() -> TraceQuery {
    TraceQuery {
        query: None,
        app_type: None,
        provider_id: None,
        status_code: None,
        streaming: None,
        cursor: None,
        offset: None,
        limit: None,
    }
}

fn any_log() -> RuntimeLogQuery {
    RuntimeLogQuery {
        query: None,
        level: None,
        target: None,
        cursor: None,
        offset: None,
        limit: None,
    }
}

#[test]
fn commands_fail_without_a_service() {
    let none: Option<DiagnosticLogService> = None;
    let mut store = LogStore::new();
    let expected = "Diagnostic log service is unavailable";
    let error = get_diagnostic_request_traces(&none, &store, any_trace()).unwrap_err();
    assert_eq!(error, expected);
    let error = get_diagnostic_trace(&none, &store, "t".to_string()).unwrap_err();
    assert_eq!(error, expected);
    let error = get_diagnostic_runtime_logs(&none, &store, any_log()).unwrap_err();
    assert_eq!(error, expected);
    let error = get_diagnostic_log_health(&none, Some(&store), None).unwrap_err();
    assert_eq!(error, expected);
    let error = clear_diagnostic_logs(&none, &mut store, "all".to_string()).unwrap_err();
    assert_eq!(error, expected);
    let error = export_diagnostic_trace(&none, &patterns(), &store, "t".to_string()).unwrap_err();
    assert_eq!(error, expected);
    let mut none = none;
    let result = record_frontend_diagnostic_log(
        &mut none,
        &patterns(),
        "info".to_string(),
        "ui".to_string(),
        "hello".to_string(),
    );
    assert_eq!(result, Ok(()));
}

#[test]
fn what_is_recorded_is_shown_and_exported() {
    let patterns = patterns();
    let mut slot = slot();
    let mut store = LogStore::new();
    let id = begin_trace(&mut slot, &patterns, begin()).expect("identifier");
    record_trace_event(&mut slot, &patterns, step(&id));
    complete_trace(&mut slot, &id, None, None, None, Some(200), 5, "success");
    record_frontend_diagnostic_log(
        &mut slot,
        &patterns,
        "ERROR".to_string(),
        "ui".to_string(),
        "broken".to_string(),
    )
    .expect("recorded");
    let batch = drain(&mut slot);
    assert_eq!(store.write_batch(&patterns, &batch), Ok(()));

    let listed = get_diagnostic_request_traces(&slot, &store, any_trace()).expect("listed");
    assert_eq!(listed.len(), 1);
    assert_eq!(listed[0].trace_id, id);
    assert_eq!(listed[0].outcome, "success");
    assert_eq!(listed[0].status_code, Some(200));

    let shown = get_diagnostic_trace(&slot, &store, id.clone()).expect("shown").expect("there");
    assert_eq!(shown.events.len(), 3);
    let first = shown.events[0].payload.as_ref().expect("payload").to_value();
    assert_eq!(first["headers"]["cookie"], "[REDACTED]");
    let second = shown.events[1].payload.as_ref().expect("payload").to_value();
    assert_eq!(second["secret"], "[REDACTED]");
    assert_eq!(shown.events[1].summary.as_deref(), Some("token [REDACTED]"));
    assert_eq!(shown.events[2].summary.as_deref(), Some("Request success"));

    let logs = get_diagnostic_runtime_logs(&slot, &store, any_log()).expect("listed");
    assert_eq!(logs[0].level, "error");
    assert_eq!(logs[0].message, "broken");

    let health = get_diagnostic_log_health(&slot, Some(&store), Some(1)).expect("health");
    assert_eq!(health.request_bytes, store.traces[0].stored_bytes);
    assert_eq!(health.runtime_bytes, 8);

    let missing = export_diagnostic_trace(&slot, &patterns, &store, "none".to_string());
    assert_eq!(missing.unwrap_err(), "Diagnostic trace was not found");
    let text = export_diagnostic_trace(&slot, &patterns, &store, id.clone()).expect("exported");
    let exported = read_line(&text);
    assert_eq!(exported["trace"]["traceId"], id);
    assert!(exported["exportedAt"].as_i64().expect("time") > 1_600_000_000_000);
    assert_eq!(exported["events"].as_array().map(Vec::len), Some(3));

    clear_diagnostic_logs(&slot, &mut store, "all".to_string()).expect("cleared");
    assert!(store.traces.is_empty());
    let error = clear_diagnostic_logs(&slot, &mut store, "none".to_string()).unwrap_err();
    assert_eq!(error, "Unsupported diagnostic log category");
}

#[test]
fn exports_are_redacted_once_more() {
    let patterns = patterns();
    let slot = slot();
    let mut store = LogStore::new();
    let mut other = Some(DiagnosticLogService::start("logs.db".to_string()));
    let id = begin_trace(&mut other, &patterns, begin()).expect("identifier");
    assert_eq!(store.write_batch(&patterns, &drain(&mut other)), Ok(()));
    store.events[0].summary = Some("Basic leaked".to_string());
    store.payloads[0].body = b"{\"token\":\"leaked\"}".to_vec();
    store.payloads[0].encoding = "identity".to_string();
    let text = export_diagnostic_trace(&slot, &patterns, &store, id).expect("exported");
    let exported = read_line(&text);
    assert_eq!(exported["events"][0]["summary"], "Basic [REDACTED]");
    assert_eq!(exported["events"][0]["payload"]["token"], "[REDACTED]");
}

#[test]
fn stored_paths_and_models_are_redacted_in_exports() {
    let patterns = patterns();
    let mut slot = slot();
    let mut store = LogStore::new();
    let id = begin_trace(&mut slot, &patterns, begin()).expect("identifier");
    assert_eq!(store.write_batch(&patterns, &drain(&mut slot)), Ok(()));
    store.traces[0].path = "/v1?api_key=sk-1#top".to_string();
    store.traces[0].request_model = Some("m https://u:p@h/x?key=sk-2".to_string());
    store.traces[0].response_model = Some("Bearer sk-3".to_string());
    let text = export_diagnostic_trace(&slot, &patterns, &store, id.clone()).expect("exported");
    assert!(!text.contains("sk-"));
    let exported = read_line(&text);
    assert_eq!(exported["trace"]["path"], "/v1");
    assert_eq!(exported["trace"]["requestModel"], "m https://h/x");
    assert_eq!(exported["trace"]["responseModel"], "Bearer [REDACTED]");
    assert_eq!(exported["trace"]["traceId"], id);
    assert_eq!(exported["trace"]["method"], "POST");
}

#[test]
fn an_export_is_one_line_with_version_and_time() {
    let patterns = patterns();
    let mut slot = slot();
    let mut store = LogStore::new();
    let id = begin_trace(&mut slot, &patterns, begin()).expect("identifier");
    let mut lines = step(&id);
    lines.summary = Some("two\nlines".to_string());
    lines.payload = Some(text("a\nb\r\n"));
    lines.status_code = Some(429);
    record_trace_event(&mut slot, &patterns, lines);
    assert_eq!(store.write_batch(&patterns, &drain(&mut slot)), Ok(()));
    store.traces[0].dropped_event_count = 3;
    store.traces[0].partial = 1;
    let written = export_diagnostic_trace_at(&slot, &patterns, &store, 1234, id.clone());
    let exported = read_line(&written.expect("exported"));
    assert_eq!(exported["schemaVersion"], 1);
    assert_eq!(exported["exportedAt"], 1234);
    let trace = &exported["trace"];
    assert_eq!(trace["traceId"], id);
    assert_eq!(trace["appType"], "codex");
    assert_eq!(trace["usageRequestId"], serde_json::Value::Null);
    assert_eq!(trace["isStreaming"], false);
    assert_eq!(trace["partial"], true);
    assert_eq!(trace["droppedEventCount"], 3);
    assert_eq!(trace["storedBytes"], store.traces[0].stored_bytes);
    assert_eq!(trace.as_object().map(|members| members.len()), Some(18));
    let event = &exported["events"][1];
    assert_eq!(event["sequence"], 2);
    assert_eq!(event["summary"], "two\nlines");
    assert_eq!(event["payload"], "a\nb\r\n");
    assert_eq!(event["statusCode"], 429);
    assert_eq!(event["attemptNo"], serde_json::Value::Null);
    assert_eq!(event["truncated"], false);
    assert_eq!(event.as_object().map(|members| members.len()), Some(12));
}
