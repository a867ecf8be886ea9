//! What an export holds under each name.
use crate::commands::{export_diagnostic_trace_at, exported, redact_detail};
use crate::export::{
    event_json, events_json, export_json, exportable, is_export, law_export_reads_back, trace_json,
    write_export,
};
use crate::json::{json_bytes, json_parse, whole_number, JsonView};
use crate::query::shows_trace;
use crate::records::{DetailView, RequestTraceDetail, RequestTraceSummary, TraceEventRecord};
use crate::redact::{redacted, redacted_text, RedactionPatterns};
use crate::schema::SCHEMA_VERSION;
use crate::service::DiagnosticLogService;
use crate::shown_laws::lemma_trace_of;
use crate::tables::LogStore;
use crate::urls::safe_path;
use vstd::prelude::*;
use vstd::string::*;
use vstd::utf8::*;

verus! {

/// Whether a value is a whole number.
pub open spec fn is_number(value: JsonView, number: int) -> bool {
    value == JsonView::Number(whole_number(number))
}

/// Whether a value is a text, or null where there is none.
pub open spec fn is_text(value: JsonView, text: Option<Seq<char>>) -> bool {
    &&& text is None ==> value is Null
    &&& text matches Some(held) ==> value == JsonView::Str(held)
}

/// Whether the members of an object are what is exported of a step, name by name.
pub open spec fn names_step(
    members: Map<Seq<char>, JsonView>,
    event: TraceEventRecord<Seq<char>, JsonView>,
) -> bool {
    &&& is_number(members["eventId"@], event.event_id as int)
    &&& is_number(members["sequence"@], event.sequence as int)
    &&& is_number(members["occurredAt"@], event.occurred_at as int)
    &&& is_number(members["offsetMs"@], event.offset_ms as int)
    &&& members["stage"@] == JsonView::Str(event.stage)
    &&& members["kind"@] == JsonView::Str(event.kind)
    &&& event.attempt_no is None ==> members["attemptNo"@] is Null
    &&& event.attempt_no matches Some(number) ==> is_number(members["attemptNo"@], number as int)
    &&& is_text(members["providerId"@], event.provider_id)
    &&& event.status_code is None ==> members["statusCode"@] is Null
    &&& event.status_code matches Some(code) ==> is_number(members["statusCode"@], code as int)
    &&& is_text(members["summary"@], event.summary)
    &&& event.payload is None ==> members["payload"@] is Null
    &&& event.payload matches Some(value) ==> members["payload"@] == value
    &&& members["truncated"@] == JsonView::Bool(event.truncated)
    &&& members.dom() == set![
        "eventId"@, "sequence"@, "occurredAt"@, "offsetMs"@, "stage"@, "kind"@, "attemptNo"@,
        "providerId"@, "statusCode"@, "summary"@, "payload"@, "truncated"@,
    ]
}

/// Whether the members of an object are what is exported of a request, name by name.
pub open spec fn names_request(
    members: Map<Seq<char>, JsonView>,
    trace: RequestTraceSummary<Seq<char>>,
) -> bool {
    &&& members["traceId"@] == JsonView::Str(trace.trace_id)
    &&& is_text(members["usageRequestId"@], trace.usage_request_id)
    &&& members["appType"@] == JsonView::Str(trace.app_type)
    &&& members["method"@] == JsonView::Str(trace.method)
    &&& members["path"@] == JsonView::Str(trace.path)
    &&& is_text(members["requestModel"@], trace.request_model)
    &&& is_text(members["responseModel"@], trace.response_model)
    &&& is_text(members["finalProviderId"@], trace.final_provider_id)
    &&& trace.status_code is None ==> members["statusCode"@] is Null
    &&& trace.status_code matches Some(code) ==> is_number(members["statusCode"@], code as int)
    &&& members["isStreaming"@] == JsonView::Bool(trace.is_streaming)
    &&& is_number(members["attemptCount"@], trace.attempt_count as int)
    &&& is_number(members["startedAt"@], trace.started_at as int)
    &&& trace.completed_at is None ==> members["completedAt"@] is Null
    &&& trace.completed_at matches Some(time) ==> is_number(members["completedAt"@], time as int)
    &&& trace.duration_ms is None ==> members["durationMs"@] is Null
    &&& trace.duration_ms matches Some(millis) ==> is_number(members["durationMs"@], millis as int)
    &&& members["outcome"@] == JsonView::Str(trace.outcome)
    &&& members["partial"@] == JsonView::Bool(trace.partial)
    &&& is_number(members["droppedEventCount"@], trace.dropped_event_count as int)
    &&& is_number(members["storedBytes"@], trace.stored_bytes as int)
    &&& members.dom() == set![
        "traceId"@, "usageRequestId"@, "appType"@, "method"@, "path"@, "requestModel"@,
        "responseModel"@, "finalProviderId"@, "statusCode"@, "isStreaming"@, "attemptCount"@,
        "startedAt"@, "completedAt"@, "durationMs"@, "outcome"@, "partial"@, "droppedEventCount"@,
        "storedBytes"@,
    ]
}

/// The steps of a request stand under their names.
proof fn lemma_names_step(event: TraceEventRecord<Seq<char>, JsonView>)
    ensures
        event_json(event) is Object,
        names_step(event_json(event)->Object_0, event),
{
    reveal_strlit("eventId");
    reveal_strlit("sequence");
    reveal_strlit("occurredAt");
    reveal_strlit("offsetMs");
    reveal_strlit("stage");
    reveal_strlit("kind");
    reveal_strlit("attemptNo");
    reveal_strlit("providerId");
    reveal_strlit("statusCode");
    reveal_strlit("summary");
    reveal_strlit("payload");
    reveal_strlit("truncated");
    assert("eventId"@.len() == 7 && "sequence"@.len() == 8 && "occurredAt"@.len() == 10
        && "offsetMs"@.len() == 8 && "stage"@.len() == 5 && "kind"@.len() == 4
        && "attemptNo"@.len() == 9 && "providerId"@.len() == 10 && "statusCode"@.len() == 10
        && "summary"@.len() == 7 && "payload"@.len() == 7 && "truncated"@.len() == 9);
    assert("eventId"@[0] == 'e' && "sequence"@[0] == 's' && "occurredAt"@[0] == 'o'
        && "offsetMs"@[0] == 'o' && "attemptNo"@[0] == 'a' && "providerId"@[0] == 'p'
        && "statusCode"@[0] == 's' && "summary"@[0] == 's' && "payload"@[0] == 'p'
        && "truncated"@[0] == 't');
    let members = event_json(event)->Object_0;
    assert(members.dom() =~= set![
        "eventId"@, "sequence"@, "occurredAt"@, "offsetMs"@, "stage"@, "kind"@, "attemptNo"@,
        "providerId"@, "statusCode"@, "summary"@, "payload"@, "truncated"@,
    ]);
}

/// What a request is stands under its names.
proof fn lemma_names_request(trace: RequestTraceSummary<Seq<char>>)
    ensures
        trace_json(trace) is Object,
        names_request(trace_json(trace)->Object_0, trace),
{
    reveal_strlit("traceId");
    reveal_strlit("usageRequestId");
    reveal_strlit("appType");
    reveal_strlit("method");
    reveal_strlit("path");
    reveal_strlit("requestModel");
    reveal_strlit("responseModel");
    reveal_strlit("finalProviderId");
    reveal_strlit("statusCode");
    reveal_strlit("isStreaming");
    reveal_strlit("attemptCount");
    reveal_strlit("startedAt");
    reveal_strlit("completedAt");
    reveal_strlit("durationMs");
    reveal_strlit("outcome");
    reveal_strlit("partial");
    reveal_strlit("droppedEventCount");
    reveal_strlit("storedBytes");
    assert("traceId"@.len() == 7 && "usageRequestId"@.len() == 14 && "appType"@.len() == 7
        && "method"@.len() == 6 && "path"@.len() == 4 && "requestModel"@.len() == 12
        && "responseModel"@.len() == 13 && "finalProviderId"@.len() == 15 && "statusCode"@.len()
        == 10 && "isStreaming"@.len() == 11 && "attemptCount"@.len() == 12 && "startedAt"@.len()
        == 9 && "completedAt"@.len() == 11 && "durationMs"@.len() == 10 && "outcome"@.len() == 7
        && "partial"@.len() == 7 && "droppedEventCount"@.len() == 17 && "storedBytes"@.len() == 11);
    assert("traceId"@[0] == 't' && "appType"@[0] == 'a' && "requestModel"@[0] == 'r'
        && "statusCode"@[0] == 's' && "isStreaming"@[0] == 'i' && "attemptCount"@[0] == 'a'
        && "completedAt"@[0] == 'c' && "durationMs"@[0] == 'd' && "outcome"@[0] == 'o'
        && "partial"@[0] == 'p' && "storedBytes"@[0] == 's');
    let members = trace_json(trace)->Object_0;
    assert(members.dom() =~= set![
        "traceId"@, "usageRequestId"@, "appType"@, "method"@, "path"@, "requestModel"@,
        "responseModel"@, "finalProviderId"@, "statusCode"@, "isStreaming"@, "attemptCount"@,
        "startedAt"@, "completedAt"@, "durationMs"@, "outcome"@, "partial"@, "droppedEventCount"@,
        "storedBytes"@,
    ]);
}

/// Whether a text is one line of JSON that holds a request and its steps under their names, with
/// the version and the time of the export.
pub open spec fn holds_request(text: Seq<char>, now: i64, detail: DetailView) -> bool {
    &&& text.len() > 0
    &&& text.last() == '\n'
    &&& forall|i: int| 0 <= i < text.len() - 1 ==> #[trigger] text[i] != '\n'
    &&& json_parse(encode_utf8(text.drop_last())) matches Some(JsonView::Object(members))
    &&& is_number(members["schemaVersion"@], 1)
    &&& is_number(members["exportedAt"@], now as int)
    &&& members["trace"@] matches JsonView::Object(request)
    &&& names_request(request, detail.trace)
    &&& members["events"@] matches JsonView::Array(steps)
    &&& steps.len() == detail.events.len()
    &&& forall|i: int|
        0 <= i < steps.len() ==> (#[trigger] steps[i]) is Object && names_step(
            steps[i]->Object_0,
            detail.events[i],
        )
}

/// What is exported reads back: under each of its names the request, under each of theirs its
/// steps, in their order, and the version and the time of the export.
pub proof fn law_exports_hold_every_field(detail: RequestTraceDetail, now: i64, text: String)
    requires
        call_ensures(write_export, (&detail, now), Some(text)),
        forall|i: int| 0 <= i < detail@.events.len() ==> exportable(#[trigger] detail@.events[i]),
    ensures
        holds_request(text@, now, detail@),
{
    lemma_holds_request(detail@, now, text@);
}

proof fn lemma_holds_request(detail: DetailView, now: i64, text: Seq<char>)
    requires
        is_export(detail, 1, now, text),
        forall|i: int| 0 <= i < detail.events.len() ==> exportable(#[trigger] detail.events[i]),
    ensures
        holds_request(text, now, detail),
{
    law_export_reads_back(detail, 1, now, text);
    lemma_names_request(detail.trace);
    let steps = events_json(detail.events);
    assert forall|i: int| 0 <= i < steps.len() implies (#[trigger] steps[i]) is Object
        && names_step(steps[i]->Object_0, detail.events[i]) by {
        lemma_names_step(detail.events[i]);
    }
}

/// Whether this is what is exported of a request: what is shown of it, but that its path has
/// neither a query nor a fragment, and that its models and the summaries and payloads of its steps
/// are redacted.
pub open spec fn exports_request(shown: DetailView, written: DetailView) -> bool {
    &&& written.trace.trace_id == shown.trace.trace_id
    &&& written.trace.usage_request_id == shown.trace.usage_request_id
    &&& written.trace.app_type == shown.trace.app_type
    &&& written.trace.method == shown.trace.method
    &&& written.trace.path == safe_path(shown.trace.path)
    &&& written.trace.request_model is Some <==> shown.trace.request_model is Some
    &&& shown.trace.request_model matches Some(model) ==> written.trace.request_model == Some(
        redacted_text(model),
    )
    &&& written.trace.response_model is Some <==> shown.trace.response_model is Some
    &&& shown.trace.response_model matches Some(model) ==> written.trace.response_model == Some(
        redacted_text(model),
    )
    &&& written.trace.final_provider_id == shown.trace.final_provider_id
    &&& written.trace.status_code == shown.trace.status_code
    &&& written.trace.is_streaming == shown.trace.is_streaming
    &&& written.trace.attempt_count == shown.trace.attempt_count
    &&& written.trace.started_at == shown.trace.started_at
    &&& written.trace.completed_at == shown.trace.completed_at
    &&& written.trace.duration_ms == shown.trace.duration_ms
    &&& written.trace.outcome == shown.trace.outcome
    &&& written.trace.partial == shown.trace.partial
    &&& written.trace.dropped_event_count == shown.trace.dropped_event_count
    &&& written.trace.stored_bytes == shown.trace.stored_bytes
    &&& written.events.len() == shown.events.len()
    &&& forall|i: int|
        0 <= i < shown.events.len() ==> exports_step(
            #[trigger] shown.events[i],
            written.events[i],
        )
}

/// Whether this is what is exported of a step: what is shown of it, its summary and its payload
/// redacted.
pub open spec fn exports_step(
    shown: TraceEventRecord<Seq<char>, JsonView>,
    written: TraceEventRecord<Seq<char>, JsonView>,
) -> bool {
    &&& written.event_id == shown.event_id
    &&& written.sequence == shown.sequence
    &&& written.occurred_at == shown.occurred_at
    &&& written.offset_ms == shown.offset_ms
    &&& written.stage == shown.stage
    &&& written.kind == shown.kind
    &&& written.attempt_no == shown.attempt_no
    &&& written.provider_id == shown.provider_id
    &&& written.status_code == shown.status_code
    &&& written.summary is Some <==> shown.summary is Some
    &&& shown.summary matches Some(text) ==> written.summary == Some(redacted_text(text))
    &&& written.payload is Some <==> shown.payload is Some
    &&& shown.payload matches Some(value) ==> written.payload == Some(redacted(value))
    &&& written.truncated == shown.truncated
}

/// A request is made ready for export field by field.
pub proof fn law_exported_requests_keep_their_fields(
    patterns: &RedactionPatterns,
    detail: RequestTraceDetail,
    written: RequestTraceDetail,
)
    requires
        call_ensures(redact_detail, (patterns, detail), written),
    ensures
        exports_request(detail@, written@),
{
}

/// An export of a request that the log has is a line that holds what is shown of it, redacted once
/// more, field by field; of one that it does not have there is an error, and so there is where the
/// value has no JSON text, or where there is no service.
pub proof fn law_exports_are_of_what_is_shown(
    slot: &Option<DiagnosticLogService>,
    patterns: &RedactionPatterns,
    log: &LogStore,
    now: i64,
    id: String,
    result: Result<String, String>,
)
    requires
        call_ensures(export_diagnostic_trace_at, (slot, patterns, log, now, id), result),
    ensures
        *slot is None ==> result is Err && result->Err_0@
            == "Diagnostic log service is unavailable"@,
        *slot is Some && (forall|i: int|
            0 <= i < log@.traces.len() ==> (#[trigger] log@.traces[i]).trace_id != id@) ==> result
            is Err && result->Err_0@ == "Diagnostic trace was not found"@,
        *slot is Some && (exists|i: int|
            0 <= i < log@.traces.len() && (#[trigger] log@.traces[i]).trace_id == id@) ==> exists|
            shown: DetailView,
            written: DetailView,
        |
            #![trigger exports_request(shown, written)]
            {
                &&& shows_trace(log@, id@, Some(shown))
                &&& exports_request(shown, written)
                &&& result matches Ok(text) ==> (forall|i: int|
                    0 <= i < written.events.len() ==> exportable(#[trigger] written.events[i]))
                    ==> holds_request(text@, now, written)
                &&& result matches Err(error) ==> error@ == "value cannot be written as JSON"@
            },
{
    if *slot is Some {
        lemma_trace_of(log@.traces, id@);
        let shown = choose|shown: Option<DetailView>| #[trigger]
            shows_trace(log@, id@, shown) && match shown {
                Some(detail) => match result {
                    Ok(text) => is_export(exported(detail), SCHEMA_VERSION, now, text@),
                    Err(error) => json_bytes(
                        export_json(exported(detail), SCHEMA_VERSION, now),
                    ) is None && error@ == "value cannot be written as JSON"@,
                },
                None => result is Err && result->Err_0@ == "Diagnostic trace was not found"@,
            };
        if shown is Some {
            let detail = shown->0;
            let written = exported(detail);
            assert(exports_request(detail, written));
            if result is Ok && forall|i: int|
                0 <= i < written.events.len() ==> exportable(#[trigger] written.events[i]) {
                lemma_holds_request(written, now, result->Ok_0@);
            }
        }
    }
}

} // verus!
