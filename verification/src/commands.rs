//! What users of the program may ask of the log.
use crate::export::{export_json, is_export, write_export};
use crate::json::{json_bytes, JsonView};
use crate::maintenance::cleared;
use crate::outside::now_millis;
use crate::query::{answers_logs, answers_traces, optional_detail, shows_trace};
use crate::records::{
    optional_text, records_view, DetailView, DiagnosticLogHealth, RequestTraceDetail,
    RequestTraceSummary, RuntimeLogQuery, RuntimeLogRecord, TraceEventRecord, TraceQuery,
    WriteCommand,
};
use crate::redact::{redact_text, redact_value, redacted, redacted_text, RedactionPatterns};
use crate::schema::SCHEMA_VERSION;
use crate::service::{
    health_of, optional_tables, record_runtime_log, redacted_message, slot_enqueued, slot_view,
    DiagnosticLogService,
};
use crate::store::StoreError;
use crate::tables::{LogStore, Tables};
use crate::urls::{safe_path, strip_path};
use vstd::prelude::*;
use vstd::string::*;

verus! {

/// The error of every request where there is no service.
pub open spec fn unavailable<A>(result: Result<A, String>) -> bool {
    result is Err && result->Err_0@ == "Diagnostic log service is unavailable"@
}

/// The service, or an error where there is none.
pub fn service(slot: &Option<DiagnosticLogService>) -> (found: Result<
    &DiagnosticLogService,
    String,
>)
    ensures
        match slot {
            Some(held) => found is Ok && *found->Ok_0 == *held,
            None => unavailable(found),
        },
{
    match slot {
        Some(held) => Ok(held),
        None => Err("Diagnostic log service is unavailable".to_owned()),
    }
}

/// Lists the requests that a query asks for.
pub fn get_diagnostic_request_traces(
    slot: &Option<DiagnosticLogService>,
    log: &LogStore,
    query: TraceQuery,
) -> (result: Result<Vec<RequestTraceSummary>, String>)
    ensures
        match slot {
            Some(_) => answers_traces(log@, query, result),
            None => unavailable(result),
        },
{
    match service(slot) {
        Ok(held) => held.list_traces(log, &query),
        Err(error) => Err(error),
    }
}

/// Shows a request with its steps, if the log has it.
pub fn get_diagnostic_trace(
    slot: &Option<DiagnosticLogService>,
    log: &LogStore,
    trace_id: String,
) -> (result: Result<Option<RequestTraceDetail>, String>)
    ensures
        match slot {
            Some(_) => result is Ok && shows_trace(
                log@,
                trace_id@,
                optional_detail(result->Ok_0),
            ),
            None => unavailable(result),
        },
{
    match service(slot) {
        Ok(held) => Ok(held.get_trace(log, trace_id.as_str())),
        Err(error) => Err(error),
    }
}

/// Lists the messages that a query asks for.
pub fn get_diagnostic_runtime_logs(
    slot: &Option<DiagnosticLogService>,
    log: &LogStore,
    query: RuntimeLogQuery,
) -> (result: Result<Vec<RuntimeLogRecord>, String>)
    ensures
        match slot {
            Some(_) => answers_logs(log@, query, result),
            None => unavailable(result),
        },
{
    match service(slot) {
        Ok(held) => held.list_runtime_logs(log, &query),
        Err(error) => Err(error),
    }
}

/// Tells how the log is doing.
pub fn get_diagnostic_log_health(
    slot: &Option<DiagnosticLogService>,
    log: Option<&LogStore>,
    physical_bytes: Option<u64>,
) -> (result: Result<DiagnosticLogHealth, String>)
    ensures
        match slot {
            Some(held) => result is Ok && result->Ok_0@ == health_of(
                held@,
                optional_tables(log),
                physical_bytes,
            ),
            None => unavailable(result),
        },
{
    match service(slot) {
        Ok(held) => Ok(held.health(log, physical_bytes)),
        Err(error) => Err(error),
    }
}

/// Clears a category of the log.
pub fn clear_diagnostic_logs(
    slot: &Option<DiagnosticLogService>,
    log: &mut LogStore,
    kind: String,
) -> (result: Result<(), String>)
    ensures
        match slot {
            Some(_) => match cleared(old(log)@, kind@) {
                Some(tables) => result is Ok && final(log)@ == tables,
                None => result is Err && result->Err_0@ == "Unsupported diagnostic log category"@
                    && final(log)@ == old(log)@,
            },
            None => unavailable(result) && final(log)@ == old(log)@,
        },
{
    match service(slot) {
        Ok(held) => held.clear(log, kind.as_str()),
        Err(error) => Err(error),
    }
}

/// A step as it is exported: redacted once more.
pub open spec fn exported_event(event: TraceEventRecord<Seq<char>, JsonView>) -> TraceEventRecord<
    Seq<char>,
    JsonView,
> {
    TraceEventRecord {
        summary: optional_redacted(event.summary),
        payload: match event.payload {
            Some(value) => Some(redacted(value)),
            None => None,
        },
        ..event
    }
}

/// An optional text, redacted.
pub open spec fn optional_redacted(text: Option<Seq<char>>) -> Option<Seq<char>> {
    match text {
        Some(held) => Some(redacted_text(held)),
        None => None,
    }
}

/// A request as it is exported: its path and its models are redacted once more.
pub open spec fn exported_trace(trace: RequestTraceSummary<Seq<char>>) -> RequestTraceSummary<
    Seq<char>,
> {
    RequestTraceSummary {
        path: safe_path(trace.path),
        request_model: optional_redacted(trace.request_model),
        response_model: optional_redacted(trace.response_model),
        ..trace
    }
}

/// A request with its steps as it is exported: redacted once more.
pub open spec fn exported(detail: DetailView) -> DetailView {
    RequestTraceDetail {
        trace: exported_trace(detail.trace),
        events: detail.events.map_values(
            |event: TraceEventRecord<Seq<char>, JsonView>| exported_event(event),
        ),
    }
}

fn redact_optional(patterns: &RedactionPatterns, text: &Option<String>) -> (written: Option<String>)
    ensures
        optional_text(written) == optional_redacted(optional_text(*text)),
{
    match text {
        Some(held) => Some(redact_text(patterns, held.as_str())),
        None => None,
    }
}

/// Redacts the path and the models of a request once more.
fn redact_trace(patterns: &RedactionPatterns, trace: RequestTraceSummary) -> (written:
    RequestTraceSummary)
    ensures
        written@ == exported_trace(trace@),
{
    let path = strip_path(trace.path.as_str());
    let request_model = redact_optional(patterns, &trace.request_model);
    let response_model = redact_optional(patterns, &trace.response_model);
    RequestTraceSummary { path, request_model, response_model, ..trace }
}

/// Redacts a request with its steps once more.
pub fn redact_detail(patterns: &RedactionPatterns, detail: RequestTraceDetail) -> (written:
    RequestTraceDetail)
    ensures
        written@ == exported(detail@),
{
    let ghost events = detail.events@;
    let mut redacted_events: Vec<TraceEventRecord> = Vec::new();
    for event in iter: detail.events
        invariant
            iter.seq() == events,
            redacted_events.len() == iter.index(),
            forall|i: int|
                0 <= i < iter.index() ==> (#[trigger] redacted_events@[i])@ == exported_event(
                    events[i]@,
                ),
    {
        let summary = redact_optional(patterns, &event.summary);
        let payload = match &event.payload {
            Some(value) => Some(redact_value(patterns, value)),
            None => None,
        };
        redacted_events.push(TraceEventRecord { summary, payload, ..event });
    }
    let trace = redact_trace(patterns, detail.trace);
    let written = RequestTraceDetail { trace, events: redacted_events };
    assert(records_view(redacted_events@) =~= records_view(events).map_values(
        |event: TraceEventRecord<Seq<char>, JsonView>| exported_event(event),
    ));
    written
}

/// Whether this is what is exported at that time of the request of that identifier: one line of
/// JSON, or an error where there is no such request or it has no JSON text.
pub open spec fn exports_trace(
    log: Tables,
    id: Seq<char>,
    now: i64,
    result: Result<String, String>,
) -> bool {
    exists|shown: Option<DetailView>| #[trigger]
        shows_trace(log, id, shown) && match shown {
            Some(detail) => match result {
                Ok(text) => is_export(exported(detail), SCHEMA_VERSION, now, text@),
                Err(error) => json_bytes(export_json(exported(detail), SCHEMA_VERSION, now)) is None
                    && error@ == "value cannot be written as JSON"@,
            },
            None => result is Err && result->Err_0@ == "Diagnostic trace was not found"@,
        }
}

/// Exports a request with its steps at that time.
pub fn export_diagnostic_trace_at(
    slot: &Option<DiagnosticLogService>,
    patterns: &RedactionPatterns,
    log: &LogStore,
    now: i64,
    trace_id: String,
) -> (result: Result<String, String>)
    ensures
        match slot {
            Some(_) => exports_trace(log@, trace_id@, now, result),
            None => unavailable(result),
        },
{
    let held = match service(slot) {
        Ok(held) => held,
        Err(error) => {
            return Err(error);
        },
    };
    let shown = held.get_trace(log, trace_id.as_str());
    let ghost found = optional_detail(shown);
    assert(shows_trace(log@, trace_id@, found));
    match shown {
        Some(detail) => match write_export(&redact_detail(patterns, detail), now) {
            Some(text) => Ok(text),
            None => Err(StoreError::Json.message()),
        },
        None => Err("Diagnostic trace was not found".to_owned()),
    }
}

/// Exports a request with its steps.
pub fn export_diagnostic_trace(
    slot: &Option<DiagnosticLogService>,
    patterns: &RedactionPatterns,
    log: &LogStore,
    trace_id: String,
) -> (result: Result<String, String>)
    ensures
        match slot {
            Some(_) => exists|now: i64|
                now >= 0 && #[trigger] exports_trace(log@, trace_id@, now, result),
            None => unavailable(result),
        },
{
    let now = now_millis();
    export_diagnostic_trace_at(slot, patterns, log, now, trace_id)
}

/// Records a message of the user interface.
pub fn record_frontend_diagnostic_log(
    slot: &mut Option<DiagnosticLogService>,
    patterns: &RedactionPatterns,
    level: String,
    target: String,
    message: String,
) -> (result: Result<(), String>)
    ensures
        result is Ok,
        exists|now: i64|
            now >= 0 && slot_view(*final(slot)) == slot_enqueued(
                slot_view(*old(slot)),
                WriteCommand::Runtime(
                    #[trigger] redacted_message(now, level@, target@, message@, None),
                ),
            ),
{
    record_runtime_log(slot, patterns, level.as_str(), target.as_str(), message.as_str(), None);
    Ok(())
}

} // verus!
