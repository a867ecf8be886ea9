//! What users of the program get where there is a service and where there is none.
use crate::commands::{
    clear_diagnostic_logs, export_diagnostic_trace, exports_trace, get_diagnostic_log_health,
    get_diagnostic_request_traces, get_diagnostic_runtime_logs, get_diagnostic_trace,
    record_frontend_diagnostic_log,
};
use crate::json::Json;
use crate::query::{answers_logs, answers_traces, optional_detail, shows_trace};
use crate::record_laws::same_service;
use crate::records::{
    BeginTrace, DiagnosticLogHealth, LogCursor, RequestTraceDetail, RequestTraceSummary,
    RuntimeLogQuery, RuntimeLogRecord, TraceCursor, TraceQuery, WriteCommand,
};
use crate::redact::{redacted, redacted_text, RedactionPatterns};
use crate::service::{record_runtime_log, submit, submit_begin, DiagnosticLogService, ServiceView};
use crate::store::{CommandView, StoreError};
use crate::tables::LogStore;
use vstd::prelude::*;
use vstd::string::*;

verus! {

/// Whether a request was refused because there is no service.
pub open spec fn refused<A>(result: Result<A, String>) -> bool {
    result is Err && result->Err_0@ == "Diagnostic log service is unavailable"@
}

/// Where there is no service, everything that is asked of the log is refused, and nothing in it
/// changes; to record a message of the user interface changes nothing either, but is no error.
pub proof fn law_without_a_service(
    patterns: &RedactionPatterns,
    log: &LogStore,
    traces: TraceQuery,
    traces_result: Result<Vec<RequestTraceSummary>, String>,
    id: String,
    trace_result: Result<Option<RequestTraceDetail>, String>,
    logs: RuntimeLogQuery,
    logs_result: Result<Vec<RuntimeLogRecord>, String>,
    physical_bytes: Option<u64>,
    health_result: Result<DiagnosticLogHealth, String>,
    kind: String,
    store: &mut LogStore,
    clear_result: Result<(), String>,
    export_result: Result<String, String>,
    slot: &mut Option<DiagnosticLogService>,
    level: String,
    target: String,
    message: String,
    record_result: Result<(), String>,
)
    requires
        call_ensures(get_diagnostic_request_traces, (&None, log, traces), traces_result),
        call_ensures(get_diagnostic_trace, (&None, log, id), trace_result),
        call_ensures(get_diagnostic_runtime_logs, (&None, log, logs), logs_result),
        call_ensures(
            get_diagnostic_log_health,
            (&None, Some(log), physical_bytes),
            health_result,
        ),
        call_ensures(clear_diagnostic_logs, (&None, store, kind), clear_result),
        call_ensures(export_diagnostic_trace, (&None, patterns, log, id), export_result),
        call_ensures(
            record_frontend_diagnostic_log,
            (slot, patterns, level, target, message),
            record_result,
        ),
        *old(slot) is None,
    ensures
        refused(traces_result),
        refused(trace_result),
        refused(logs_result),
        refused(health_result),
        refused(clear_result),
        final(store)@ == old(store)@,
        refused(export_result),
        record_result is Ok,
        *final(slot) is None,
{
}

/// Where there is a service, lists, requests and messages are what the log answers, for the query
/// or the identifier that was given.
pub proof fn law_with_a_service(
    slot: &Option<DiagnosticLogService>,
    patterns: &RedactionPatterns,
    log: &LogStore,
    traces: TraceQuery,
    traces_result: Result<Vec<RequestTraceSummary>, String>,
    id: String,
    trace_result: Result<Option<RequestTraceDetail>, String>,
    logs: RuntimeLogQuery,
    logs_result: Result<Vec<RuntimeLogRecord>, String>,
    export_result: Result<String, String>,
)
    requires
        *slot is Some,
        call_ensures(get_diagnostic_request_traces, (slot, log, traces), traces_result),
        call_ensures(get_diagnostic_trace, (slot, log, id), trace_result),
        call_ensures(get_diagnostic_runtime_logs, (slot, log, logs), logs_result),
        call_ensures(export_diagnostic_trace, (slot, patterns, log, id), export_result),
    ensures
        answers_traces(log@, traces, traces_result),
        trace_result is Ok && shows_trace(log@, id@, optional_detail(trace_result->Ok_0)),
        answers_logs(log@, logs, logs_result),
        exists|now: i64| now >= 0 && #[trigger] exports_trace(log@, id@, now, export_result),
{
}

/// Health and clearing are those of the service.
pub proof fn law_health_and_clearing_of_the_service(
    service: DiagnosticLogService,
    log: Option<&LogStore>,
    physical_bytes: Option<u64>,
    health: DiagnosticLogHealth,
    health_result: Result<DiagnosticLogHealth, String>,
    kind: String,
    kind_text: &str,
    store: &mut LogStore,
    result: Result<(), String>,
    other: &mut LogStore,
    other_result: Result<(), String>,
)
    requires
        call_ensures(DiagnosticLogService::health, (&service, log, physical_bytes), health),
        call_ensures(
            get_diagnostic_log_health,
            (&Some(service), log, physical_bytes),
            health_result,
        ),
        call_ensures(clear_diagnostic_logs, (&Some(service), store, kind), result),
        call_ensures(DiagnosticLogService::clear, (&service, other, kind_text), other_result),
        kind_text@ == kind@,
        old(store)@ == old(other)@,
    ensures
        health_result is Ok && health_result->Ok_0@ == health@,
        result is Ok <==> other_result is Ok,
        result is Err ==> result->Err_0@ == other_result->Err_0@,
        final(store)@ == final(other)@,
{
}

/// Whether a command is a message that was recorded at a time: with its level in lower case, its
/// target, and its text and fields redacted.
pub open spec fn records_message(
    command: CommandView,
    level: Seq<char>,
    target: Seq<char>,
    message: Seq<char>,
    fields: Option<Json>,
) -> bool {
    command matches WriteCommand::Runtime(queued) && {
        &&& queued.occurred_at >= 0
        &&& queued.level.len() == level.len()
        &&& forall|i: int|
            0 <= i < level.len() ==> #[trigger] queued.level[i] == if 'A' <= level[i] <= 'Z' {
                (level[i] as u32 + 32) as char
            } else {
                level[i]
            }
        &&& queued.target == target
        &&& queued.message == redacted_text(message)
        &&& queued.fields is Some <==> fields is Some
        &&& fields matches Some(value) ==> queued.fields == Some(redacted(value@))
    }
}

/// Whether a command waits behind all others, and nothing else changed.
pub open spec fn waits_last(
    before: Option<DiagnosticLogService>,
    after: Option<DiagnosticLogService>,
) -> bool {
    &&& before is Some && after is Some
    &&& after->0@.queue.len() == before->0@.queue.len() + 1
    &&& after->0@.queue.drop_last() == before->0@.queue
    &&& after->0@ == (ServiceView { queue: after->0@.queue, ..before->0@ })
}

/// A message that is recorded where fewer than 4096 commands wait for a writer waits behind them,
/// as it was recorded; so does one of the user interface, which has no fields.
pub proof fn law_recorded_messages_wait(
    slot: &mut Option<DiagnosticLogService>,
    other: &mut Option<DiagnosticLogService>,
    patterns: &RedactionPatterns,
    level: &str,
    target: &str,
    message: &str,
    fields: Option<Json>,
    shown_level: String,
    shown_target: String,
    shown_message: String,
    result: Result<(), String>,
)
    requires
        call_ensures(record_runtime_log, (slot, patterns, level, target, message, fields), ()),
        call_ensures(
            record_frontend_diagnostic_log,
            (other, patterns, shown_level, shown_target, shown_message),
            result,
        ),
        *old(slot) matches Some(service) && service@.connected && service@.queue.len() < 4096,
        *old(other) matches Some(service) && service@.connected && service@.queue.len() < 4096,
    ensures
        waits_last(*old(slot), *final(slot)),
        records_message(
            (*final(slot))->0@.queue.last(),
            level@,
            target@,
            message@,
            fields,
        ),
        result is Ok,
        waits_last(*old(other), *final(other)),
        records_message(
            (*final(other))->0@.queue.last(),
            shown_level@,
            shown_target@,
            shown_message@,
            None,
        ),
{
    let queue = (*old(slot))->0@.queue;
    let after = (*final(slot))->0@.queue;
    assert(after == queue.push(after.last()));
    assert(after.drop_last() =~= queue);
    let queue = (*old(other))->0@.queue;
    let after = (*final(other))->0@.queue;
    assert(after == queue.push(after.last()));
    assert(after.drop_last() =~= queue);
}

/// To hand a command to the service is to have it wait as the service has commands wait; where
/// there is no service nothing happens.
pub proof fn law_submitted_commands(
    slot: &mut Option<DiagnosticLogService>,
    command: WriteCommand,
    service: &mut DiagnosticLogService,
    begun: &mut Option<DiagnosticLogService>,
    recorded: BeginTrace,
    given: Option<String>,
    id: String,
    other: &mut DiagnosticLogService,
)
    requires
        call_ensures(submit, (slot, command), ()),
        call_ensures(DiagnosticLogService::enqueue, (service, command), ()),
        same_service(*old(slot), *old(service)) || *old(slot) is None,
        call_ensures(submit_begin, (begun, recorded), given),
        call_ensures(
            DiagnosticLogService::enqueue,
            (other, WriteCommand::Begin { trace_id: id, input: recorded }),
            (),
        ),
        same_service(*old(begun), *old(other)) || *old(begun) is None,
        given matches Some(text) ==> text@ == id@,
    ensures
        *old(slot) is Some ==> same_service(*final(slot), *final(service)),
        *old(slot) is None ==> *final(slot) is None,
        *old(begun) is Some ==> given is Some && same_service(*final(begun), *final(other)),
        *old(begun) is None ==> given is None && *final(begun) is None,
{
}

/// A service that has started is connected, has nothing to write, has dropped nothing and knows of
/// no error.
pub proof fn law_started_services(path: String, service: DiagnosticLogService)
    requires
        call_ensures(DiagnosticLogService::start, (path,), service),
    ensures
        service@.db_path == path@,
        service@.queue.len() == 0,
        service@.connected,
        service@.dropped_events == 0,
        forall|id: Seq<char>| !#[trigger] service@.dropped_by_trace.contains_key(id),
        service@.last_error is None,
{
}

/// What a service says of itself, and what changes when an error is noted or forgotten, the writer
/// is gone, or a count of dropped commands is taken.
pub proof fn law_service_calls(
    service: DiagnosticLogService,
    path: &str,
    waiting: bool,
    noted: &mut DiagnosticLogService,
    error: String,
    forgot: &mut DiagnosticLogService,
    gone: &mut DiagnosticLogService,
    counted: &mut DiagnosticLogService,
    id: &str,
    dropped: u64,
)
    requires
        call_ensures(DiagnosticLogService::db_path, (&service,), path),
        call_ensures(DiagnosticLogService::has_work, (&service,), waiting),
        call_ensures(DiagnosticLogService::set_error, (noted, error), ()),
        call_ensures(DiagnosticLogService::clear_error, (forgot,), ()),
        call_ensures(DiagnosticLogService::disconnect, (gone,), ()),
        call_ensures(DiagnosticLogService::take_dropped_for_trace, (counted, id), dropped),
    ensures
        path@ == service@.db_path,
        waiting == (service@.queue.len() > 0),
        final(noted)@ == (ServiceView { last_error: Some(error@), ..old(noted)@ }),
        final(forgot)@ == (ServiceView { last_error: None, ..old(forgot)@ }),
        final(gone)@ == (ServiceView { connected: false, queue: Seq::empty(), ..old(gone)@ }),
        old(counted)@.dropped_by_trace.contains_key(id@) ==> dropped == old(
            counted,
        )@.dropped_by_trace[id@],
        !old(counted)@.dropped_by_trace.contains_key(id@) ==> dropped == 0,
        final(counted)@ == (ServiceView {
            dropped_by_trace: old(counted)@.dropped_by_trace.remove(id@),
            ..old(counted)@
        }),
{
}

/// The request that a command is about is the one that it names; a message is about none. The place
/// behind an entry of a list is given by its time and its identifier.
pub proof fn law_what_commands_and_entries_name(
    command: WriteCommand,
    id: Option<&str>,
    summary: RequestTraceSummary,
    cursor: TraceCursor,
    record: RuntimeLogRecord,
    log_cursor: LogCursor,
)
    requires
        call_ensures(WriteCommand::trace_id, (&command,), id),
        call_ensures(RequestTraceSummary::cursor, (&summary,), cursor),
        call_ensures(RuntimeLogRecord::cursor, (&record,), log_cursor),
    ensures
        command matches WriteCommand::Begin { trace_id, .. } ==> id is Some && id->0@ == trace_id@,
        command matches WriteCommand::Event(event) ==> id is Some && id->0@ == event.trace_id@,
        command matches WriteCommand::Complete(end) ==> id is Some && id->0@ == end.trace_id@,
        command is Runtime ==> id is None,
        cursor.started_at == summary.started_at,
        cursor.trace_id@ == summary.trace_id@,
        log_cursor.occurred_at == record.occurred_at,
        log_cursor.log_id == record.log_id,
{
}

/// What errors of the log are in words.
pub proof fn law_errors_in_words(error: StoreError, text: String)
    requires
        call_ensures(StoreError::message, (&error,), text),
    ensures
        error == StoreError::Json ==> text@ == "value cannot be written as JSON"@,
        error == StoreError::Full ==> text@ == "database or disk is full"@,
        error == StoreError::Overflow ==> text@ == "integer overflow"@,
{
}

} // verus!
