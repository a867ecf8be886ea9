//! What texts, values, records and rows are in contracts, field by field.
use crate::json::{items_view, json_view, members_view, optional_json, Json, JsonView};
use crate::payload::EncodedPayload;
use crate::query::{logs_view, optional_detail, summaries_view};
use crate::records::{
    optional_text, BeginTrace, CompleteTrace, DiagnosticLogHealth, RequestTraceDetail,
    RequestTraceSummary, RuntimeLogInput, RuntimeLogRecord, TraceEventInput, TraceEventRecord,
    WriteCommand,
};
use crate::service::{optional_tables, slot_view, DiagnosticLogService};
use crate::store::{commands_view, outcomes_view, Outcome};
use crate::tables::{EventRow, LogStore, PayloadRow, RuntimeRow, TraceRow};
use crate::writer::{Writer, WriterEvent};
use vstd::prelude::*;

verus! {

/// An optional text is there where it is held, and holds its characters; so with an optional value.
pub proof fn law_optional_values(text: Option<String>, value: Option<Json>)
    ensures
        optional_text(text) is Some <==> text is Some,
        text matches Some(held) ==> optional_text(text) == Some(held@),
        optional_json(value) is Some <==> value is Some,
        value matches Some(held) ==> optional_json(value) == Some(held@),
{
}

/// A JSON value is what is held: a text its characters, an array its items in their order, and an
/// object under each name what is last held under it, and nothing under other names.
pub proof fn law_json_values(value: Json, i: int, name: Seq<char>)
    ensures
        value is Null ==> value@ is Null,
        value matches Json::Bool(flag) ==> value@ == JsonView::Bool(flag),
        value matches Json::Number(number) ==> value@ == JsonView::Number(number),
        value matches Json::Str(text) ==> value@ == JsonView::Str(text@),
        value matches Json::Array(items) ==> value@ is Array && value@->Array_0.len()
            == items@.len() && (0 <= i < items@.len() ==> value@->Array_0[i] == items@[i]@),
        value matches Json::Object(members) ==> value@ is Object && {
            &&& (forall|j: int| 0 <= j < members@.len() ==> (#[trigger] members@[j]).0@ != name)
                ==> !value@->Object_0.contains_key(name)
            &&& 0 <= i < members@.len() && members@[i].0@ == name && (forall|j: int|
                i < j < members@.len() ==> (#[trigger] members@[j]).0@ != name)
                ==> value@->Object_0.contains_key(name) && value@->Object_0[name]
                == members@[i].1@
        },
{
    match value {
        Json::Array(items) => {
            assert(value@ == JsonView::Array(items_view(items@)));
            if 0 <= i < items@.len() {
                assert(items_view(items@)[i] == json_view(items@[i]));
            }
        },
        Json::Object(members) => {
            assert(value@ == JsonView::Object(members_view(members@)));
            lemma_member(members@, i, name);
        },
        _ => {},
    }
}

proof fn lemma_member(members: Seq<(String, Json)>, i: int, name: Seq<char>)
    ensures
        (forall|j: int| 0 <= j < members.len() ==> (#[trigger] members[j]).0@ != name)
            ==> !members_view(members).contains_key(name),
        0 <= i < members.len() && members[i].0@ == name && (forall|j: int|
            i < j < members.len() ==> (#[trigger] members[j]).0@ != name) ==> members_view(
            members,
        ).contains_key(name) && members_view(members)[name] == members[i].1@,
    decreases members.len(),
{
    if members.len() > 0 {
        let before = members.drop_last();
        lemma_member(before, i, name);
        if forall|j: int| 0 <= j < members.len() ==> (#[trigger] members[j]).0@ != name {
            assert forall|j: int| 0 <= j < before.len() implies (#[trigger] before[j]).0@
                != name by {
                assert(before[j] == members[j]);
            }
            assert(members[members.len() - 1].0@ != name);
        }
        if 0 <= i < members.len() - 1 && members[i].0@ == name && (forall|j: int|
            i < j < members.len() ==> (#[trigger] members[j]).0@ != name) {
            assert(members[members.len() - 1].0@ != name);
            assert forall|j: int| i < j < before.len() implies (#[trigger] before[j]).0@
                != name by {
                assert(before[j] == members[j]);
            }
            assert(before[i] == members[i]);
        }
    }
}

/// What is shown of a request is what its fields hold.
pub proof fn law_summaries_by_field(held: RequestTraceSummary)
    ensures
        held@.trace_id == held.trace_id@,
        held@.usage_request_id is Some <==> held.usage_request_id is Some,
        held.usage_request_id matches Some(inner) ==> held@.usage_request_id == Some(inner@),
        held@.app_type == held.app_type@,
        held@.method == held.method@,
        held@.path == held.path@,
        held@.request_model is Some <==> held.request_model is Some,
        held.request_model matches Some(inner) ==> held@.request_model == Some(inner@),
        held@.response_model is Some <==> held.response_model is Some,
        held.response_model matches Some(inner) ==> held@.response_model == Some(inner@),
        held@.final_provider_id is Some <==> held.final_provider_id is Some,
        held.final_provider_id matches Some(inner) ==> held@.final_provider_id == Some(inner@),
        held@.status_code == held.status_code,
        held@.is_streaming == held.is_streaming,
        held@.attempt_count == held.attempt_count,
        held@.started_at == held.started_at,
        held@.completed_at == held.completed_at,
        held@.duration_ms == held.duration_ms,
        held@.outcome == held.outcome@,
        held@.partial == held.partial,
        held@.dropped_event_count == held.dropped_event_count,
        held@.stored_bytes == held.stored_bytes,
{
}

/// What is shown of a step is what its fields hold.
pub proof fn law_step_records_by_field(held: TraceEventRecord)
    ensures
        held@.event_id == held.event_id,
        held@.sequence == held.sequence,
        held@.occurred_at == held.occurred_at,
        held@.offset_ms == held.offset_ms,
        held@.stage == held.stage@,
        held@.kind == held.kind@,
        held@.attempt_no == held.attempt_no,
        held@.provider_id is Some <==> held.provider_id is Some,
        held.provider_id matches Some(inner) ==> held@.provider_id == Some(inner@),
        held@.status_code == held.status_code,
        held@.summary is Some <==> held.summary is Some,
        held.summary matches Some(inner) ==> held@.summary == Some(inner@),
        held@.payload is Some <==> held.payload is Some,
        held.payload matches Some(inner) ==> held@.payload == Some(inner@),
        held@.truncated == held.truncated,
{
}

/// What is shown of a message is what its fields hold.
pub proof fn law_message_records_by_field(held: RuntimeLogRecord)
    ensures
        held@.log_id == held.log_id,
        held@.occurred_at == held.occurred_at,
        held@.level == held.level@,
        held@.target == held.target@,
        held@.message == held.message@,
        held@.fields is Some <==> held.fields is Some,
        held.fields matches Some(inner) ==> held@.fields == Some(inner@),
{
}

/// How the log is doing is what the fields hold.
pub proof fn law_health_by_field(held: DiagnosticLogHealth)
    ensures
        held@.available == held.available,
        held@.error is Some <==> held.error is Some,
        held.error matches Some(inner) ==> held@.error == Some(inner@),
        held@.db_path == held.db_path@,
        held@.retention_days == held.retention_days,
        held@.request_bytes == held.request_bytes,
        held@.runtime_bytes == held.runtime_bytes,
        held@.physical_bytes == held.physical_bytes,
        held@.dropped_events == held.dropped_events,
{
}

/// The start of a request is what its fields hold.
pub proof fn law_starts_by_field(held: BeginTrace)
    ensures
        held@.app_type == held.app_type@,
        held@.method == held.method@,
        held@.path == held.path@,
        held@.request_model is Some <==> held.request_model is Some,
        held.request_model matches Some(inner) ==> held@.request_model == Some(inner@),
        held@.provider_id is Some <==> held.provider_id is Some,
        held.provider_id matches Some(inner) ==> held@.provider_id == Some(inner@),
        held@.is_streaming == held.is_streaming,
        held@.headers == held.headers@,
        held@.body == held.body@,
{
}

/// A step to be recorded is what its fields hold.
pub proof fn law_steps_by_field(held: TraceEventInput)
    ensures
        held@.trace_id == held.trace_id@,
        held@.offset_ms == held.offset_ms,
        held@.stage == held.stage@,
        held@.kind == held.kind@,
        held@.attempt_no == held.attempt_no,
        held@.provider_id is Some <==> held.provider_id is Some,
        held.provider_id matches Some(inner) ==> held@.provider_id == Some(inner@),
        held@.status_code == held.status_code,
        held@.summary is Some <==> held.summary is Some,
        held.summary matches Some(inner) ==> held@.summary == Some(inner@),
        held@.payload is Some <==> held.payload is Some,
        held.payload matches Some(inner) ==> held@.payload == Some(inner@),
{
}

/// The end of a request is what its fields hold.
pub proof fn law_ends_by_field(held: CompleteTrace)
    ensures
        held@.trace_id == held.trace_id@,
        held@.usage_request_id is Some <==> held.usage_request_id is Some,
        held.usage_request_id matches Some(inner) ==> held@.usage_request_id == Some(inner@),
        held@.response_model is Some <==> held.response_model is Some,
        held.response_model matches Some(inner) ==> held@.response_model == Some(inner@),
        held@.final_provider_id is Some <==> held.final_provider_id is Some,
        held.final_provider_id matches Some(inner) ==> held@.final_provider_id == Some(inner@),
        held@.status_code == held.status_code,
        held@.duration_ms == held.duration_ms,
        held@.outcome == held.outcome@,
        held@.dropped_event_count == held.dropped_event_count,
{
}

/// A message to be recorded is what its fields hold.
pub proof fn law_messages_by_field(held: RuntimeLogInput)
    ensures
        held@.occurred_at == held.occurred_at,
        held@.level == held.level@,
        held@.target == held.target@,
        held@.message == held.message@,
        held@.fields is Some <==> held.fields is Some,
        held.fields matches Some(inner) ==> held@.fields == Some(inner@),
{
}

/// The row of a request is what its columns hold.
pub proof fn law_request_rows_by_column(held: TraceRow)
    ensures
        held@.trace_id == held.trace_id@,
        held@.usage_request_id is Some <==> held.usage_request_id is Some,
        held.usage_request_id matches Some(inner) ==> held@.usage_request_id == Some(inner@),
        held@.app_type == held.app_type@,
        held@.method == held.method@,
        held@.path == held.path@,
        held@.request_model is Some <==> held.request_model is Some,
        held.request_model matches Some(inner) ==> held@.request_model == Some(inner@),
        held@.response_model is Some <==> held.response_model is Some,
        held.response_model matches Some(inner) ==> held@.response_model == Some(inner@),
        held@.final_provider_id is Some <==> held.final_provider_id is Some,
        held.final_provider_id matches Some(inner) ==> held@.final_provider_id == Some(inner@),
        held@.status_code == held.status_code,
        held@.is_streaming == held.is_streaming,
        held@.attempt_count == held.attempt_count,
        held@.started_at == held.started_at,
        held@.completed_at == held.completed_at,
        held@.duration_ms == held.duration_ms,
        held@.outcome == held.outcome@,
        held@.partial == held.partial,
        held@.dropped_event_count == held.dropped_event_count,
        held@.stored_bytes == held.stored_bytes,
{
}

/// The row of a step is what its columns hold.
pub proof fn law_step_rows_by_column(held: EventRow)
    ensures
        held@.event_id == held.event_id,
        held@.trace_id == held.trace_id@,
        held@.sequence == held.sequence,
        held@.occurred_at == held.occurred_at,
        held@.offset_ms == held.offset_ms,
        held@.stage == held.stage@,
        held@.kind == held.kind@,
        held@.attempt_no == held.attempt_no,
        held@.provider_id is Some <==> held.provider_id is Some,
        held.provider_id matches Some(inner) ==> held@.provider_id == Some(inner@),
        held@.status_code == held.status_code,
        held@.summary is Some <==> held.summary is Some,
        held.summary matches Some(inner) ==> held@.summary == Some(inner@),
        held@.payload_id == held.payload_id,
{
}

/// The row of a payload is what its columns hold.
pub proof fn law_payload_rows_by_column(held: PayloadRow)
    ensures
        held@.payload_id == held.payload_id,
        held@.content_type == held.content_type@,
        held@.encoding == held.encoding@,
        held@.body == held.body@,
        held@.original_bytes == held.original_bytes,
        held@.stored_bytes == held.stored_bytes,
        held@.sha256 == held.sha256@,
        held@.truncated == held.truncated,
{
}

/// The row of a message is what its columns hold.
pub proof fn law_message_rows_by_column(held: RuntimeRow)
    ensures
        held@.log_id == held.log_id,
        held@.occurred_at == held.occurred_at,
        held@.level == held.level@,
        held@.target == held.target@,
        held@.message == held.message@,
        held@.fields_json is Some <==> held.fields_json is Some,
        held.fields_json matches Some(inner) ==> held@.fields_json == Some(inner@),
        held@.stored_bytes == held.stored_bytes,
{
}

/// A payload to be stored is what its fields hold.
pub proof fn law_payloads_by_field(held: EncodedPayload<String, Vec<u8>>)
    ensures
        held@.encoding == held.encoding@,
        held@.body == held.body@,
        held@.original_bytes == held.original_bytes,
        held@.stored_bytes == held.stored_bytes,
        held@.sha256 == held.sha256@,
        held@.truncated == held.truncated,
{
}

/// A command is one of its kind about the same request with the same contents.
pub proof fn law_commands_by_field(held: WriteCommand)
    ensures
        held matches WriteCommand::Begin { trace_id, input } ==> held@ == (WriteCommand::<
            Seq<char>,
            JsonView,
        >::Begin { trace_id: trace_id@, input: input@ }),
        held matches WriteCommand::Event(event) ==> held@ == WriteCommand::<
            Seq<char>,
            JsonView,
        >::Event(event@),
        held matches WriteCommand::Complete(end) ==> held@ == WriteCommand::<
            Seq<char>,
            JsonView,
        >::Complete(end@),
        held matches WriteCommand::Runtime(input) ==> held@ == WriteCommand::<
            Seq<char>,
            JsonView,
        >::Runtime(input@),
{
}

/// A request with its steps is that request and these steps, in their order.
pub proof fn law_details_by_field(held: RequestTraceDetail, i: int)
    ensures
        held@.trace == held.trace@,
        held@.events.len() == held.events@.len(),
        0 <= i < held.events@.len() ==> held@.events[i] == held.events@[i]@,
        optional_detail(Some(held)) == Some(held@),
        optional_detail(None) is None,
{
}

/// A log is its rows, in their order, and the last identifiers that were given.
pub proof fn law_logs_by_row(held: LogStore, i: int)
    ensures
        held@.traces.len() == held.traces@.len(),
        0 <= i < held.traces@.len() ==> held@.traces[i] == held.traces@[i]@,
        held@.events.len() == held.events@.len(),
        0 <= i < held.events@.len() ==> held@.events[i] == held.events@[i]@,
        held@.payloads.len() == held.payloads@.len(),
        0 <= i < held.payloads@.len() ==> held@.payloads[i] == held.payloads@[i]@,
        held@.runtime_logs.len() == held.runtime_logs@.len(),
        0 <= i < held.runtime_logs@.len() ==> held@.runtime_logs[i] == held.runtime_logs@[i]@,
        held@.last_event_id == held.last_event_id,
        held@.last_payload_id == held.last_payload_id,
        held@.last_log_id == held.last_log_id,
{
}

/// Lists are what they hold, in their order.
pub proof fn law_lists_by_item(
    commands: Seq<WriteCommand>,
    outcomes: Seq<Outcome>,
    summaries: Seq<RequestTraceSummary>,
    logs: Seq<RuntimeLogRecord>,
    i: int,
)
    ensures
        commands_view(commands).len() == commands.len(),
        0 <= i < commands.len() ==> commands_view(commands)[i] == commands[i]@,
        outcomes_view(outcomes).len() == outcomes.len(),
        0 <= i < outcomes.len() ==> outcomes_view(outcomes)[i] == outcomes[i]@,
        summaries_view(summaries).len() == summaries.len(),
        0 <= i < summaries.len() ==> summaries_view(summaries)[i] == summaries[i]@,
        logs_view(logs).len() == logs.len(),
        0 <= i < logs.len() ==> logs_view(logs)[i] == logs[i]@,
{
}

/// What a command needs from outside the log is what the fields hold.
pub proof fn law_outcomes_by_field(held: Outcome)
    ensures
        held@.at == held.at,
        held@.event_at == held.event_at,
        held@.reply is Some <==> held.reply is Some,
        held.reply matches Some(reply) ==> (held@.reply->0 is Some <==> reply is Some) && (
        reply matches Some(stored) ==> held@.reply->0 == Some(stored@)),
        held@.fields is Some <==> held.fields is Some,
        held.fields matches Some(text) ==> held@.fields == Some(text@),
{
}

/// A writer is what its fields hold.
pub proof fn law_writers_by_field(held: Writer, i: int)
    ensures
        held@.opened == held.opened,
        held@.batch.len() == held.batch@.len(),
        0 <= i < held.batch@.len() ==> held@.batch[i] == held.batch@[i]@,
        held@.retry_millis == held.retry_millis,
        held@.last_maintenance == held.last_maintenance,
{
}

/// What happened is what it is, with the error that it brought.
pub proof fn law_writer_events_by_kind(held: WriterEvent)
    ensures
        held is TimedOut ==> held@ is TimedOut,
        held is Ready ==> held@ is Ready,
        held is Disconnected ==> held@ is Disconnected,
        held is RetryDue ==> held@ is RetryDue,
        held matches WriterEvent::Opened(Ok(_)) ==> held@ matches WriterEvent::Opened(Ok(_)),
        held matches WriterEvent::Opened(Err(error)) ==> held@ == WriterEvent::Opened(Err(error@)),
        held matches WriterEvent::Written(Ok(_)) ==> held@ matches WriterEvent::Written(Ok(_)),
        held matches WriterEvent::Written(Err(error)) ==> held@ == WriterEvent::Written(
            Err(error@),
        ),
        held matches WriterEvent::Maintained(Ok(_)) ==> held@ matches WriterEvent::Maintained(
            Ok(_),
        ),
        held matches WriterEvent::Maintained(Err(error)) ==> held@ == WriterEvent::Maintained(
            Err(error@),
        ),
{
}

/// A service that may be missing, and a log that may be, is what it is where it is there.
pub proof fn law_optional_services(slot: Option<DiagnosticLogService>, log: Option<&LogStore>)
    ensures
        slot_view(slot) is Some <==> slot is Some,
        slot matches Some(service) ==> slot_view(slot) == Some(service@),
        optional_tables(log) is Some <==> log is Some,
        log matches Some(store) ==> optional_tables(log) == Some(store@),
{
}

} // verus!
