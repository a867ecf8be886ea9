//! The text that requests are exported as: one line of JSON each.
use crate::json::{
    in_range, items_view, json_bytes, json_parse, members_view, nested_within, number_of,
    optional_json, reads_back, whole_number, whole_numbers, Json, JsonView,
};
use crate::records::{
    optional_text, DetailView, RequestTraceDetail, RequestTraceSummary, TraceEventRecord,
};
use crate::schema::SCHEMA_VERSION;
use vstd::prelude::*;
use vstd::string::*;
use vstd::utf8::encode_utf8;

verus! {

/// A whole number as JSON.
pub open spec fn number_json(number: int) -> JsonView {
    JsonView::Number(whole_number(number))
}

/// An optional whole number as JSON.
pub open spec fn optional_number(number: Option<int>) -> JsonView {
    match number {
        Some(held) => number_json(held),
        None => JsonView::Null,
    }
}

/// An optional text as JSON.
pub open spec fn optional_str(text: Option<Seq<char>>) -> JsonView {
    match text {
        Some(held) => JsonView::Str(held),
        None => JsonView::Null,
    }
}

/// An optional value as JSON.
pub open spec fn optional_value(value: Option<JsonView>) -> JsonView {
    match value {
        Some(held) => held,
        None => JsonView::Null,
    }
}

/// The integer that an optional number is.
pub open spec fn as_integer<N: Integer>(number: Option<N>) -> Option<int> {
    match number {
        Some(held) => Some(held as int),
        None => None,
    }
}

/// A request as JSON.
pub open spec fn trace_json(trace: RequestTraceSummary<Seq<char>>) -> JsonView {
    JsonView::Object(
        Map::empty().insert("traceId"@, JsonView::Str(trace.trace_id)).insert(
            "usageRequestId"@,
            optional_str(trace.usage_request_id),
        ).insert("appType"@, JsonView::Str(trace.app_type)).insert(
            "method"@,
            JsonView::Str(trace.method),
        ).insert("path"@, JsonView::Str(trace.path)).insert(
            "requestModel"@,
            optional_str(trace.request_model),
        ).insert("responseModel"@, optional_str(trace.response_model)).insert(
            "finalProviderId"@,
            optional_str(trace.final_provider_id),
        ).insert("statusCode"@, optional_number(as_integer(trace.status_code))).insert(
            "isStreaming"@,
            JsonView::Bool(trace.is_streaming),
        ).insert("attemptCount"@, number_json(trace.attempt_count as int)).insert(
            "startedAt"@,
            number_json(trace.started_at as int),
        ).insert("completedAt"@, optional_number(as_integer(trace.completed_at))).insert(
            "durationMs"@,
            optional_number(as_integer(trace.duration_ms)),
        ).insert("outcome"@, JsonView::Str(trace.outcome)).insert(
            "partial"@,
            JsonView::Bool(trace.partial),
        ).insert("droppedEventCount"@, number_json(trace.dropped_event_count as int)).insert(
            "storedBytes"@,
            number_json(trace.stored_bytes as int),
        ),
    )
}

/// A step as JSON.
pub open spec fn event_json(event: TraceEventRecord<Seq<char>, JsonView>) -> JsonView {
    JsonView::Object(
        Map::empty().insert("eventId"@, number_json(event.event_id as int)).insert(
            "sequence"@,
            number_json(event.sequence as int),
        ).insert("occurredAt"@, number_json(event.occurred_at as int)).insert(
            "offsetMs"@,
            number_json(event.offset_ms as int),
        ).insert("stage"@, JsonView::Str(event.stage)).insert(
            "kind"@,
            JsonView::Str(event.kind),
        ).insert("attemptNo"@, optional_number(as_integer(event.attempt_no))).insert(
            "providerId"@,
            optional_str(event.provider_id),
        ).insert("statusCode"@, optional_number(as_integer(event.status_code))).insert(
            "summary"@,
            optional_str(event.summary),
        ).insert("payload"@, optional_value(event.payload)).insert(
            "truncated"@,
            JsonView::Bool(event.truncated),
        ),
    )
}

/// Steps as JSON.
pub open spec fn events_json(events: Seq<TraceEventRecord<Seq<char>, JsonView>>) -> Seq<JsonView> {
    events.map_values(|event: TraceEventRecord<Seq<char>, JsonView>| event_json(event))
}

/// A request with its steps as JSON, with the version of the schema and the time of the export.
pub open spec fn export_json(detail: DetailView, version: i32, now: i64) -> JsonView {
    JsonView::Object(
        Map::empty().insert("schemaVersion"@, number_json(version as int)).insert(
            "exportedAt"@,
            number_json(now as int),
        ).insert("trace"@, trace_json(detail.trace)).insert(
            "events"@,
            JsonView::Array(events_json(detail.events)),
        ),
    )
}

/// Whether a text is one line, with its end.
pub open spec fn one_line(text: Seq<char>) -> bool {
    &&& text.len() > 0
    &&& text.last() == '\n'
    &&& forall|i: int| 0 <= i < text.len() - 1 ==> #[trigger] text[i] != '\n'
}

/// Whether a text is the line that a request with its steps is exported as.
pub open spec fn is_export(detail: DetailView, version: i32, now: i64, text: Seq<char>) -> bool {
    &&& one_line(text)
    &&& json_bytes(export_json(detail, version, now)) == Some(encode_utf8(text.drop_last()))
    &&& reads_back(export_json(detail, version, now)) ==> json_parse(encode_utf8(text.drop_last()))
        == Some(export_json(detail, version, now))
}

/// Adds a member to those of an object.
fn push_member(members: &mut Vec<(String, Json)>, name: &str, value: Json)
    ensures
        members_view(final(members)@) == members_view(old(members)@).insert(name@, value@),
{
    let ghost before = members@;
    members.push((name.to_owned(), value));
    assert(members@.drop_last() == before);
}

fn write_number(number: Option<i128>) -> (json: Json)
    requires
        number matches Some(held) ==> i64::MIN <= held <= u64::MAX,
    ensures
        json@ == optional_number(as_integer(number)),
{
    match number {
        Some(held) => Json::Number(number_of(held)),
        None => Json::Null,
    }
}

fn write_str(text: &Option<String>) -> (json: Json)
    ensures
        json@ == optional_str(optional_text(*text)),
{
    match text {
        Some(held) => Json::Str(held.clone()),
        None => Json::Null,
    }
}

fn write_value(value: &Option<Json>) -> (json: Json)
    ensures
        json@ == optional_value(optional_json(*value)),
{
    match value {
        Some(held) => held.duplicate(),
        None => Json::Null,
    }
}

fn no_members() -> (members: Vec<(String, Json)>)
    ensures
        members_view(members@) == Map::<Seq<char>, JsonView>::empty(),
{
    Vec::new()
}

/// Writes a request as JSON.
fn write_trace(trace: &RequestTraceSummary) -> (json: Json)
    ensures
        json@ == trace_json(trace@),
{
    let status: Option<i128> = match trace.status_code {
        Some(code) => Some(code as i128),
        None => None,
    };
    let completed: Option<i128> = match trace.completed_at {
        Some(time) => Some(time as i128),
        None => None,
    };
    let duration: Option<i128> = match trace.duration_ms {
        Some(millis) => Some(millis as i128),
        None => None,
    };
    let mut members = no_members();
    push_member(&mut members, "traceId", Json::Str(trace.trace_id.clone()));
    push_member(&mut members, "usageRequestId", write_str(&trace.usage_request_id));
    push_member(&mut members, "appType", Json::Str(trace.app_type.clone()));
    push_member(&mut members, "method", Json::Str(trace.method.clone()));
    push_member(&mut members, "path", Json::Str(trace.path.clone()));
    push_member(&mut members, "requestModel", write_str(&trace.request_model));
    push_member(&mut members, "responseModel", write_str(&trace.response_model));
    push_member(&mut members, "finalProviderId", write_str(&trace.final_provider_id));
    push_member(&mut members, "statusCode", write_number(status));
    push_member(&mut members, "isStreaming", Json::Bool(trace.is_streaming));
    push_member(&mut members, "attemptCount", Json::Number(number_of(trace.attempt_count as i128)));
    push_member(&mut members, "startedAt", Json::Number(number_of(trace.started_at as i128)));
    push_member(&mut members, "completedAt", write_number(completed));
    push_member(&mut members, "durationMs", write_number(duration));
    push_member(&mut members, "outcome", Json::Str(trace.outcome.clone()));
    push_member(&mut members, "partial", Json::Bool(trace.partial));
    push_member(
        &mut members,
        "droppedEventCount",
        Json::Number(number_of(trace.dropped_event_count as i128)),
    );
    push_member(&mut members, "storedBytes", Json::Number(number_of(trace.stored_bytes as i128)));
    Json::Object(members)
}

/// Writes a step as JSON.
fn write_event(event: &TraceEventRecord) -> (json: Json)
    ensures
        json@ == event_json(event@),
{
    let attempt: Option<i128> = match event.attempt_no {
        Some(number) => Some(number as i128),
        None => None,
    };
    let status: Option<i128> = match event.status_code {
        Some(code) => Some(code as i128),
        None => None,
    };
    let mut members = no_members();
    push_member(&mut members, "eventId", Json::Number(number_of(event.event_id as i128)));
    push_member(&mut members, "sequence", Json::Number(number_of(event.sequence as i128)));
    push_member(&mut members, "occurredAt", Json::Number(number_of(event.occurred_at as i128)));
    push_member(&mut members, "offsetMs", Json::Number(number_of(event.offset_ms as i128)));
    push_member(&mut members, "stage", Json::Str(event.stage.clone()));
    push_member(&mut members, "kind", Json::Str(event.kind.clone()));
    push_member(&mut members, "attemptNo", write_number(attempt));
    push_member(&mut members, "providerId", write_str(&event.provider_id));
    push_member(&mut members, "statusCode", write_number(status));
    push_member(&mut members, "summary", write_str(&event.summary));
    push_member(&mut members, "payload", write_value(&event.payload));
    push_member(&mut members, "truncated", Json::Bool(event.truncated));
    Json::Object(members)
}

/// Writes the line that a request with its steps is exported as, if it has JSON text.
pub fn write_export(detail: &RequestTraceDetail, now: i64) -> (written: Option<String>)
    ensures
        match written {
            Some(text) => is_export(detail@, SCHEMA_VERSION, now, text@),
            None => json_bytes(export_json(detail@, SCHEMA_VERSION, now)) is None,
        },
{
    let mut events: Vec<Json> = Vec::new();
    for i in 0..detail.events.len()
        invariant
            events.len() == i,
            forall|j: int|
                0 <= j < i ==> (#[trigger] events@[j])@ == event_json(detail.events@[j]@),
    {
        events.push(write_event(&detail.events[i]));
    }
    assert(items_view(events@) =~= events_json(detail@.events));
    let mut members = no_members();
    push_member(&mut members, "schemaVersion", Json::Number(number_of(SCHEMA_VERSION as i128)));
    push_member(&mut members, "exportedAt", Json::Number(number_of(now as i128)));
    push_member(&mut members, "trace", write_trace(&detail.trace));
    push_member(&mut members, "events", Json::Array(events));
    let json = Json::Object(members);
    match json.to_text() {
        Some(line) => {
            let mut text = line.clone();
            text.append("\n");
            proof {
                reveal_strlit("\n");
                assert(text@ =~= line@.push('\n'));
                assert(text@.drop_last() =~= line@);
            }
            Some(text)
        },
        None => None,
    }
}

/// Whether a payload stands well inside the levels that the parser reads.
pub open spec fn exportable(event: TraceEventRecord<Seq<char>, JsonView>) -> bool {
    event.payload matches Some(value) ==> nested_within(value, 124) && whole_numbers(value)
}

/// A whole number of sixty-four bits is one in JSON too.
proof fn lemma_number(number: int)
    requires
        in_range(number),
    ensures
        whole_numbers(number_json(number)),
{
    assert(in_range(number) && whole_number(number) == whole_number(number));
}

proof fn lemma_trace_reads_back(trace: RequestTraceSummary<Seq<char>>)
    ensures
        nested_within(trace_json(trace), 1),
        whole_numbers(trace_json(trace)),
{
    reveal_with_fuel(nested_within, 2);
    lemma_number(trace.attempt_count as int);
    lemma_number(trace.started_at as int);
    lemma_number(trace.dropped_event_count as int);
    lemma_number(trace.stored_bytes as int);
    if trace.status_code is Some {
        lemma_number(trace.status_code->0 as int);
    }
    if trace.completed_at is Some {
        lemma_number(trace.completed_at->0 as int);
    }
    if trace.duration_ms is Some {
        lemma_number(trace.duration_ms->0 as int);
    }
    let members = trace_json(trace)->Object_0;
    assert forall|name: Seq<char>| members.contains_key(name) implies nested_within(
        #[trigger] members[name],
        0,
    ) && whole_numbers(members[name]) by {}
}

/// A value that stands within so many levels stands within more.
proof fn lemma_nested_more(value: JsonView, levels: nat, more: nat)
    requires
        nested_within(value, levels),
        levels <= more,
    ensures
        nested_within(value, more),
    decreases levels,
{
    match value {
        JsonView::Array(items) => {
            assert forall|i: int| 0 <= i < items.len() implies nested_within(
                #[trigger] items[i],
                (more - 1) as nat,
            ) by {
                lemma_nested_more(items[i], (levels - 1) as nat, (more - 1) as nat);
            }
        },
        JsonView::Object(members) => {
            assert forall|name: Seq<char>| members.contains_key(name) implies nested_within(
                #[trigger] members[name],
                (more - 1) as nat,
            ) by {
                lemma_nested_more(members[name], (levels - 1) as nat, (more - 1) as nat);
            }
        },
        _ => {},
    }
}

proof fn lemma_event_reads_back(event: TraceEventRecord<Seq<char>, JsonView>)
    requires
        exportable(event),
    ensures
        nested_within(event_json(event), 125),
        whole_numbers(event_json(event)),
{
    lemma_number(event.event_id as int);
    lemma_number(event.sequence as int);
    lemma_number(event.occurred_at as int);
    lemma_number(event.offset_ms as int);
    if event.attempt_no is Some {
        lemma_number(event.attempt_no->0 as int);
    }
    if event.status_code is Some {
        lemma_number(event.status_code->0 as int);
    }
    let members = event_json(event)->Object_0;
    assert forall|name: Seq<char>| members.contains_key(name) implies nested_within(
        #[trigger] members[name],
        124,
    ) && whole_numbers(members[name]) by {
        if members[name] != optional_value(event.payload) {
            assert(nested_within(members[name], 0));
            lemma_nested_more(members[name], 0, 124);
        }
    }
}

/// What is exported reads back from its line: the version of the schema, the time of the export,
/// the request and its steps, whose payloads stand well inside the levels that the parser reads.
pub proof fn law_export_reads_back(
    detail: DetailView,
    version: i32,
    now: i64,
    text: Seq<char>,
)
    requires
        is_export(detail, version, now, text),
        forall|i: int| 0 <= i < detail.events.len() ==> exportable(#[trigger] detail.events[i]),
    ensures
        one_line(text),
        ({
            let read = json_parse(encode_utf8(text.drop_last()));
            &&& read matches Some(JsonView::Object(members))
            &&& members["schemaVersion"@] == number_json(version as int)
            &&& members["exportedAt"@] == number_json(now as int)
            &&& members["trace"@] == trace_json(detail.trace)
            &&& members["events"@] == JsonView::Array(events_json(detail.events))
        }),
{
    let all = export_json(detail, version, now);
    let members = all->Object_0;
    let events = events_json(detail.events);
    lemma_number(version as int);
    lemma_number(now as int);
    lemma_trace_reads_back(detail.trace);
    lemma_nested_more(trace_json(detail.trace), 1, 126);
    assert forall|i: int| 0 <= i < events.len() implies nested_within(#[trigger] events[i], 125)
        && whole_numbers(events[i]) by {
        lemma_event_reads_back(detail.events[i]);
    }
    assert(nested_within(JsonView::Array(events), 126));
    assert(whole_numbers(JsonView::Array(events)));
    lemma_nested_more(number_json(version as int), 0, 126);
    lemma_nested_more(number_json(now as int), 0, 126);
    reveal_strlit("schemaVersion");
    reveal_strlit("exportedAt");
    reveal_strlit("trace");
    reveal_strlit("events");
    assert("schemaVersion"@.len() == 13 && "exportedAt"@.len() == 10 && "trace"@.len() == 5
        && "events"@.len() == 6);
    assert forall|name: Seq<char>| members.contains_key(name) implies nested_within(
        #[trigger] members[name],
        126,
    ) && whole_numbers(members[name]) by {}
    assert(nested_within(all, 127));
    assert(whole_numbers(all));
}

} // verus!
