//! What is shown of the rows of the log, field by field.
use crate::json::{json_parse, optional_json, Json, JsonView};
use crate::payload::zstd_decode;
use crate::query::{
    optional_detail, orders_events, payload_of, show_event, shows_event, shows_events, step_of,
    trace_of,
};
use crate::read_laws::lemma_step_order;
use crate::records::{
    records_view, RequestTraceDetail, RequestTraceSummary, RuntimeLogRecord, TraceEventRecord,
};
use crate::sequences::lemma_filter_contents;
use crate::service::DiagnosticLogService;
use crate::store_laws::consistent;
use crate::tables::{
    map_trace_summary, EventRow, LogStore, PayloadRow, RuntimeRow, Tables, TraceRow,
};
use vstd::prelude::*;
use vstd::string::*;
use vstd::utf8::*;

verus! {

/// Whether a number is shown as it is stored, and one below zero as none.
pub open spec fn shown_count(stored: int, shown: int) -> bool {
    &&& stored >= 0 ==> shown == stored
    &&& stored < 0 ==> shown == 0
}

/// Whether a status is shown as it is stored, where it is one.
pub open spec fn shown_status(stored: Option<i64>, shown: Option<u16>) -> bool {
    &&& shown is Some <==> stored is Some
    &&& stored matches Some(code) ==> 0 <= code <= u16::MAX ==> shown->0 == code
}

/// Whether this is what is shown of the row of a request: what each of its columns holds.
pub open spec fn shows_request(
    row: TraceRow<Seq<char>>,
    shown: RequestTraceSummary<Seq<char>>,
) -> bool {
    &&& shown.trace_id == row.trace_id
    &&& shown.usage_request_id == row.usage_request_id
    &&& shown.app_type == row.app_type
    &&& shown.method == row.method
    &&& shown.path == row.path
    &&& shown.request_model == row.request_model
    &&& shown.response_model == row.response_model
    &&& shown.final_provider_id == row.final_provider_id
    &&& shown_status(row.status_code, shown.status_code)
    &&& shown.is_streaming == (row.is_streaming != 0)
    &&& row.attempt_count <= u32::MAX ==> shown_count(
        row.attempt_count as int,
        shown.attempt_count as int,
    )
    &&& shown.started_at == row.started_at
    &&& shown.completed_at == row.completed_at
    &&& shown.duration_ms is Some <==> row.duration_ms is Some
    &&& row.duration_ms matches Some(duration) ==> shown_count(
        duration as int,
        shown.duration_ms->0 as int,
    )
    &&& shown.outcome == row.outcome
    &&& shown.partial == (row.partial != 0)
    &&& shown_count(row.dropped_event_count as int, shown.dropped_event_count as int)
    &&& shown.stored_bytes == row.stored_bytes
}

/// Whether this is what is shown of the row of a step, its payload left aside.
pub open spec fn shows_step(
    row: EventRow<Seq<char>>,
    shown: TraceEventRecord<Seq<char>, JsonView>,
) -> bool {
    &&& shown.event_id == row.event_id
    &&& shown.sequence == row.sequence
    &&& shown.occurred_at == row.occurred_at
    &&& shown_count(row.offset_ms as int, shown.offset_ms as int)
    &&& shown.stage == row.stage
    &&& shown.kind == row.kind
    &&& shown.attempt_no is Some <==> row.attempt_no is Some
    &&& row.attempt_no matches Some(number) ==> number <= u32::MAX ==> shown_count(
        number as int,
        shown.attempt_no->0 as int,
    )
    &&& shown.provider_id == row.provider_id
    &&& shown_status(row.status_code, shown.status_code)
    &&& shown.summary == row.summary
}

/// Whether this is what is shown of the row of a message.
pub open spec fn shows_message(
    row: RuntimeRow<Seq<char>>,
    shown: RuntimeLogRecord<Seq<char>, JsonView>,
) -> bool {
    &&& shown.log_id == row.log_id
    &&& shown.occurred_at == row.occurred_at
    &&& shown.level == row.level
    &&& shown.target == row.target
    &&& shown.message == row.message
    &&& row.fields_json is None ==> shown.fields is None
    &&& row.fields_json matches Some(text) ==> shown.fields == json_parse(encode_utf8(text))
}

/// A request is shown as its row holds it, column by column.
pub proof fn law_requests_are_shown_as_stored(row: TraceRow, summary: RequestTraceSummary)
    requires
        call_ensures(map_trace_summary, (&row,), summary),
    ensures
        shows_request(row@, summary@),
{
}

/// A step is shown as its row holds it, column by column, with the payload that was read and the
/// mark whether that was cut.
pub proof fn law_steps_are_shown_as_stored(
    row: EventRow,
    payload: Option<Json>,
    truncated: bool,
    record: TraceEventRecord,
)
    requires
        call_ensures(show_event, (&row, payload, truncated), record),
    ensures
        shows_step(row@, record@),
        record.payload is Some <==> payload is Some,
        payload matches Some(value) ==> record.payload->0@ == value@,
        record.truncated == truncated,
{
    assert(record@.payload == optional_json(record.payload));
    assert(record@.truncated == record.truncated);
}

/// The first payload of an identifier is one of it, and is found where there is one.
proof fn lemma_payload_of(payloads: Seq<PayloadRow<Seq<char>, Seq<u8>>>, id: i64)
    ensures
        match payload_of(payloads, Some(id)) {
            Some(row) => exists|i: int|
                0 <= i < payloads.len() && #[trigger] payloads[i] == row && row.payload_id == id,
            None => forall|i: int|
                0 <= i < payloads.len() ==> (#[trigger] payloads[i]).payload_id != id,
        },
    decreases payloads.len(),
{
    if payloads.len() > 0 && payloads[0].payload_id != id {
        let rest = payloads.drop_first();
        lemma_payload_of(rest, id);
        match payload_of(rest, Some(id)) {
            Some(row) => {
                let i = choose|i: int|
                    0 <= i < rest.len() && #[trigger] rest[i] == row && row.payload_id == id;
                assert(payloads[i + 1] == row);
            },
            None => {
                assert forall|i: int| 0 <= i < payloads.len() implies (
                #[trigger] payloads[i]).payload_id != id by {
                    if i > 0 {
                        assert(rest[i - 1].payload_id != id);
                    }
                }
            },
        }
    } else if payloads.len() > 0 {
        assert(payload_of(payloads, Some(id)) == Some(payloads[0]));
    }
}

/// The first request of an identifier is one of it, and is found where there is one.
pub proof fn lemma_trace_of(traces: Seq<TraceRow<Seq<char>>>, id: Seq<char>)
    ensures
        match trace_of(traces, id) {
            Some(row) => exists|i: int|
                0 <= i < traces.len() && #[trigger] traces[i] == row && row.trace_id == id,
            None => forall|i: int|
                0 <= i < traces.len() ==> (#[trigger] traces[i]).trace_id != id,
        },
    decreases traces.len(),
{
    if traces.len() > 0 && traces[0].trace_id != id {
        let rest = traces.drop_first();
        lemma_trace_of(rest, id);
        match trace_of(rest, id) {
            Some(row) => {
                let i = choose|i: int|
                    0 <= i < rest.len() && #[trigger] rest[i] == row && row.trace_id == id;
                assert(traces[i + 1] == row);
            },
            None => {
                assert forall|i: int| 0 <= i < traces.len() implies (#[trigger] traces[i]).trace_id
                    != id by {
                    if i > 0 {
                        assert(rest[i - 1].trace_id != id);
                    }
                }
            },
        }
    } else if traces.len() > 0 {
        assert(trace_of(traces, id) == Some(traces[0]));
    }
}

/// Whether the payload that is shown of a step is the one that is stored for it: none where the
/// step has none; what its body holds where that is not compressed; and what the frame holds, or
/// nothing where decompressing failed, where it is.
pub open spec fn shows_payload(
    payloads: Seq<PayloadRow<Seq<char>, Seq<u8>>>,
    payload_id: Option<i64>,
    shown: TraceEventRecord<Seq<char>, JsonView>,
) -> bool {
    &&& payload_id is None ==> shown.payload is None && !shown.truncated
    &&& forall|i: int|
        #![trigger payloads[i]]
        0 <= i < payloads.len() && payload_id == Some(payloads[i].payload_id) ==> {
            &&& shown.truncated == (payloads[i].truncated != 0)
            &&& payloads[i].encoding != "zstd"@ ==> shown.payload == json_parse(payloads[i].body)
            &&& payloads[i].encoding == "zstd"@ && shown.payload is Some ==> zstd_decode(
                payloads[i].body,
            ) is Some && shown.payload == json_parse(zstd_decode(payloads[i].body)->0)
        }
}

proof fn lemma_shows_payload(
    tables: Tables,
    row: EventRow<Seq<char>>,
    shown: TraceEventRecord<Seq<char>, JsonView>,
)
    requires
        consistent(tables),
        shows_event(tables.payloads, row, shown),
    ensures
        shows_payload(tables.payloads, row.payload_id, shown),
{
    if row.payload_id is Some {
        lemma_payload_of(tables.payloads, row.payload_id->0);
        let found = payload_of(tables.payloads, row.payload_id);
        assert forall|i: int|
            #![trigger tables.payloads[i]]
            0 <= i < tables.payloads.len() && row.payload_id == Some(
                tables.payloads[i].payload_id,
            ) implies found == Some(tables.payloads[i]) by {
            let k = choose|k: int|
                0 <= k < tables.payloads.len() && #[trigger] tables.payloads[k] == found->0;
            if k < i {
                assert(tables.payloads[k].payload_id < tables.payloads[i].payload_id);
            } else if i < k {
                assert(tables.payloads[i].payload_id < tables.payloads[k].payload_id);
            }
        }
    }
}

/// Whether this is what is shown of a step of a request, with its payload.
pub open spec fn shows_some_step(
    tables: Tables,
    id: Seq<char>,
    shown: TraceEventRecord<Seq<char>, JsonView>,
) -> bool {
    exists|k: int|
        #![trigger tables.events[k]]
        0 <= k < tables.events.len() && tables.events[k].trace_id == id && shows_step(
            tables.events[k],
            shown,
        ) && shows_payload(tables.payloads, tables.events[k].payload_id, shown)
}

/// Whether a step is one of those that are shown.
pub open spec fn step_is_shown(row: EventRow<Seq<char>>, shown: Seq<TraceEventRecord>) -> bool {
    exists|i: int| 0 <= i < shown.len() && shows_step(row, (#[trigger] shown[i])@)
}

/// A request is shown where the log has one of the identifier, and only there: as its row holds it,
/// with every step of it and no other, each as its row and the row of its payload hold it, in the
/// order of their numbers.
pub proof fn law_requests_are_shown_with_their_steps(
    service: &DiagnosticLogService,
    log: &LogStore,
    id: &str,
    shown: Option<RequestTraceDetail>,
)
    requires
        call_ensures(DiagnosticLogService::get_trace, (service, log, id), shown),
        consistent(log@),
    ensures
        shown is Some <==> exists|i: int|
            0 <= i < log@.traces.len() && (#[trigger] log@.traces[i]).trace_id == id@,
        shown matches Some(detail) ==> {
            &&& forall|i: int|
                0 <= i < log@.traces.len() && (#[trigger] log@.traces[i]).trace_id == id@
                    ==> shows_request(log@.traces[i], detail.trace@)
            &&& forall|i: int, j: int|
                0 <= i < j < detail.events.len() ==> (#[trigger] detail.events@[i]).sequence < (
                #[trigger] detail.events@[j]).sequence
            &&& forall|i: int|
                0 <= i < detail.events.len() ==> shows_some_step(
                    log@,
                    id@,
                    (#[trigger] detail.events@[i])@,
                )
            &&& forall|k: int|
                0 <= k < log@.events.len() && (#[trigger] log@.events[k]).trace_id == id@
                    ==> step_is_shown(log@.events[k], detail.events@)
        },
{
    let tables = log@;
    lemma_trace_of(tables.traces, id@);
    if shown is Some {
        let detail = shown->0;
        let row = trace_of(tables.traces, id@)->0;
        assert forall|i: int|
            0 <= i < tables.traces.len() && (#[trigger] tables.traces[i]).trace_id
                == id@ implies shows_request(tables.traces[i], detail.trace@) by {
            let k = choose|k: int|
                0 <= k < tables.traces.len() && #[trigger] tables.traces[k] == row;
            assert(k == i);
        }
        let records = records_view(detail.events@);
        assert(optional_detail(shown)->0.events == records);
        let ordered = choose|ordered: Seq<EventRow<Seq<char>>>| #[trigger]
            orders_events(tables.events, id@, ordered) && shows_events(
                tables.payloads,
                ordered,
                records,
            );
        let keep = |row: EventRow<Seq<char>>| step_of(row, id@);
        lemma_step_order(tables, id@, ordered);
        lemma_filter_contents(tables.events, keep);
        assert forall|i: int, j: int| 0 <= i < j < detail.events.len() implies (
        #[trigger] detail.events@[i]).sequence < (#[trigger] detail.events@[j]).sequence by {
            assert(shows_event(tables.payloads, ordered[i], records[i]));
            assert(shows_event(tables.payloads, ordered[j], records[j]));
            assert(ordered[i].sequence < ordered[j].sequence);
        }
        assert forall|i: int| 0 <= i < detail.events.len() implies shows_some_step(
            tables,
            id@,
            (#[trigger] detail.events@[i])@,
        ) by {
            assert(shows_event(tables.payloads, ordered[i], records[i]));
            assert(ordered.contains(ordered[i]));
            let k = tables.events.index_of(ordered[i]);
            assert(tables.events[k] == ordered[i]);
            lemma_shows_payload(tables, ordered[i], records[i]);
            assert(records[i] == detail.events@[i]@);
        }
        assert forall|k: int|
            0 <= k < tables.events.len() && (#[trigger] tables.events[k]).trace_id
                == id@ implies step_is_shown(tables.events[k], detail.events@) by {
            assert(tables.events.contains(tables.events[k]) && keep(tables.events[k]));
            assert(ordered.contains(tables.events[k]));
            let i = ordered.index_of(tables.events[k]);
            assert(shows_event(tables.payloads, ordered[i], records[i]));
            assert(records[i] == detail.events@[i]@);
        }
    }
}

} // verus!
