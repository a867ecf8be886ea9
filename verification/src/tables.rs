//! The tables of the log, row by row.
use crate::records::{optional_text, RequestTraceSummary};
use vstd::prelude::*;

verus! {

/// A row of `request_traces`.
#[verifier::ext_equal]
pub struct TraceRow<T = String> {
    pub trace_id: T,
    pub usage_request_id: Option<T>,
    pub app_type: T,
    pub method: T,
    pub path: T,
    pub request_model: Option<T>,
    pub response_model: Option<T>,
    pub final_provider_id: Option<T>,
    pub status_code: Option<i64>,
    pub is_streaming: i64,
    pub attempt_count: i64,
    pub started_at: i64,
    pub completed_at: Option<i64>,
    pub duration_ms: Option<i64>,
    pub outcome: T,
    pub partial: i64,
    pub dropped_event_count: i64,
    pub stored_bytes: i64,
}

impl View for TraceRow {
    type V = TraceRow<Seq<char>>;

    open spec fn view(&self) -> TraceRow<Seq<char>> {
        TraceRow {
            trace_id: self.trace_id@,
            usage_request_id: optional_text(self.usage_request_id),
            app_type: self.app_type@,
            method: self.method@,
            path: self.path@,
            request_model: optional_text(self.request_model),
            response_model: optional_text(self.response_model),
            final_provider_id: optional_text(self.final_provider_id),
            status_code: self.status_code,
            is_streaming: self.is_streaming,
            attempt_count: self.attempt_count,
            started_at: self.started_at,
            completed_at: self.completed_at,
            duration_ms: self.duration_ms,
            outcome: self.outcome@,
            partial: self.partial,
            dropped_event_count: self.dropped_event_count,
            stored_bytes: self.stored_bytes,
        }
    }
}

/// A copy of an optional text.
pub fn copy_text(text: &Option<String>) -> (copy: Option<String>)
    ensures
        optional_text(copy) == optional_text(*text),
{
    match text {
        Some(held) => Some(held.clone()),
        None => None,
    }
}

impl Clone for TraceRow {
    fn clone(&self) -> (copy: TraceRow)
        ensures
            copy@ == self@,
    {
        TraceRow {
            trace_id: self.trace_id.clone(),
            usage_request_id: copy_text(&self.usage_request_id),
            app_type: self.app_type.clone(),
            method: self.method.clone(),
            path: self.path.clone(),
            request_model: copy_text(&self.request_model),
            response_model: copy_text(&self.response_model),
            final_provider_id: copy_text(&self.final_provider_id),
            status_code: self.status_code,
            is_streaming: self.is_streaming,
            attempt_count: self.attempt_count,
            started_at: self.started_at,
            completed_at: self.completed_at,
            duration_ms: self.duration_ms,
            outcome: self.outcome.clone(),
            partial: self.partial,
            dropped_event_count: self.dropped_event_count,
            stored_bytes: self.stored_bytes,
        }
    }
}

/// A row of `trace_events`.
#[verifier::ext_equal]
pub struct EventRow<T = String> {
    pub event_id: i64,
    pub trace_id: T,
    pub sequence: i64,
    pub occurred_at: i64,
    pub offset_ms: i64,
    pub stage: T,
    pub kind: T,
    pub attempt_no: Option<i64>,
    pub provider_id: Option<T>,
    pub status_code: Option<i64>,
    pub summary: Option<T>,
    pub payload_id: Option<i64>,
}

impl View for EventRow {
    type V = EventRow<Seq<char>>;

    open spec fn view(&self) -> EventRow<Seq<char>> {
        EventRow {
            event_id: self.event_id,
            trace_id: self.trace_id@,
            sequence: self.sequence,
            occurred_at: self.occurred_at,
            offset_ms: self.offset_ms,
            stage: self.stage@,
            kind: self.kind@,
            attempt_no: self.attempt_no,
            provider_id: optional_text(self.provider_id),
            status_code: self.status_code,
            summary: optional_text(self.summary),
            payload_id: self.payload_id,
        }
    }
}

impl Clone for EventRow {
    fn clone(&self) -> (copy: EventRow)
        ensures
            copy@ == self@,
    {
        EventRow {
            event_id: self.event_id,
            trace_id: self.trace_id.clone(),
            sequence: self.sequence,
            occurred_at: self.occurred_at,
            offset_ms: self.offset_ms,
            stage: self.stage.clone(),
            kind: self.kind.clone(),
            attempt_no: self.attempt_no,
            provider_id: copy_text(&self.provider_id),
            status_code: self.status_code,
            summary: copy_text(&self.summary),
            payload_id: self.payload_id,
        }
    }
}

/// A row of `trace_payloads`.
#[verifier::ext_equal]
pub struct PayloadRow<T = String, B = Vec<u8>> {
    pub payload_id: i64,
    pub content_type: T,
    pub encoding: T,
    pub body: B,
    pub original_bytes: i64,
    pub stored_bytes: i64,
    pub sha256: T,
    pub truncated: i64,
}

impl View for PayloadRow {
    type V = PayloadRow<Seq<char>, Seq<u8>>;

    open spec fn view(&self) -> PayloadRow<Seq<char>, Seq<u8>> {
        PayloadRow {
            payload_id: self.payload_id,
            content_type: self.content_type@,
            encoding: self.encoding@,
            body: self.body@,
            original_bytes: self.original_bytes,
            stored_bytes: self.stored_bytes,
            sha256: self.sha256@,
            truncated: self.truncated,
        }
    }
}

impl Clone for PayloadRow {
    fn clone(&self) -> (copy: PayloadRow)
        ensures
            copy@ == self@,
    {
        let body = self.body.clone();
        assert(body@ =~= self.body@);
        PayloadRow {
            payload_id: self.payload_id,
            content_type: self.content_type.clone(),
            encoding: self.encoding.clone(),
            body,
            original_bytes: self.original_bytes,
            stored_bytes: self.stored_bytes,
            sha256: self.sha256.clone(),
            truncated: self.truncated,
        }
    }
}

/// A row of `runtime_logs`.
#[verifier::ext_equal]
pub struct RuntimeRow<T = String> {
    pub log_id: i64,
    pub occurred_at: i64,
    pub level: T,
    pub target: T,
    pub message: T,
    pub fields_json: Option<T>,
    pub stored_bytes: i64,
}

impl View for RuntimeRow {
    type V = RuntimeRow<Seq<char>>;

    open spec fn view(&self) -> RuntimeRow<Seq<char>> {
        RuntimeRow {
            log_id: self.log_id,
            occurred_at: self.occurred_at,
            level: self.level@,
            target: self.target@,
            message: self.message@,
            fields_json: optional_text(self.fields_json),
            stored_bytes: self.stored_bytes,
        }
    }
}

impl Clone for RuntimeRow {
    fn clone(&self) -> (copy: RuntimeRow)
        ensures
            copy@ == self@,
    {
        RuntimeRow {
            log_id: self.log_id,
            occurred_at: self.occurred_at,
            level: self.level.clone(),
            target: self.target.clone(),
            message: self.message.clone(),
            fields_json: copy_text(&self.fields_json),
            stored_bytes: self.stored_bytes,
        }
    }
}

/// What the log holds.
#[verifier::ext_equal]
pub struct Tables {
    pub traces: Seq<TraceRow<Seq<char>>>,
    pub events: Seq<EventRow<Seq<char>>>,
    pub payloads: Seq<PayloadRow<Seq<char>, Seq<u8>>>,
    pub runtime_logs: Seq<RuntimeRow<Seq<char>>>,
    pub last_event_id: i64,
    pub last_payload_id: i64,
    pub last_log_id: i64,
}

/// What rows of `request_traces` are.
pub open spec fn trace_rows(rows: Seq<TraceRow>) -> Seq<TraceRow<Seq<char>>> {
    rows.map_values(|row: TraceRow| row@)
}

/// What rows of `trace_events` are.
pub open spec fn event_rows(rows: Seq<EventRow>) -> Seq<EventRow<Seq<char>>> {
    rows.map_values(|row: EventRow| row@)
}

/// What rows of `trace_payloads` are.
pub open spec fn payload_rows(rows: Seq<PayloadRow>) -> Seq<PayloadRow<Seq<char>, Seq<u8>>> {
    rows.map_values(|row: PayloadRow| row@)
}

/// What rows of `runtime_logs` are.
pub open spec fn runtime_rows(rows: Seq<RuntimeRow>) -> Seq<RuntimeRow<Seq<char>>> {
    rows.map_values(|row: RuntimeRow| row@)
}

/// The log, or the part of it that an operation works on: its rows, and the last identifier that
/// was given to a step, a payload and a message.
pub struct LogStore {
    pub traces: Vec<TraceRow>,
    pub events: Vec<EventRow>,
    pub payloads: Vec<PayloadRow>,
    pub runtime_logs: Vec<RuntimeRow>,
    pub last_event_id: i64,
    pub last_payload_id: i64,
    pub last_log_id: i64,
}

impl View for LogStore {
    type V = Tables;

    open spec fn view(&self) -> Tables {
        Tables {
            traces: trace_rows(self.traces@),
            events: event_rows(self.events@),
            payloads: payload_rows(self.payloads@),
            runtime_logs: runtime_rows(self.runtime_logs@),
            last_event_id: self.last_event_id,
            last_payload_id: self.last_payload_id,
            last_log_id: self.last_log_id,
        }
    }
}

/// A log that holds nothing.
pub open spec fn empty_tables() -> Tables {
    Tables {
        traces: Seq::empty(),
        events: Seq::empty(),
        payloads: Seq::empty(),
        runtime_logs: Seq::empty(),
        last_event_id: 0,
        last_payload_id: 0,
        last_log_id: 0,
    }
}

impl LogStore {
    /// A log that holds nothing.
    pub fn new() -> (store: LogStore)
        ensures
            store@ == empty_tables(),
    {
        LogStore {
            traces: Vec::new(),
            events: Vec::new(),
            payloads: Vec::new(),
            runtime_logs: Vec::new(),
            last_event_id: 0,
            last_payload_id: 0,
            last_log_id: 0,
        }
    }
}

impl Clone for LogStore {
    fn clone(&self) -> (copy: LogStore)
        ensures
            copy@ == self@,
    {
        let copy = LogStore {
            traces: self.traces.clone(),
            events: self.events.clone(),
            payloads: self.payloads.clone(),
            runtime_logs: self.runtime_logs.clone(),
            last_event_id: self.last_event_id,
            last_payload_id: self.last_payload_id,
            last_log_id: self.last_log_id,
        };
        assert(copy@.traces =~= self@.traces);
        assert(copy@.events =~= self@.events);
        assert(copy@.payloads =~= self@.payloads);
        assert(copy@.runtime_logs =~= self@.runtime_logs);
        copy
    }
}

/// The integer a flag is stored as.
pub open spec fn flag(value: bool) -> i64 {
    if value {
        1
    } else {
        0
    }
}

/// The integer a flag is stored as.
pub fn bool_to_i64(value: bool) -> (stored: i64)
    ensures
        stored == flag(value),
{
    if value {
        1
    } else {
        0
    }
}

/// A stored count, which is never negative.
pub open spec fn count(stored: i64) -> i64 {
    if stored < 0 {
        0
    } else {
        stored
    }
}

/// A stored count, which is never negative.
pub fn at_least_zero(stored: i64) -> (read: i64)
    ensures
        read == count(stored),
{
    if stored < 0 {
        0
    } else {
        stored
    }
}

/// A status code that fits the column's integer into sixteen bits.
pub open spec fn status_of(stored: Option<i64>) -> Option<u16> {
    match stored {
        Some(code) => Some(code as u16),
        None => None,
    }
}

/// What lists show of a row.
pub open spec fn summary_of(row: TraceRow<Seq<char>>) -> RequestTraceSummary<Seq<char>> {
    RequestTraceSummary {
        trace_id: row.trace_id,
        usage_request_id: row.usage_request_id,
        app_type: row.app_type,
        method: row.method,
        path: row.path,
        request_model: row.request_model,
        response_model: row.response_model,
        final_provider_id: row.final_provider_id,
        status_code: status_of(row.status_code),
        is_streaming: row.is_streaming != 0,
        attempt_count: count(row.attempt_count) as u32,
        started_at: row.started_at,
        completed_at: row.completed_at,
        duration_ms: match row.duration_ms {
            Some(duration) => Some(count(duration) as u64),
            None => None,
        },
        outcome: row.outcome,
        partial: row.partial != 0,
        dropped_event_count: count(row.dropped_event_count) as u64,
        stored_bytes: row.stored_bytes,
    }
}

/// Reads what lists show of a row.
pub fn map_trace_summary(row: &TraceRow) -> (summary: RequestTraceSummary)
    ensures
        summary@ == summary_of(row@),
{
    RequestTraceSummary {
        trace_id: row.trace_id.clone(),
        usage_request_id: copy_text(&row.usage_request_id),
        app_type: row.app_type.clone(),
        method: row.method.clone(),
        path: row.path.clone(),
        request_model: copy_text(&row.request_model),
        response_model: copy_text(&row.response_model),
        final_provider_id: copy_text(&row.final_provider_id),
        status_code: match row.status_code {
            Some(code) => Some(code as u16),
            None => None,
        },
        is_streaming: row.is_streaming != 0,
        attempt_count: at_least_zero(row.attempt_count) as u32,
        started_at: row.started_at,
        completed_at: row.completed_at,
        duration_ms: match row.duration_ms {
            Some(duration) => Some(at_least_zero(duration) as u64),
            None => None,
        },
        outcome: row.outcome.clone(),
        partial: row.partial != 0,
        dropped_event_count: at_least_zero(row.dropped_event_count) as u64,
        stored_bytes: row.stored_bytes,
    }
}

} // verus!
