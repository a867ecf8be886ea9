//! What is recorded of requests and of the program, and what is read back of it.
//!
//! The types are those of the program with `String` for texts and `Json` for values; with
//! sequences of characters and `JsonView` they are what contracts speak of.
use crate::json::{optional_json, Json, JsonView};
use vstd::prelude::*;

verus! {

/// What an optional text is.
pub open spec fn optional_text(text: Option<String>) -> Option<Seq<char>> {
    match text {
        Some(held) => Some(held@),
        None => None,
    }
}

/// A request, as lists show it.
#[derive(Debug, Clone)]
#[verifier::ext_equal]
pub struct RequestTraceSummary<T = String> {
    pub trace_id: T,
    pub usage_request_id: Option<T>,
    pub app_type: T,
    pub method: T,
    pub path: T,
    pub request_model: Option<T>,
    pub response_model: Option<T>,
    pub final_provider_id: Option<T>,
    pub status_code: Option<u16>,
    pub is_streaming: bool,
    pub attempt_count: u32,
    pub started_at: i64,
    pub completed_at: Option<i64>,
    pub duration_ms: Option<u64>,
    pub outcome: T,
    pub partial: bool,
    pub dropped_event_count: u64,
    pub stored_bytes: i64,
}

impl View for RequestTraceSummary {
    type V = RequestTraceSummary<Seq<char>>;

    open spec fn view(&self) -> RequestTraceSummary<Seq<char>> {
        RequestTraceSummary {
            trace_id: self.trace_id@,
            usage_request_id: optional_text(self.usage_request_id),
            app_type: self.app_type@,
            method: self.method@,
            path: self.path@,
            request_model: optional_text(self.request_model),
            response_model: optional_text(self.response_model),
            final_provider_id: optional_text(self.final_provider_id),
            status_code: self.status_code,
            is_streaming: self.is_streaming,
            attempt_count: self.attempt_count,
            started_at: self.started_at,
            completed_at: self.completed_at,
            duration_ms: self.duration_ms,
            outcome: self.outcome@,
            partial: self.partial,
            dropped_event_count: self.dropped_event_count,
            stored_bytes: self.stored_bytes,
        }
    }
}

/// A step of a request.
#[derive(Debug, Clone)]
pub struct TraceEventRecord<T = String, J = Json> {
    pub event_id: i64,
    pub sequence: i64,
    pub occurred_at: i64,
    pub offset_ms: u64,
    pub stage: T,
    pub kind: T,
    pub attempt_no: Option<u32>,
    pub provider_id: Option<T>,
    pub status_code: Option<u16>,
    pub summary: Option<T>,
    pub payload: Option<J>,
    pub truncated: bool,
}

impl View for TraceEventRecord {
    type V = TraceEventRecord<Seq<char>, JsonView>;

    open spec fn view(&self) -> TraceEventRecord<Seq<char>, JsonView> {
        TraceEventRecord {
            event_id: self.event_id,
            sequence: self.sequence,
            occurred_at: self.occurred_at,
            offset_ms: self.offset_ms,
            stage: self.stage@,
            kind: self.kind@,
            attempt_no: self.attempt_no,
            provider_id: optional_text(self.provider_id),
            status_code: self.status_code,
            summary: optional_text(self.summary),
            payload: optional_json(self.payload),
            truncated: self.truncated,
        }
    }
}

/// A request with its steps.
#[derive(Debug, Clone)]
pub struct RequestTraceDetail<S = RequestTraceSummary, E = Vec<TraceEventRecord>> {
    pub trace: S,
    pub events: E,
}

/// A request with its steps, as contracts speak of it.
pub type DetailView = RequestTraceDetail<
    RequestTraceSummary<Seq<char>>,
    Seq<TraceEventRecord<Seq<char>, JsonView>>,
>;

/// What steps that were read are.
pub open spec fn records_view(events: Seq<TraceEventRecord>) -> Seq<
    TraceEventRecord<Seq<char>, JsonView>,
> {
    events.map_values(|event: TraceEventRecord| event@)
}

impl View for RequestTraceDetail {
    type V = DetailView;

    open spec fn view(&self) -> DetailView {
        RequestTraceDetail { trace: self.trace@, events: records_view(self.events@) }
    }
}

/// A message of the program.
#[derive(Debug, Clone)]
pub struct RuntimeLogRecord<T = String, J = Json> {
    pub log_id: i64,
    pub occurred_at: i64,
    pub level: T,
    pub target: T,
    pub message: T,
    pub fields: Option<J>,
}

impl View for RuntimeLogRecord {
    type V = RuntimeLogRecord<Seq<char>, JsonView>;

    open spec fn view(&self) -> RuntimeLogRecord<Seq<char>, JsonView> {
        RuntimeLogRecord {
            log_id: self.log_id,
            occurred_at: self.occurred_at,
            level: self.level@,
            target: self.target@,
            message: self.message@,
            fields: optional_json(self.fields),
        }
    }
}

/// How the log is doing.
#[derive(Debug, Clone)]
pub struct DiagnosticLogHealth<T = String> {
    pub available: bool,
    pub error: Option<T>,
    pub db_path: T,
    pub retention_days: i64,
    pub request_bytes: i64,
    pub runtime_bytes: i64,
    pub physical_bytes: u64,
    pub dropped_events: u64,
}

impl View for DiagnosticLogHealth {
    type V = DiagnosticLogHealth<Seq<char>>;

    open spec fn view(&self) -> DiagnosticLogHealth<Seq<char>> {
        DiagnosticLogHealth {
            available: self.available,
            error: optional_text(self.error),
            db_path: self.db_path@,
            retention_days: self.retention_days,
            request_bytes: self.request_bytes,
            runtime_bytes: self.runtime_bytes,
            physical_bytes: self.physical_bytes,
            dropped_events: self.dropped_events,
        }
    }
}

/// A place in a list of requests: behind the one that started then and has that identifier.
#[derive(Debug, Clone)]
pub struct TraceCursor {
    pub started_at: i64,
    pub trace_id: String,
}

impl RequestTraceSummary {
    /// The place behind the request.
    pub fn cursor(&self) -> (cursor: TraceCursor)
        ensures
            cursor.started_at == self.started_at,
            cursor.trace_id@ == self.trace_id@,
    {
        TraceCursor { started_at: self.started_at, trace_id: self.trace_id.clone() }
    }
}

/// A place in a list of messages: behind the one that occurred then and has that number.
#[derive(Debug, Clone, Copy)]
pub struct LogCursor {
    pub occurred_at: i64,
    pub log_id: i64,
}

impl RuntimeLogRecord {
    /// The place behind the message.
    pub fn cursor(&self) -> (cursor: LogCursor)
        ensures
            cursor == (LogCursor { occurred_at: self.occurred_at, log_id: self.log_id }),
    {
        LogCursor { occurred_at: self.occurred_at, log_id: self.log_id }
    }
}

/// Which requests to list: where a place is given, only those behind it, whatever was recorded
/// before it in the meantime.
#[derive(Debug, Clone)]
pub struct TraceQuery {
    pub query: Option<String>,
    pub app_type: Option<String>,
    pub provider_id: Option<String>,
    pub status_code: Option<u16>,
    pub streaming: Option<bool>,
    pub cursor: Option<TraceCursor>,
    pub offset: Option<u32>,
    pub limit: Option<u32>,
}

/// Which messages to list: where a place is given, only those behind it.
#[derive(Debug, Clone)]
pub struct RuntimeLogQuery {
    pub query: Option<String>,
    pub level: Option<String>,
    pub target: Option<String>,
    pub cursor: Option<LogCursor>,
    pub offset: Option<u32>,
    pub limit: Option<u32>,
}

/// The start of a request.
#[derive(Debug, Clone)]
pub struct BeginTrace<T = String, J = Json> {
    pub app_type: T,
    pub method: T,
    pub path: T,
    pub request_model: Option<T>,
    pub provider_id: Option<T>,
    pub is_streaming: bool,
    pub headers: J,
    pub body: J,
}

impl View for BeginTrace {
    type V = BeginTrace<Seq<char>, JsonView>;

    open spec fn view(&self) -> BeginTrace<Seq<char>, JsonView> {
        BeginTrace {
            app_type: self.app_type@,
            method: self.method@,
            path: self.path@,
            request_model: optional_text(self.request_model),
            provider_id: optional_text(self.provider_id),
            is_streaming: self.is_streaming,
            headers: self.headers@,
            body: self.body@,
        }
    }
}

/// A step of a request, to be recorded.
#[derive(Debug, Clone)]
pub struct TraceEventInput<T = String, J = Json> {
    pub trace_id: T,
    pub offset_ms: u64,
    pub stage: T,
    pub kind: T,
    pub attempt_no: Option<u32>,
    pub provider_id: Option<T>,
    pub status_code: Option<u16>,
    pub summary: Option<T>,
    pub payload: Option<J>,
}

impl View for TraceEventInput {
    type V = TraceEventInput<Seq<char>, JsonView>;

    open spec fn view(&self) -> TraceEventInput<Seq<char>, JsonView> {
        TraceEventInput {
            trace_id: self.trace_id@,
            offset_ms: self.offset_ms,
            stage: self.stage@,
            kind: self.kind@,
            attempt_no: self.attempt_no,
            provider_id: optional_text(self.provider_id),
            status_code: self.status_code,
            summary: optional_text(self.summary),
            payload: optional_json(self.payload),
        }
    }
}

/// The end of a request.
#[derive(Debug, Clone)]
pub struct CompleteTrace<T = String> {
    pub trace_id: T,
    pub usage_request_id: Option<T>,
    pub response_model: Option<T>,
    pub final_provider_id: Option<T>,
    pub status_code: Option<u16>,
    pub duration_ms: u64,
    pub outcome: T,
    pub dropped_event_count: u64,
}

impl View for CompleteTrace {
    type V = CompleteTrace<Seq<char>>;

    open spec fn view(&self) -> CompleteTrace<Seq<char>> {
        CompleteTrace {
            trace_id: self.trace_id@,
            usage_request_id: optional_text(self.usage_request_id),
            response_model: optional_text(self.response_model),
            final_provider_id: optional_text(self.final_provider_id),
            status_code: self.status_code,
            duration_ms: self.duration_ms,
            outcome: self.outcome@,
            dropped_event_count: self.dropped_event_count,
        }
    }
}

/// A message of the program, to be recorded.
#[derive(Debug, Clone)]
pub struct RuntimeLogInput<T = String, J = Json> {
    pub occurred_at: i64,
    pub level: T,
    pub target: T,
    pub message: T,
    pub fields: Option<J>,
}

impl View for RuntimeLogInput {
    type V = RuntimeLogInput<Seq<char>, JsonView>;

    open spec fn view(&self) -> RuntimeLogInput<Seq<char>, JsonView> {
        RuntimeLogInput {
            occurred_at: self.occurred_at,
            level: self.level@,
            target: self.target@,
            message: self.message@,
            fields: optional_json(self.fields),
        }
    }
}

/// Something to be written.
#[derive(Debug, Clone)]
pub enum WriteCommand<T = String, J = Json> {
    Begin { trace_id: T, input: BeginTrace<T, J> },
    Event(TraceEventInput<T, J>),
    Complete(CompleteTrace<T>),
    Runtime(RuntimeLogInput<T, J>),
}

impl View for WriteCommand {
    type V = WriteCommand<Seq<char>, JsonView>;

    open spec fn view(&self) -> WriteCommand<Seq<char>, JsonView> {
        match *self {
            WriteCommand::Begin { trace_id, input } => WriteCommand::Begin {
                trace_id: trace_id@,
                input: input@,
            },
            WriteCommand::Event(event) => WriteCommand::Event(event@),
            WriteCommand::Complete(complete) => WriteCommand::Complete(complete@),
            WriteCommand::Runtime(input) => WriteCommand::Runtime(input@),
        }
    }
}

/// The request that a command is about, if it is about one.
pub open spec fn command_trace(command: WriteCommand<Seq<char>, JsonView>) -> Option<Seq<char>> {
    match command {
        WriteCommand::Begin { trace_id, .. } => Some(trace_id),
        WriteCommand::Event(event) => Some(event.trace_id),
        WriteCommand::Complete(complete) => Some(complete.trace_id),
        WriteCommand::Runtime(_) => None,
    }
}

impl WriteCommand {
    /// The request that the command is about, if it is about one.
    pub fn trace_id(&self) -> (found: Option<&str>)
        ensures
            match found {
                Some(id) => command_trace(self@) == Some(id@),
                None => command_trace(self@) is None,
            },
    {
        match self {
            WriteCommand::Begin { trace_id, .. } => Some(trace_id.as_str()),
            WriteCommand::Event(event) => Some(event.trace_id.as_str()),
            WriteCommand::Complete(complete) => Some(complete.trace_id.as_str()),
            WriteCommand::Runtime(_) => None,
        }
    }
}

} // verus!
