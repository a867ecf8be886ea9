//! How the log is written.
use crate::json::{
    json_bytes, json_parse, json_view, members_view, optional_json, reads_back, Json, JsonView,
};
use crate::outside::now_millis;
use crate::payload::{encode_payload, may_encode, optional_payload, EncodedPayload};
use crate::records::{
    optional_text, BeginTrace, CompleteTrace, RuntimeLogInput, TraceEventInput, WriteCommand,
};
use crate::redact::{redact_value, redacted, RedactionPatterns};
use crate::tables::{
    bool_to_i64, copy_text, flag, EventRow, LogStore, PayloadRow, RuntimeRow, Tables, TraceRow,
};
use crate::text::{byte_len, same_text};
use vstd::prelude::*;
use vstd::string::*;
use vstd::utf8::*;

verus! {

/// Why the log could not be written or read.
#[derive(Debug, PartialEq, Eq, Clone, Copy, Structural)]
pub enum StoreError {
    /// A value has no JSON text.
    Json,
    /// No identifier is left.
    Full,
    /// A number is out of range.
    Overflow,
}

impl StoreError {
    /// The error in words.
    pub fn message(&self) -> (text: String)
        ensures
            text@ == match *self {
                StoreError::Json => "value cannot be written as JSON"@,
                StoreError::Full => "database or disk is full"@,
                StoreError::Overflow => "integer overflow"@,
            },
    {
        match self {
            StoreError::Json => "value cannot be written as JSON".to_owned(),
            StoreError::Full => "database or disk is full".to_owned(),
            StoreError::Overflow => "integer overflow".to_owned(),
        }
    }
}

/// A step of a request, as contracts speak of it.
pub type StepView = TraceEventInput<Seq<char>, JsonView>;

/// A stored payload, as contracts speak of it.
pub type PayloadView = EncodedPayload<Seq<char>, Seq<u8>>;

/// Whether a number is one that a column holds.
pub open spec fn fits(number: int) -> bool {
    i64::MIN <= number <= i64::MAX
}

/// Whether there is a request of that identifier.
pub open spec fn has_trace(traces: Seq<TraceRow<Seq<char>>>, id: Seq<char>) -> bool {
    exists|i: int| 0 <= i < traces.len() && (#[trigger] traces[i]).trace_id == id
}

/// The largest number among the steps of a request, if it has any.
pub open spec fn last_sequence(events: Seq<EventRow<Seq<char>>>, id: Seq<char>) -> Option<i64>
    decreases events.len(),
{
    if events.len() == 0 {
        None
    } else {
        let before = last_sequence(events.drop_last(), id);
        let last = events.last();
        if last.trace_id != id {
            before
        } else if before is Some && before->0 > last.sequence {
            before
        } else {
            Some(last.sequence)
        }
    }
}

/// The number that the next step of a request gets.
pub open spec fn next_sequence(events: Seq<EventRow<Seq<char>>>, id: Seq<char>) -> int {
    match last_sequence(events, id) {
        Some(last) => last + 1,
        None => 1,
    }
}

/// The row of a step.
pub open spec fn event_row(
    event: StepView,
    event_id: i64,
    sequence: i64,
    occurred_at: i64,
    payload_id: Option<i64>,
) -> EventRow<Seq<char>> {
    EventRow {
        event_id,
        trace_id: event.trace_id,
        sequence,
        occurred_at,
        offset_ms: event.offset_ms as i64,
        stage: event.stage,
        kind: event.kind,
        attempt_no: match event.attempt_no {
            Some(number) => Some(number as i64),
            None => None,
        },
        provider_id: event.provider_id,
        status_code: match event.status_code {
            Some(code) => Some(code as i64),
            None => None,
        },
        summary: event.summary,
        payload_id,
    }
}

/// How many bytes the summary of a step takes.
pub open spec fn summary_bytes(summary: Option<Seq<char>>) -> i64 {
    match summary {
        Some(text) => byte_len(text) as i64,
        None => 0,
    }
}

/// The row of a request after one more step: that many more bytes are stored, and the attempts
/// are at least as many as the step's number of attempt.
pub open spec fn bumped(row: TraceRow<Seq<char>>, bytes: int, attempt_no: Option<u32>) -> TraceRow<
    Seq<char>,
> {
    TraceRow {
        stored_bytes: (row.stored_bytes + bytes) as i64,
        attempt_count: match attempt_no {
            Some(number) => if number > row.attempt_count {
                number as i64
            } else {
                row.attempt_count
            },
            None => row.attempt_count,
        },
        ..row
    }
}

/// The requests after one more step of one of them.
pub open spec fn bumped_rows(
    traces: Seq<TraceRow<Seq<char>>>,
    id: Seq<char>,
    bytes: int,
    attempt_no: Option<u32>,
) -> Seq<TraceRow<Seq<char>>> {
    traces.map_values(
        |row: TraceRow<Seq<char>>|
            if row.trace_id == id {
                bumped(row, bytes, attempt_no)
            } else {
                row
            },
    )
}

/// Whether the bytes stored for a request stay in range with that many more.
pub open spec fn bump_fits(traces: Seq<TraceRow<Seq<char>>>, id: Seq<char>, bytes: int) -> bool {
    forall|i: int|
        0 <= i < traces.len() && (#[trigger] traces[i]).trace_id == id ==> fits(
            traces[i].stored_bytes + bytes,
        )
}

/// The log after a step of a request that it has, whose payload, if any, is stored already.
pub open spec fn with_event(
    tables: Tables,
    event: StepView,
    payload_id: Option<i64>,
    payload_bytes: i64,
    occurred_at: i64,
) -> Result<Tables, StoreError> {
    let sequence = next_sequence(tables.events, event.trace_id);
    let bytes = payload_bytes + summary_bytes(event.summary);
    if !fits(sequence) {
        Err(StoreError::Overflow)
    } else if tables.last_event_id == i64::MAX {
        Err(StoreError::Full)
    } else if !fits(bytes) || !bump_fits(tables.traces, event.trace_id, bytes) {
        Err(StoreError::Overflow)
    } else {
        let event_id = (tables.last_event_id + 1) as i64;
        Ok(
            Tables {
                events: tables.events.push(
                    event_row(event, event_id, sequence as i64, occurred_at, payload_id),
                ),
                last_event_id: event_id,
                traces: bumped_rows(tables.traces, event.trace_id, bytes, event.attempt_no),
                ..tables
            },
        )
    }
}

/// The row of a payload.
pub open spec fn payload_row(stored: PayloadView, payload_id: i64) -> PayloadRow<
    Seq<char>,
    Seq<u8>,
> {
    PayloadRow {
        payload_id,
        content_type: "application/json"@,
        encoding: stored.encoding,
        body: stored.body,
        original_bytes: stored.original_bytes,
        stored_bytes: stored.stored_bytes,
        sha256: stored.sha256,
        truncated: flag(stored.truncated),
    }
}

/// The log after a payload.
pub open spec fn with_payload(tables: Tables, stored: PayloadView) -> Tables {
    Tables {
        payloads: tables.payloads.push(
            payload_row(stored, (tables.last_payload_id + 1) as i64),
        ),
        last_payload_id: (tables.last_payload_id + 1) as i64,
        ..tables
    }
}

/// What became of the payload of a step: there is none, it could not be written as JSON, or it
/// is stored like this.
pub type Reply = Option<Option<PayloadView>>;

/// The log after a step. A step of a request that the log does not have is passed over.
pub open spec fn with_step(
    tables: Tables,
    event: StepView,
    reply: Reply,
    occurred_at: i64,
) -> Result<Tables, StoreError> {
    if !has_trace(tables.traces, event.trace_id) {
        Ok(tables)
    } else {
        match reply {
            None => with_event(tables, event, None, 0, occurred_at),
            Some(None) => Err(StoreError::Json),
            Some(Some(stored)) => if tables.last_payload_id == i64::MAX {
                Err(StoreError::Full)
            } else {
                with_event(
                    with_payload(tables, stored),
                    event,
                    Some((tables.last_payload_id + 1) as i64),
                    stored.stored_bytes,
                    occurred_at,
                )
            },
        }
    }
}

/// Whether that may become of a payload.
pub open spec fn reply_fits(payload: Option<JsonView>, reply: Reply) -> bool {
    match payload {
        None => reply is None,
        Some(value) => reply is Some && may_encode(redacted(value), reply->0),
    }
}

/// What became of a payload, as held.
pub open spec fn reply_view(reply: Option<Option<EncodedPayload<String, Vec<u8>>>>) -> Reply {
    match reply {
        None => None,
        Some(stored) => Some(optional_payload(stored)),
    }
}

/// The row of a request that begins.
pub open spec fn begin_row(
    trace_id: Seq<char>,
    input: BeginTrace<Seq<char>, JsonView>,
    started_at: i64,
) -> TraceRow<Seq<char>> {
    TraceRow {
        trace_id,
        usage_request_id: None,
        app_type: input.app_type,
        method: input.method,
        path: input.path,
        request_model: input.request_model,
        response_model: None,
        final_provider_id: input.provider_id,
        status_code: None,
        is_streaming: flag(input.is_streaming),
        attempt_count: 0,
        started_at,
        completed_at: None,
        duration_ms: None,
        outcome: "in_progress"@,
        partial: 0,
        dropped_event_count: 0,
        stored_bytes: 0,
    }
}

/// The log after the row of a request, which is passed over where there is one of the same
/// identifier.
pub open spec fn with_trace(tables: Tables, row: TraceRow<Seq<char>>) -> Tables {
    if has_trace(tables.traces, row.trace_id) {
        tables
    } else {
        Tables { traces: tables.traces.push(row), ..tables }
    }
}

/// What is stored of the request that the client sent.
pub open spec fn begin_payload(input: BeginTrace<Seq<char>, JsonView>) -> JsonView {
    JsonView::Object(
        Map::empty().insert("headers"@, redacted(input.headers)).insert(
            "body"@,
            redacted(input.body),
        ),
    )
}

/// The first step of a request.
pub open spec fn begin_step(
    trace_id: Seq<char>,
    input: BeginTrace<Seq<char>, JsonView>,
) -> StepView {
    TraceEventInput {
        trace_id,
        offset_ms: 0,
        stage: "client_request"@,
        kind: "request"@,
        attempt_no: None,
        provider_id: None,
        status_code: None,
        summary: Some("Client request received"@),
        payload: Some(begin_payload(input)),
    }
}

/// The last step of a request.
pub open spec fn complete_step(complete: CompleteTrace<Seq<char>>) -> StepView {
    TraceEventInput {
        trace_id: complete.trace_id,
        offset_ms: complete.duration_ms,
        stage: "complete"@,
        kind: complete.outcome,
        attempt_no: None,
        provider_id: complete.final_provider_id,
        status_code: complete.status_code,
        summary: Some("Request "@ + complete.outcome),
        payload: None,
    }
}

/// The newer value where there is one.
pub open spec fn coalesce<A>(newer: Option<A>, older: Option<A>) -> Option<A> {
    if newer is Some {
        newer
    } else {
        older
    }
}

/// The row of a request that ended: what the end says replaces what was known before, and steps
/// that were dropped are counted and leave the request incomplete.
pub open spec fn completed(
    row: TraceRow<Seq<char>>,
    complete: CompleteTrace<Seq<char>>,
    completed_at: i64,
) -> TraceRow<Seq<char>> {
    let dropped = complete.dropped_event_count as i64;
    TraceRow {
        usage_request_id: coalesce(complete.usage_request_id, row.usage_request_id),
        response_model: coalesce(complete.response_model, row.response_model),
        final_provider_id: coalesce(complete.final_provider_id, row.final_provider_id),
        status_code: match complete.status_code {
            Some(code) => Some(code as i64),
            None => row.status_code,
        },
        completed_at: Some(completed_at),
        duration_ms: Some(complete.duration_ms as i64),
        outcome: complete.outcome,
        partial: if dropped > 0 {
            1
        } else {
            row.partial
        },
        dropped_event_count: (row.dropped_event_count + dropped) as i64,
        ..row
    }
}

/// Whether the count of dropped steps stays in range.
pub open spec fn completion_fits(
    traces: Seq<TraceRow<Seq<char>>>,
    complete: CompleteTrace<Seq<char>>,
) -> bool {
    forall|i: int|
        0 <= i < traces.len() && (#[trigger] traces[i]).trace_id == complete.trace_id ==> fits(
            traces[i].dropped_event_count + (complete.dropped_event_count as i64),
        )
}

/// The requests after the end of one of them.
pub open spec fn completed_rows(
    traces: Seq<TraceRow<Seq<char>>>,
    complete: CompleteTrace<Seq<char>>,
    completed_at: i64,
) -> Seq<TraceRow<Seq<char>>> {
    traces.map_values(
        |row: TraceRow<Seq<char>>|
            if row.trace_id == complete.trace_id {
                completed(row, complete, completed_at)
            } else {
                row
            },
    )
}

/// The log after the end of a request.
pub open spec fn with_completion(
    tables: Tables,
    complete: CompleteTrace<Seq<char>>,
    completed_at: i64,
) -> Result<Tables, StoreError> {
    if completion_fits(tables.traces, complete) {
        Ok(Tables { traces: completed_rows(tables.traces, complete, completed_at), ..tables })
    } else {
        Err(StoreError::Overflow)
    }
}

/// The JSON text of the fields of a message, if it has any that have one.
pub open spec fn fields_text(fields: Option<JsonView>) -> Option<Seq<char>> {
    match fields {
        Some(value) => match json_bytes(value) {
            Some(bytes) => Some(decode_utf8(bytes)),
            None => None,
        },
        None => None,
    }
}

/// Whether fields may be written like this: the text of fields whose text reads back parses to
/// them.
pub open spec fn fields_fit(fields: Option<JsonView>, text: Option<Seq<char>>) -> bool {
    &&& text == fields_text(fields)
    &&& text matches Some(written) ==> fields is Some && (reads_back(fields->0) ==> json_parse(
        encode_utf8(written),
    ) == fields)
}

/// How many bytes a message takes, its fields written like this.
pub open spec fn runtime_bytes(
    input: RuntimeLogInput<Seq<char>, JsonView>,
    fields: Option<Seq<char>>,
) -> int {
    byte_len(input.message) + byte_len(input.target) + match fields {
        Some(text) => byte_len(text) as int,
        None => 0,
    }
}

/// The log after a message, its fields written like this.
pub open spec fn with_runtime(
    tables: Tables,
    input: RuntimeLogInput<Seq<char>, JsonView>,
    fields: Option<Seq<char>>,
) -> Result<Tables, StoreError> {
    if !fits(runtime_bytes(input, fields)) {
        Err(StoreError::Overflow)
    } else if tables.last_log_id == i64::MAX {
        Err(StoreError::Full)
    } else {
        let log_id = (tables.last_log_id + 1) as i64;
        Ok(
            Tables {
                runtime_logs: tables.runtime_logs.push(
                    RuntimeRow {
                        log_id,
                        occurred_at: input.occurred_at,
                        level: input.level,
                        target: input.target,
                        message: input.message,
                        fields_json: fields,
                        stored_bytes: runtime_bytes(input, fields) as i64,
                    },
                ),
                last_log_id: log_id,
                ..tables
            },
        )
    }
}

/// What a command needs from outside the log: the time, the time of its step, what became of its
/// payload, and the text of its fields.
pub struct Outcome<P = EncodedPayload<String, Vec<u8>>, T = String> {
    pub at: i64,
    pub event_at: i64,
    pub reply: Option<Option<P>>,
    pub fields: Option<T>,
}

/// What a command needs from outside the log, as contracts speak of it.
pub type OutcomeView = Outcome<PayloadView, Seq<char>>;

impl View for Outcome {
    type V = OutcomeView;

    open spec fn view(&self) -> OutcomeView {
        Outcome {
            at: self.at,
            event_at: self.event_at,
            reply: reply_view(self.reply),
            fields: optional_text(self.fields),
        }
    }
}

/// A command, as contracts speak of it.
pub type CommandView = WriteCommand<Seq<char>, JsonView>;

/// The payload of a command.
pub open spec fn command_payload(command: CommandView) -> Option<JsonView> {
    match command {
        WriteCommand::Begin { input, .. } => Some(begin_payload(input)),
        WriteCommand::Event(event) => event.payload,
        _ => None,
    }
}

/// The fields of a command.
pub open spec fn command_fields(command: CommandView) -> Option<JsonView> {
    match command {
        WriteCommand::Runtime(input) => input.fields,
        _ => None,
    }
}

/// The log after a command.
pub open spec fn with_command(
    tables: Tables,
    command: CommandView,
    outcome: OutcomeView,
) -> Result<Tables, StoreError> {
    match command {
        WriteCommand::Begin { trace_id, input } => with_step(
            with_trace(tables, begin_row(trace_id, input, outcome.at)),
            begin_step(trace_id, input),
            outcome.reply,
            outcome.event_at,
        ),
        WriteCommand::Event(event) => with_step(tables, event, outcome.reply, outcome.event_at),
        WriteCommand::Complete(complete) => match with_step(
            tables,
            complete_step(complete),
            None,
            outcome.event_at,
        ) {
            Ok(stepped) => with_completion(stepped, complete, outcome.at),
            Err(error) => Err(error),
        },
        WriteCommand::Runtime(input) => with_runtime(tables, input, outcome.fields),
    }
}

/// The log after commands, one after the other; the first error stops them.
pub open spec fn with_commands(
    tables: Tables,
    commands: Seq<CommandView>,
    outcomes: Seq<OutcomeView>,
) -> Result<Tables, StoreError>
    decreases commands.len(),
{
    if commands.len() == 0 {
        Ok(tables)
    } else {
        match with_commands(tables, commands.drop_last(), outcomes.drop_last()) {
            Ok(before) => with_command(before, commands.last(), outcomes.last()),
            Err(error) => Err(error),
        }
    }
}

/// Whether an operation came out as expected.
pub open spec fn came_out(
    expected: Result<Tables, StoreError>,
    after: Tables,
    result: Result<(), StoreError>,
) -> bool {
    match expected {
        Ok(tables) => result is Ok && after == tables,
        Err(error) => result == Err::<(), StoreError>(error),
    }
}

impl LogStore {
    /// Tells whether there is a request of that identifier.
    fn has(&self, id: &str) -> (found: bool)
        ensures
            found == has_trace(self@.traces, id@),
    {
        for i in 0..self.traces.len()
            invariant
                forall|j: int| 0 <= j < i ==> (#[trigger] self@.traces[j]).trace_id != id@,
        {
            if same_text(self.traces[i].trace_id.as_str(), id) {
                assert(self@.traces[i as int].trace_id == id@);
                return true;
            }
        }
        false
    }

    /// The largest number among the steps of a request, if it has any.
    fn last_step(&self, id: &str) -> (last: Option<i64>)
        ensures
            last == last_sequence(self@.events, id@),
    {
        let mut last: Option<i64> = None;
        for i in 0..self.events.len()
            invariant
                last == last_sequence(self@.events.take(i as int), id@),
        {
            assert(self@.events.take(i + 1).drop_last() == self@.events.take(i as int));
            assert(self@.events.take(i + 1).last() == self.events@[i as int]@);
            if same_text(self.events[i].trace_id.as_str(), id) {
                let sequence = self.events[i].sequence;
                match last {
                    Some(found) if found > sequence => {},
                    _ => {
                        last = Some(sequence);
                    },
                }
            }
        }
        assert(self@.events.take(self.events.len() as int) == self@.events);
        last
    }

    /// Adds to the bytes stored for a request, and raises its number of attempts.
    fn bump(&mut self, id: &str, bytes: i64, attempt_no: Option<u32>) -> (result: Result<
        (),
        StoreError,
    >)
        ensures
            bump_fits(old(self)@.traces, id@, bytes as int) ==> result is Ok && final(self)@ == (
            Tables {
                traces: bumped_rows(old(self)@.traces, id@, bytes as int, attempt_no),
                ..old(self)@
            }),
            !bump_fits(old(self)@.traces, id@, bytes as int) ==> result == Err::<(), StoreError>(
                StoreError::Overflow,
            ) && final(self)@ == old(self)@,
    {
        for i in 0..self.traces.len()
            invariant
                forall|j: int|
                    0 <= j < i && (#[trigger] self@.traces[j]).trace_id == id@ ==> fits(
                        self@.traces[j].stored_bytes + bytes,
                    ),
        {
            if same_text(self.traces[i].trace_id.as_str(), id) {
                assert(self@.traces[i as int].trace_id == id@);
                if self.traces[i].stored_bytes.checked_add(bytes).is_none() {
                    return Err(StoreError::Overflow);
                }
            }
        }
        let ghost before = self@.traces;
        let ghost rows = bumped_rows(before, id@, bytes as int, attempt_no);
        let ghost rest = self@;
        let mut i: usize = 0;
        while i < self.traces.len()
            invariant
                i <= self.traces.len(),
                self.traces.len() == before.len(),
                rows == bumped_rows(before, id@, bytes as int, attempt_no),
                bump_fits(before, id@, bytes as int),
                forall|j: int| 0 <= j < i ==> #[trigger] self@.traces[j] == rows[j],
                forall|j: int| i <= j < before.len() ==> #[trigger] self@.traces[j] == before[j],
                self@ == (Tables { traces: self@.traces, ..rest }),
            decreases self.traces.len() - i,
        {
            assert(self@.traces[i as int] == self.traces@[i as int]@);
            if same_text(self.traces[i].trace_id.as_str(), id) {
                let mut row = self.traces[i].clone();
                assert(row@ == before[i as int]);
                row.stored_bytes = row.stored_bytes + bytes;
                match attempt_no {
                    Some(number) => {
                        if (number as i64) > row.attempt_count {
                            row.attempt_count = number as i64;
                        }
                    },
                    None => {},
                }
                assert(row@ == rows[i as int]);
                let ghost prior = self@.traces;
                let ghost new = row@;
                self.traces[i] = row;
                assert(self@.traces =~= prior.update(i as int, new));
            } else {
                assert(before[i as int] == rows[i as int]);
            }
            i = i + 1;
        }
        assert(self@.traces =~= rows);
        Ok(())
    }

    /// Stores a payload, and gives its identifier and the bytes it takes.
    pub fn insert_payload(&mut self, stored: &EncodedPayload<String, Vec<u8>>) -> (inserted: Result<
        (i64, i64),
        StoreError,
    >)
        ensures
            old(self)@.last_payload_id == i64::MAX ==> inserted == Err::<(i64, i64), StoreError>(
                StoreError::Full,
            ) && final(self)@ == old(self)@,
            old(self)@.last_payload_id < i64::MAX ==> inserted == Ok::<(i64, i64), StoreError>(
                ((old(self)@.last_payload_id + 1) as i64, stored.stored_bytes),
            ) && final(self)@ == with_payload(old(self)@, stored@),
    {
        if self.last_payload_id == i64::MAX {
            return Err(StoreError::Full);
        }
        let payload_id = self.last_payload_id + 1;
        let body = stored.body.clone();
        assert(body@ =~= stored.body@);
        let row = PayloadRow {
            payload_id,
            content_type: "application/json".to_owned(),
            encoding: stored.encoding.clone(),
            body,
            original_bytes: stored.original_bytes,
            stored_bytes: stored.stored_bytes,
            sha256: stored.sha256.clone(),
            truncated: bool_to_i64(stored.truncated),
        };
        let ghost before = self@.payloads;
        let ghost new = row@;
        self.payloads.push(row);
        self.last_payload_id = payload_id;
        assert(self@.payloads =~= before.push(new));
        Ok((payload_id, stored.stored_bytes))
    }

    /// Stores a step of a request that the log has.
    fn insert_event_row(
        &mut self,
        event: &TraceEventInput,
        payload_id: Option<i64>,
        payload_bytes: i64,
        occurred_at: i64,
    ) -> (result: Result<(), StoreError>)
        ensures
            came_out(
                with_event(old(self)@, event@, payload_id, payload_bytes, occurred_at),
                final(self)@,
                result,
            ),
            result is Err ==> final(self)@ == old(self)@,
    {
        let sequence = match self.last_step(event.trace_id.as_str()) {
            Some(last) => if last == i64::MAX {
                return Err(StoreError::Overflow);
            } else {
                last + 1
            },
            None => 1,
        };
        if self.last_event_id == i64::MAX {
            return Err(StoreError::Full);
        }
        let summary_size = match &event.summary {
            Some(text) => text.as_str().as_bytes().len() as i64,
            None => 0,
        };
        let bytes = match payload_bytes.checked_add(summary_size) {
            Some(sum) => sum,
            None => {
                return Err(StoreError::Overflow);
            },
        };
        match self.bump(event.trace_id.as_str(), bytes, event.attempt_no) {
            Ok(_) => {},
            Err(error) => {
                return Err(error);
            },
        }
        let event_id = self.last_event_id + 1;
        let row = EventRow {
            event_id,
            trace_id: event.trace_id.clone(),
            sequence,
            occurred_at,
            offset_ms: event.offset_ms as i64,
            stage: event.stage.clone(),
            kind: event.kind.clone(),
            attempt_no: match event.attempt_no {
                Some(number) => Some(number as i64),
                None => None,
            },
            provider_id: copy_text(&event.provider_id),
            status_code: match event.status_code {
                Some(code) => Some(code as i64),
                None => None,
            },
            summary: copy_text(&event.summary),
            payload_id,
        };
        let ghost before = self@.events;
        let ghost new = row@;
        self.events.push(row);
        self.last_event_id = event_id;
        assert(self@.events =~= before.push(new));
        Ok(())
    }

    /// Stores a step, given what became of its payload; one of a request that the log does not
    /// have is passed over. On an error nothing is changed.
    pub fn insert_event(
        &mut self,
        event: &TraceEventInput,
        reply: &Option<Option<EncodedPayload<String, Vec<u8>>>>,
        occurred_at: i64,
    ) -> (result: Result<(), StoreError>)
        ensures
            came_out(
                with_step(old(self)@, event@, reply_view(*reply), occurred_at),
                final(self)@,
                result,
            ),
            result is Err ==> final(self)@ == old(self)@,
    {
        if !self.has(event.trace_id.as_str()) {
            return Ok(());
        }
        match reply {
            None => self.insert_event_row(event, None, 0, occurred_at),
            Some(None) => Err(StoreError::Json),
            Some(Some(stored)) => {
                let last = self.last_payload_id;
                let (payload_id, payload_bytes) = match self.insert_payload(stored) {
                    Ok(inserted) => inserted,
                    Err(error) => {
                        return Err(error);
                    },
                };
                let result = self.insert_event_row(
                    event,
                    Some(payload_id),
                    payload_bytes,
                    occurred_at,
                );
                if result.is_err() {
                    let ghost full = self@.payloads;
                    self.payloads.pop();
                    self.last_payload_id = last;
                    assert(self@.payloads =~= full.drop_last());
                    assert(full.drop_last() =~= old(self)@.payloads);
                }
                result
            },
        }
    }

    /// Stores the row of a request that begins, unless there is one of its identifier.
    fn insert_trace(&mut self, trace_id: &String, input: &BeginTrace, started_at: i64)
        ensures
            final(self)@ == with_trace(old(self)@, begin_row(trace_id@, input@, started_at)),
    {
        if !self.has(trace_id.as_str()) {
            let row = TraceRow {
                trace_id: trace_id.clone(),
                usage_request_id: None,
                app_type: input.app_type.clone(),
                method: input.method.clone(),
                path: input.path.clone(),
                request_model: copy_text(&input.request_model),
                response_model: None,
                final_provider_id: copy_text(&input.provider_id),
                status_code: None,
                is_streaming: bool_to_i64(input.is_streaming),
                attempt_count: 0,
                started_at,
                completed_at: None,
                duration_ms: None,
                outcome: "in_progress".to_owned(),
                partial: 0,
                dropped_event_count: 0,
                stored_bytes: 0,
            };
            let ghost before = self@.traces;
            let ghost new = row@;
            self.traces.push(row);
            assert(self@.traces =~= before.push(new));
        }
    }

    /// Stores what the end of a request says.
    fn finish_trace(&mut self, complete: &CompleteTrace, completed_at: i64) -> (result: Result<
        (),
        StoreError,
    >)
        ensures
            came_out(with_completion(old(self)@, complete@, completed_at), final(self)@, result),
    {
        let dropped = complete.dropped_event_count as i64;
        for i in 0..self.traces.len()
            invariant
                dropped == complete.dropped_event_count as i64,
                forall|j: int|
                    0 <= j < i && (#[trigger] self@.traces[j]).trace_id == complete@.trace_id
                        ==> fits(self@.traces[j].dropped_event_count + dropped),
        {
            if same_text(self.traces[i].trace_id.as_str(), complete.trace_id.as_str()) {
                assert(self@.traces[i as int].trace_id == complete@.trace_id);
                if self.traces[i].dropped_event_count.checked_add(dropped).is_none() {
                    return Err(StoreError::Overflow);
                }
            }
        }
        let ghost before = self@.traces;
        let ghost rows = completed_rows(before, complete@, completed_at);
        let ghost rest = self@;
        let mut i: usize = 0;
        while i < self.traces.len()
            invariant
                i <= self.traces.len(),
                dropped == complete.dropped_event_count as i64,
                self.traces.len() == before.len(),
                rows == completed_rows(before, complete@, completed_at),
                completion_fits(before, complete@),
                forall|j: int| 0 <= j < i ==> #[trigger] self@.traces[j] == rows[j],
                forall|j: int| i <= j < before.len() ==> #[trigger] self@.traces[j] == before[j],
                self@ == (Tables { traces: self@.traces, ..rest }),
            decreases self.traces.len() - i,
        {
            assert(self@.traces[i as int] == self.traces@[i as int]@);
            if same_text(self.traces[i].trace_id.as_str(), complete.trace_id.as_str()) {
                let mut row = self.traces[i].clone();
                if complete.usage_request_id.is_some() {
                    row.usage_request_id = copy_text(&complete.usage_request_id);
                }
                if complete.response_model.is_some() {
                    row.response_model = copy_text(&complete.response_model);
                }
                if complete.final_provider_id.is_some() {
                    row.final_provider_id = copy_text(&complete.final_provider_id);
                }
                match complete.status_code {
                    Some(code) => {
                        row.status_code = Some(code as i64);
                    },
                    None => {},
                }
                row.completed_at = Some(completed_at);
                row.duration_ms = Some(complete.duration_ms as i64);
                row.outcome = complete.outcome.clone();
                if dropped > 0 {
                    row.partial = 1;
                }
                row.dropped_event_count = row.dropped_event_count + dropped;
                assert(row@ =~= rows[i as int]);
                let ghost prior = self@.traces;
                let ghost new = row@;
                self.traces[i] = row;
                assert(self@.traces =~= prior.update(i as int, new));
            } else {
                assert(before[i as int] == rows[i as int]);
            }
            i = i + 1;
        }
        assert(self@.traces =~= rows);
        Ok(())
    }

    /// Stores a message.
    fn insert_runtime(&mut self, input: &RuntimeLogInput, fields: &Option<String>) -> (result:
        Result<(), StoreError>)
        ensures
            came_out(
                with_runtime(old(self)@, input@, optional_text(*fields)),
                final(self)@,
                result,
            ),
    {
        let fields_json = copy_text(fields);
        let message_size = input.message.as_str().as_bytes().len();
        let target_size = input.target.as_str().as_bytes().len();
        let fields_size = match &fields_json {
            Some(text) => text.as_str().as_bytes().len(),
            None => 0,
        };
        let size: u128 = message_size as u128 + target_size as u128 + fields_size as u128;
        if size > i64::MAX as u128 {
            return Err(StoreError::Overflow);
        }
        if self.last_log_id == i64::MAX {
            return Err(StoreError::Full);
        }
        let log_id = self.last_log_id + 1;
        let row = RuntimeRow {
            log_id,
            occurred_at: input.occurred_at,
            level: input.level.clone(),
            target: input.target.clone(),
            message: input.message.clone(),
            fields_json,
            stored_bytes: size as i64,
        };
        let ghost before = self@.runtime_logs;
        let ghost new = row@;
        self.runtime_logs.push(row);
        self.last_log_id = log_id;
        assert(self@.runtime_logs =~= before.push(new));
        Ok(())
    }

    /// Stores what a command says.
    fn apply(&mut self, command: &WriteCommand, outcome: &Outcome) -> (result: Result<
        (),
        StoreError,
    >)
        ensures
            came_out(with_command(old(self)@, command@, outcome@), final(self)@, result),
    {
        match command {
            WriteCommand::Begin { trace_id, input } => {
                self.insert_trace(trace_id, input, outcome.at);
                let step = TraceEventInput {
                    trace_id: trace_id.clone(),
                    offset_ms: 0,
                    stage: "client_request".to_owned(),
                    kind: "request".to_owned(),
                    attempt_no: None,
                    provider_id: None,
                    status_code: None,
                    summary: Some("Client request received".to_owned()),
                    payload: None,
                };
                self.insert_event(&step, &outcome.reply, outcome.event_at)
            },
            WriteCommand::Event(event) => self.insert_event(event, &outcome.reply, outcome.event_at),
            WriteCommand::Complete(complete) => {
                let mut summary = "Request ".to_owned();
                summary.append(complete.outcome.as_str());
                let step = TraceEventInput {
                    trace_id: complete.trace_id.clone(),
                    offset_ms: complete.duration_ms,
                    stage: "complete".to_owned(),
                    kind: complete.outcome.clone(),
                    attempt_no: None,
                    provider_id: copy_text(&complete.final_provider_id),
                    status_code: complete.status_code,
                    summary: Some(summary),
                    payload: None,
                };
                match self.insert_event(&step, &None, outcome.event_at) {
                    Ok(_) => self.finish_trace(complete, outcome.at),
                    Err(error) => Err(error),
                }
            },
            WriteCommand::Runtime(input) => self.insert_runtime(input, &outcome.fields),
        }
    }
}

/// Writes the fields of a message as JSON; they are left out where that cannot be done. The text
/// of fields whose text reads back parses to them.
pub fn write_fields(fields: &Option<Json>) -> (text: Option<String>)
    ensures
        fields_fit(optional_json(*fields), optional_text(text)),
{
    match fields {
        Some(value) => match value.to_text() {
            Some(text) => {
                proof {
                    encode_utf8_decode_utf8(text@);
                }
                Some(text)
            },
            None => None,
        },
        None => None,
    }
}

/// What commands are.
pub open spec fn commands_view(commands: Seq<WriteCommand>) -> Seq<CommandView> {
    commands.map_values(|command: WriteCommand| command@)
}

/// What outcomes are.
pub open spec fn outcomes_view(outcomes: Seq<Outcome>) -> Seq<OutcomeView> {
    outcomes.map_values(|outcome: Outcome| outcome@)
}

/// Whether outcomes are ones that commands may have: a time that is not before the epoch, what
/// may become of the payload, and the text of the fields.
pub open spec fn outcomes_fit(
    commands: Seq<CommandView>,
    outcomes: Seq<OutcomeView>,
) -> bool {
    &&& outcomes.len() == commands.len()
    &&& forall|i: int|
        0 <= i < commands.len() ==> (#[trigger] outcomes[i]).at >= 0 && outcomes[i].event_at >= 0
            && reply_fits(command_payload(commands[i]), outcomes[i].reply) && fields_fit(
            command_fields(commands[i]),
            outcomes[i].fields,
        )
}

/// Whether a batch came out as expected: all of it is in the log, or, on an error, none of it.
pub open spec fn batch_came_out(
    before: Tables,
    expected: Result<Tables, StoreError>,
    after: Tables,
    result: Result<(), StoreError>,
) -> bool {
    match expected {
        Ok(tables) => result is Ok && after == tables,
        Err(error) => result == Err::<(), StoreError>(error) && after == before,
    }
}

/// Writes what is stored of the request that the client sent.
fn write_begin_payload(patterns: &RedactionPatterns, input: &BeginTrace) -> (payload: Json)
    ensures
        payload@ == begin_payload(input@),
{
    let mut members: Vec<(String, Json)> = Vec::new();
    members.push(("headers".to_owned(), redact_value(patterns, &input.headers)));
    members.push(("body".to_owned(), redact_value(patterns, &input.body)));
    proof {
        reveal_with_fuel(members_view, 3);
        let all = members@;
        assert(all.drop_last().drop_last().len() == 0);
        assert(members_view(all) =~= Map::empty().insert(all[0].0@, json_view(all[0].1)).insert(
            all[1].0@,
            json_view(all[1].1),
        ));
    }
    Json::Object(members)
}

/// Gets what a command needs from outside the log: reads the clock and prepares the payload.
pub fn prepare(patterns: &RedactionPatterns, command: &WriteCommand) -> (outcome: Outcome)
    ensures
        outcome.at >= 0,
        outcome.event_at >= 0,
        reply_fits(command_payload(command@), outcome@.reply),
        fields_fit(command_fields(command@), outcome@.fields),
{
    let at = now_millis();
    let reply = match command {
        WriteCommand::Begin { input, .. } => Some(
            encode_payload(patterns, &write_begin_payload(patterns, input)),
        ),
        WriteCommand::Event(event) => match &event.payload {
            Some(payload) => Some(encode_payload(patterns, payload)),
            None => None,
        },
        _ => None,
    };
    let fields = match command {
        WriteCommand::Runtime(input) => write_fields(&input.fields),
        _ => None,
    };
    let event_at = now_millis();
    Outcome { at, event_at, reply, fields }
}

impl LogStore {
    /// Stores commands, given what each of them needs from outside the log.
    pub fn apply_batch(&mut self, batch: &Vec<WriteCommand>, outcomes: &Vec<Outcome>) -> (result:
        Result<(), StoreError>)
        requires
            batch.len() == outcomes.len(),
        ensures
            batch_came_out(
                old(self)@,
                with_commands(old(self)@, commands_view(batch@), outcomes_view(outcomes@)),
                final(self)@,
                result,
            ),
    {
        let ghost commands = commands_view(batch@);
        let ghost replies = outcomes_view(outcomes@);
        let mut work = self.clone();
        for i in 0..batch.len()
            invariant
                batch.len() == outcomes.len(),
                commands == commands_view(batch@),
                replies == outcomes_view(outcomes@),
                self@ == old(self)@,
                with_commands(old(self)@, commands.take(i as int), replies.take(i as int)) == Ok::<
                    Tables,
                    StoreError,
                >(work@),
        {
            proof {
                assert(commands.take(i + 1).drop_last() == commands.take(i as int));
                assert(replies.take(i + 1).drop_last() == replies.take(i as int));
                assert(commands.take(i + 1).last() == batch@[i as int]@);
                assert(replies.take(i + 1).last() == outcomes@[i as int]@);
            }
            match work.apply(&batch[i], &outcomes[i]) {
                Ok(_) => {},
                Err(error) => {
                    proof {
                        lemma_error_stops(old(self)@, commands, replies, i + 1);
                    }
                    return Err(error);
                },
            }
        }
        assert(commands.take(batch.len() as int) == commands);
        assert(replies.take(batch.len() as int) == replies);
        *self = work;
        Ok(())
    }

    /// Stores commands: all of them, or, on an error, none.
    pub fn write_batch(&mut self, patterns: &RedactionPatterns, batch: &Vec<WriteCommand>) -> (
    result: Result<(), StoreError>)
        ensures
            exists|outcomes: Seq<OutcomeView>| #[trigger]
                outcomes_fit(commands_view(batch@), outcomes) && batch_came_out(
                    old(self)@,
                    with_commands(old(self)@, commands_view(batch@), outcomes),
                    final(self)@,
                    result,
                ),
    {
        let mut outcomes: Vec<Outcome> = Vec::new();
        for i in 0..batch.len()
            invariant
                self@ == old(self)@,
                outcomes.len() == i,
                forall|j: int|
                    0 <= j < i ==> (#[trigger] outcomes@[j]).at >= 0 && outcomes@[j].event_at >= 0
                        && reply_fits(command_payload(batch@[j]@), outcomes@[j]@.reply)
                        && fields_fit(command_fields(batch@[j]@), outcomes@[j]@.fields),
        {
            outcomes.push(prepare(patterns, &batch[i]));
        }
        assert(outcomes_fit(commands_view(batch@), outcomes_view(outcomes@))) by {
            assert forall|i: int| 0 <= i < batch@.len() implies (#[trigger] outcomes_view(
                outcomes@,
            )[i]).at >= 0 && outcomes_view(outcomes@)[i].event_at >= 0 && reply_fits(
                command_payload(commands_view(batch@)[i]),
                outcomes_view(outcomes@)[i].reply,
            ) && fields_fit(
                command_fields(commands_view(batch@)[i]),
                outcomes_view(outcomes@)[i].fields,
            ) by {
                assert(outcomes@[i].at >= 0);
            }
        }
        self.apply_batch(batch, &outcomes)
    }
}

/// The error that stops some of the commands is the one that stops all of them.
proof fn lemma_error_stops(
    tables: Tables,
    commands: Seq<CommandView>,
    outcomes: Seq<OutcomeView>,
    reached: int,
)
    requires
        0 <= reached <= commands.len(),
        outcomes.len() == commands.len(),
        with_commands(tables, commands.take(reached), outcomes.take(reached)) is Err,
    ensures
        with_commands(tables, commands, outcomes) == with_commands(
            tables,
            commands.take(reached),
            outcomes.take(reached),
        ),
    decreases commands.len() - reached,
{
    if reached == commands.len() {
        assert(commands.take(reached) == commands);
        assert(outcomes.take(reached) == outcomes);
    } else {
        let next = reached + 1;
        assert(commands.take(next).drop_last() == commands.take(reached));
        assert(outcomes.take(next).drop_last() == outcomes.take(reached));
        lemma_error_stops(tables, commands, outcomes, next);
    }
}

} // verus!
