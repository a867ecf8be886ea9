//! The service that takes what is to be recorded and hands it to the writer.
use crate::json::{optional_json, Json, JsonView};
use crate::maintenance::{cleared, log_sizes, total, trace_sizes, RETENTION_DAYS};
use crate::outside::{new_trace_id, now_millis, random_id};
use crate::query::{answers_logs, answers_traces, optional_detail, shows_trace};
use crate::records::{
    command_trace, optional_text, BeginTrace, CompleteTrace, DiagnosticLogHealth,
    RequestTraceDetail, RequestTraceSummary, RuntimeLogInput, RuntimeLogQuery, RuntimeLogRecord,
    TraceEventInput, TraceQuery, WriteCommand,
};
use crate::redact::{redact_text, redact_value, redacted, redacted_text, RedactionPatterns};
use crate::store::{commands_view, fits, CommandView};
use crate::tables::{copy_text, LogStore, Tables};
use crate::text::{lower_text, lowered, same_text};
use crate::urls::{safe_path, strip_path};
use std::collections::VecDeque;
use vstd::hash_map::StringHashMap;
use vstd::prelude::*;
use vstd::string::*;

verus! {

/// How many commands may wait for the writer.
pub const QUEUE_CAPACITY: usize = 4096;

/// How many commands the writer takes at a time.
pub const MAX_BATCH_SIZE: usize = 100;

/// What the service knows.
#[verifier::ext_equal]
pub struct ServiceView {
    /// Where the log is stored.
    pub db_path: Seq<char>,
    /// The commands that wait for the writer, the oldest first.
    pub queue: Seq<CommandView>,
    /// Whether there is a writer that will take them.
    pub connected: bool,
    /// How many commands were dropped.
    pub dropped_events: u64,
    /// How many commands of each request were dropped since that was last asked for.
    pub dropped_by_trace: Map<Seq<char>, u64>,
    /// What last went wrong, if nothing went well since.
    pub last_error: Option<Seq<char>>,
}

/// The service: a bounded queue to the writer, a count of what did not fit into it, and the last
/// error.
pub struct DiagnosticLogService {
    db_path: String,
    queue: VecDeque<WriteCommand>,
    connected: bool,
    dropped_events: u64,
    dropped_by_trace: StringHashMap<u64>,
    last_error: Option<String>,
}

impl View for DiagnosticLogService {
    type V = ServiceView;

    closed spec fn view(&self) -> ServiceView {
        ServiceView {
            db_path: self.db_path@,
            queue: commands_view(self.queue@),
            connected: self.connected,
            dropped_events: self.dropped_events,
            dropped_by_trace: self.dropped_by_trace@,
            last_error: optional_text(self.last_error),
        }
    }
}

/// A service that has just started.
pub open spec fn started(db_path: Seq<char>) -> ServiceView {
    ServiceView {
        db_path,
        queue: Seq::empty(),
        connected: true,
        dropped_events: 0,
        dropped_by_trace: Map::empty(),
        last_error: None,
    }
}

/// How many commands of a request were dropped since that was last asked for.
pub open spec fn dropped_for(service: ServiceView, id: Seq<char>) -> u64 {
    if service.dropped_by_trace.contains_key(id) {
        service.dropped_by_trace[id]
    } else {
        0
    }
}

/// How much a command matters, where not all of them can wait for the writer: most the start and
/// the end of a request, each attempt, and errors; least the messages that trace the program, and
/// after them what is streamed.
pub open spec fn rank(command: CommandView) -> u8 {
    match command {
        WriteCommand::Begin { .. } => 3,
        WriteCommand::Complete(_) => 3,
        WriteCommand::Event(event) => if event.stage == "upstream_attempt"@ || event.kind
            == "error"@ || event.kind == "cancelled"@ {
            3
        } else if event.stage == "stream"@ {
            1
        } else {
            2
        },
        WriteCommand::Runtime(input) => if input.level == "error"@ {
            3
        } else if input.level == "debug"@ || input.level == "trace"@ {
            0
        } else {
            2
        },
    }
}

/// The place of the command that matters least, the oldest of them.
pub open spec fn weakest(queue: Seq<CommandView>) -> int
    decreases queue.len(),
{
    if queue.len() <= 1 {
        0
    } else {
        let before = weakest(queue.drop_last());
        if rank(queue.last()) < rank(queue[before]) {
            queue.len() - 1
        } else {
            before
        }
    }
}

/// A service that dropped a command: it is counted, for its request too.
pub open spec fn drop_counted(service: ServiceView, command: CommandView) -> ServiceView {
    ServiceView {
        dropped_events: service.dropped_events.wrapping_add(1),
        dropped_by_trace: match command_trace(command) {
            Some(id) => service.dropped_by_trace.insert(
                id,
                dropped_for(service, id).wrapping_add(1),
            ),
            None => service.dropped_by_trace,
        },
        ..service
    }
}

/// Whether a command may wait for the writer: there is one, and the queue has room, or holds a
/// command that matters less.
pub open spec fn has_room(service: ServiceView, command: CommandView) -> bool {
    service.connected && (service.queue.len() < QUEUE_CAPACITY || rank(
        service.queue[weakest(service.queue)],
    ) < rank(command))
}

/// A service with room for a command: where the queue is full, the command that matters least is
/// dropped.
pub open spec fn with_room(service: ServiceView) -> ServiceView {
    if service.queue.len() < QUEUE_CAPACITY {
        service
    } else {
        let at = weakest(service.queue);
        ServiceView {
            queue: service.queue.remove(at),
            ..drop_counted(service, service.queue[at])
        }
    }
}

/// The service after a command: it waits for the writer behind all others, where need be in place
/// of a command that matters less. Where there is no room it is dropped and counted; without a
/// writer too, and that is an error.
pub open spec fn enqueued(service: ServiceView, command: CommandView) -> ServiceView {
    if !service.connected {
        ServiceView {
            dropped_events: service.dropped_events.wrapping_add(1),
            last_error: Some("Diagnostic log writer is not running"@),
            ..service
        }
    } else if has_room(service, command) {
        let roomy = with_room(service);
        ServiceView { queue: roomy.queue.push(command), ..roomy }
    } else {
        drop_counted(service, command)
    }
}

/// The command that matters least is one of the queue, and none matters less.
pub proof fn lemma_weakest(queue: Seq<CommandView>)
    requires
        queue.len() > 0,
    ensures
        0 <= weakest(queue) < queue.len(),
        forall|i: int|
            0 <= i < queue.len() ==> rank(queue[weakest(queue)]) <= rank(#[trigger] queue[i]),
        forall|i: int|
            0 <= i < weakest(queue) ==> rank(queue[weakest(queue)]) < rank(#[trigger] queue[i]),
    decreases queue.len(),
{
    if queue.len() > 1 {
        let before = queue.drop_last();
        lemma_weakest(before);
        assert forall|i: int| 0 <= i < queue.len() implies rank(queue[weakest(queue)]) <= rank(
            #[trigger] queue[i],
        ) by {
            if i < before.len() {
                assert(before[i] == queue[i]);
            }
        }
        assert forall|i: int| 0 <= i < weakest(queue) implies rank(queue[weakest(queue)]) < rank(
            #[trigger] queue[i],
        ) by {
            assert(before[i] == queue[i]);
        }
    }
}

impl WriteCommand {
    /// Tells how much the command matters.
    pub fn priority(&self) -> (priority: u8)
        ensures
            priority == rank(self@),
    {
        match self {
            WriteCommand::Begin { .. } => 3,
            WriteCommand::Complete(_) => 3,
            WriteCommand::Event(event) => if same_text(event.stage.as_str(), "upstream_attempt")
                || same_text(event.kind.as_str(), "error") || same_text(
                event.kind.as_str(),
                "cancelled",
            ) {
                3
            } else if same_text(event.stage.as_str(), "stream") {
                1
            } else {
                2
            },
            WriteCommand::Runtime(input) => if same_text(input.level.as_str(), "error") {
                3
            } else if same_text(input.level.as_str(), "debug") || same_text(
                input.level.as_str(),
                "trace",
            ) {
                0
            } else {
                2
            },
        }
    }
}

impl DiagnosticLogService {
    /// Starts a service whose log is stored there.
    pub fn start(db_path: String) -> (service: DiagnosticLogService)
        ensures
            service@ == started(db_path@),
    {
        let service = DiagnosticLogService {
            db_path,
            queue: VecDeque::new(),
            connected: true,
            dropped_events: 0,
            dropped_by_trace: StringHashMap::new(),
            last_error: None,
        };
        assert(service@.queue =~= Seq::empty());
        service
    }

    /// Where the log is stored.
    pub fn db_path(&self) -> (path: &str)
        ensures
            path@ == self@.db_path,
    {
        self.db_path.as_str()
    }

    /// Whether commands wait for the writer.
    pub fn has_work(&self) -> (waiting: bool)
        ensures
            waiting == (self@.queue.len() > 0),
    {
        self.queue.len() > 0
    }

    /// Remembers an error.
    pub fn set_error(&mut self, error: String)
        ensures
            final(self)@ == (ServiceView { last_error: Some(error@), ..old(self)@ }),
    {
        self.last_error = Some(error);
    }

    /// Forgets the last error.
    pub fn clear_error(&mut self)
        ensures
            final(self)@ == (ServiceView { last_error: None, ..old(self)@ }),
    {
        self.last_error = None;
    }

    /// Notes that there is no writer any more; what waited for it is lost.
    pub fn disconnect(&mut self)
        ensures
            final(self)@ == (ServiceView { connected: false, queue: Seq::empty(), ..old(self)@ }),
    {
        self.connected = false;
        self.queue = VecDeque::new();
        assert(self@.queue =~= Seq::empty());
    }

    /// Takes the count of dropped commands of a request; it starts anew.
    pub fn take_dropped_for_trace(&mut self, trace_id: &str) -> (dropped: u64)
        ensures
            dropped == dropped_for(old(self)@, trace_id@),
            final(self)@ == (ServiceView {
                dropped_by_trace: old(self)@.dropped_by_trace.remove(trace_id@),
                ..old(self)@
            }),
    {
        let dropped = match self.dropped_by_trace.get(trace_id) {
            Some(count) => *count,
            None => 0,
        };
        self.dropped_by_trace.remove(trace_id);
        dropped
    }

    /// Counts a command that is dropped.
    fn count_drop(&mut self, command: &WriteCommand)
        ensures
            final(self)@ == drop_counted(old(self)@, command@),
    {
        self.dropped_events = self.dropped_events.wrapping_add(1);
        match command.trace_id() {
            Some(id) => {
                let dropped = match self.dropped_by_trace.get(id) {
                    Some(count) => *count,
                    None => 0,
                };
                self.dropped_by_trace.insert(id.to_owned(), dropped.wrapping_add(1));
            },
            None => {},
        }
    }

    /// Finds the command in the queue that matters least.
    fn find_weakest(&self) -> (found: (usize, u8))
        requires
            self@.queue.len() > 0,
        ensures
            found.0 == weakest(self@.queue),
            found.0 < self@.queue.len(),
            found.1 == rank(self@.queue[found.0 as int]),
    {
        let mut at: usize = 0;
        let mut least = self.queue[0].priority();
        let mut i: usize = 1;
        let ghost all = self@.queue;
        assert(all[0] == self.queue@[0]@);
        assert(all.take(1).len() == 1);
        while i < self.queue.len()
            invariant
                all == commands_view(self.queue@),
                1 <= i <= self.queue.len(),
                at < i,
                at == weakest(all.take(i as int)),
                least == rank(all[at as int]),
            decreases self.queue.len() - i,
        {
            let priority = self.queue[i].priority();
            assert(all.take(i + 1).drop_last() == all.take(i as int));
            assert(all.take(i + 1).last() == self.queue@[i as int]@);
            if priority < least {
                at = i;
                least = priority;
            }
            i = i + 1;
        }
        assert(all.take(all.len() as int) == all);
        (at, least)
    }

    /// Makes room for a command that matters so much, where there is none, if there can be; tells
    /// whether there is room.
    fn make_room(&mut self, priority: u8) -> (made: bool)
        ensures
            made == (old(self)@.connected && (old(self)@.queue.len() < QUEUE_CAPACITY || rank(
                old(self)@.queue[weakest(old(self)@.queue)],
            ) < priority)),
            made ==> final(self)@ == with_room(old(self)@),
            !made ==> final(self)@ == old(self)@,
    {
        if !self.connected {
            return false;
        }
        if self.queue.len() < QUEUE_CAPACITY {
            return true;
        }
        let (at, least) = self.find_weakest();
        if least >= priority {
            return false;
        }
        let ghost queued = self.queue@;
        match self.queue.remove(at) {
            Some(command) => {
                assert(commands_view(self.queue@) =~= commands_view(queued).remove(at as int));
                assert(command@ == old(self)@.queue[at as int]);
                self.count_drop(&command);
            },
            None => {},
        }
        true
    }

    /// Puts a command behind all others that wait for the writer.
    fn push(&mut self, command: WriteCommand)
        ensures
            final(self)@ == (ServiceView {
                queue: old(self)@.queue.push(command@),
                ..old(self)@
            }),
    {
        let ghost before = self.queue@;
        let ghost new = command@;
        self.queue.push_back(command);
        assert(commands_view(self.queue@) =~= commands_view(before).push(new));
    }

    /// Hands a command to the writer, without ever waiting for it.
    pub fn enqueue(&mut self, command: WriteCommand)
        ensures
            final(self)@ == enqueued(old(self)@, command@),
    {
        if !self.connected {
            self.dropped_events = self.dropped_events.wrapping_add(1);
            self.set_error("Diagnostic log writer is not running".to_owned());
        } else if self.make_room(command.priority()) {
            self.push(command);
        } else {
            self.count_drop(&command);
        }
    }

    /// Takes the next commands for the writer: the oldest ones, at most so many.
    pub fn take_batch(&mut self) -> (batch: Vec<WriteCommand>)
        ensures
            commands_view(batch@) == next_batch(old(self)@.queue),
            final(self)@ == (ServiceView { queue: after_batch(old(self)@.queue), ..old(self)@ }),
    {
        let ghost all = commands_view(self.queue@);
        let ghost before = self@;
        let mut batch: Vec<WriteCommand> = Vec::new();
        assert(all.skip(0) == all);
        assert(commands_view(batch@) =~= all.take(0));
        while batch.len() < MAX_BATCH_SIZE && self.queue.len() > 0
            invariant
                batch.len() <= MAX_BATCH_SIZE,
                batch.len() + self.queue.len() == all.len(),
                commands_view(batch@) == all.take(batch.len() as int),
                commands_view(self.queue@) == all.skip(batch.len() as int),
                self@ == (ServiceView { queue: commands_view(self.queue@), ..before }),
            decreases MAX_BATCH_SIZE - batch.len(),
        {
            let ghost queued = self.queue@;
            let ghost taken = batch@;
            match self.queue.pop_front() {
                Some(command) => {
                    let ghost new = command@;
                    batch.push(command);
                    assert(commands_view(queued)[0] == new);
                    assert(commands_view(batch@) =~= commands_view(taken).push(new));
                    assert(all.take(taken.len() as int + 1) == all.take(taken.len() as int).push(new));
                    assert(commands_view(self.queue@) =~= commands_view(queued).drop_first());
                    assert(all.skip(taken.len() as int + 1) == all.skip(taken.len() as int).drop_first());
                },
                None => {},
            }
        }
        assert(all.take(batch.len() as int) == next_batch(all));
        assert(all.skip(batch.len() as int) == after_batch(all));
        batch
    }
}

/// How many of so many commands the writer takes at a time.
pub open spec fn batch_len(waiting: nat) -> nat {
    if waiting <= MAX_BATCH_SIZE {
        waiting
    } else {
        MAX_BATCH_SIZE as nat
    }
}

/// The commands that the writer takes next.
pub open spec fn next_batch(queue: Seq<CommandView>) -> Seq<CommandView> {
    queue.take(batch_len(queue.len()) as int)
}

/// The commands that still wait when the writer has taken some.
pub open spec fn after_batch(queue: Seq<CommandView>) -> Seq<CommandView> {
    queue.skip(batch_len(queue.len()) as int)
}

/// What the log holds, if it can be read.
pub open spec fn optional_tables(log: Option<&LogStore>) -> Option<Tables> {
    match log {
        Some(store) => Some(store@),
        None => None,
    }
}

/// The bytes stored for requests and for messages; none where the log cannot be read, or where
/// one of the sums is out of range.
pub open spec fn stored_sizes(log: Option<Tables>) -> (i64, i64) {
    match log {
        Some(tables) => {
            let requests = total(trace_sizes(tables.traces));
            let messages = total(log_sizes(tables.runtime_logs));
            if fits(requests) && fits(messages) {
                (requests as i64, messages as i64)
            } else {
                (0, 0)
            }
        },
        None => (0, 0),
    }
}

/// How the log is doing.
pub open spec fn health_of(
    service: ServiceView,
    log: Option<Tables>,
    physical_bytes: Option<u64>,
) -> DiagnosticLogHealth<Seq<char>> {
    DiagnosticLogHealth {
        available: service.last_error is None,
        error: service.last_error,
        db_path: service.db_path,
        retention_days: RETENTION_DAYS,
        request_bytes: stored_sizes(log).0,
        runtime_bytes: stored_sizes(log).1,
        physical_bytes: match physical_bytes {
            Some(bytes) => bytes,
            None => 0,
        },
        dropped_events: service.dropped_events,
    }
}

impl DiagnosticLogService {
    /// Lists the requests in the log that a query asks for.
    pub fn list_traces(&self, log: &LogStore, query: &TraceQuery) -> (answer: Result<
        Vec<RequestTraceSummary>,
        String,
    >)
        ensures
            answers_traces(log@, *query, answer),
    {
        log.select_traces(query)
    }

    /// Shows the request of that identifier with its steps, if the log has it.
    pub fn get_trace(&self, log: &LogStore, trace_id: &str) -> (shown: Option<RequestTraceDetail>)
        ensures
            shows_trace(log@, trace_id@, optional_detail(shown)),
    {
        log.select_trace(trace_id)
    }

    /// Lists the messages in the log that a query asks for.
    pub fn list_runtime_logs(&self, log: &LogStore, query: &RuntimeLogQuery) -> (answer: Result<
        Vec<RuntimeLogRecord>,
        String,
    >)
        ensures
            answers_logs(log@, *query, answer),
    {
        log.select_logs(query)
    }

    /// Tells how the log is doing, given the log, if it can be read, and how many bytes its file
    /// takes, if that is known.
    pub fn health(&self, log: Option<&LogStore>, physical_bytes: Option<u64>) -> (health:
        DiagnosticLogHealth)
        ensures
            health@ == health_of(self@, optional_tables(log), physical_bytes),
    {
        let (request_bytes, runtime_bytes) = match log {
            Some(store) => match store.stored_totals() {
                Some(totals) => totals,
                None => (0, 0),
            },
            None => (0, 0),
        };
        DiagnosticLogHealth {
            available: self.last_error.is_none(),
            error: copy_text(&self.last_error),
            db_path: self.db_path.clone(),
            retention_days: RETENTION_DAYS,
            request_bytes,
            runtime_bytes,
            physical_bytes: match physical_bytes {
                Some(bytes) => bytes,
                None => 0,
            },
            dropped_events: self.dropped_events,
        }
    }

    /// Clears a category of the log: `requests`, `runtime` or `all`.
    pub fn clear(&self, log: &mut LogStore, kind: &str) -> (result: Result<(), String>)
        ensures
            match cleared(old(log)@, kind@) {
                Some(tables) => result is Ok && final(log)@ == tables,
                None => result is Err && result->Err_0@ == "Unsupported diagnostic log category"@
                    && final(log)@ == old(log)@,
            },
    {
        if log.clear_category(kind) {
            Ok(())
        } else {
            Err("Unsupported diagnostic log category".to_owned())
        }
    }
}

/// What a service, if there is one, knows.
pub open spec fn slot_view(slot: Option<DiagnosticLogService>) -> Option<ServiceView> {
    match slot {
        Some(service) => Some(service@),
        None => None,
    }
}

/// A service, if there is one, after a command.
pub open spec fn slot_enqueued(slot: Option<ServiceView>, command: CommandView) -> Option<
    ServiceView,
> {
    match slot {
        Some(service) => Some(enqueued(service, command)),
        None => None,
    }
}

/// The start of a request as it is recorded: headers and body are redacted, and the path has
/// neither a query nor a fragment.
pub open spec fn redacted_begin(input: BeginTrace<Seq<char>, JsonView>) -> BeginTrace<
    Seq<char>,
    JsonView,
> {
    BeginTrace {
        path: safe_path(input.path),
        headers: redacted(input.headers),
        body: redacted(input.body),
        ..input
    }
}

/// Redacts the start of a request.
pub fn redact_begin(patterns: &RedactionPatterns, input: BeginTrace) -> (recorded: BeginTrace)
    ensures
        recorded@ == redacted_begin(input@),
{
    let path = strip_path(input.path.as_str());
    let headers = redact_value(patterns, &input.headers);
    let body = redact_value(patterns, &input.body);
    BeginTrace { path, headers, body, ..input }
}

/// Hands the start of a request, which is redacted, to the writer under a new identifier, which
/// comes back; where there is no service, nothing is recorded and nothing comes back.
pub fn submit_begin(slot: &mut Option<DiagnosticLogService>, recorded: BeginTrace) -> (trace_id:
    Option<String>)
    ensures
        match trace_id {
            Some(id) => *old(slot) is Some && random_id(id@) && slot_view(*final(slot))
                == slot_enqueued(
                slot_view(*old(slot)),
                (WriteCommand::Begin { trace_id: id@, input: recorded@ }),
            ),
            None => *old(slot) is None && *final(slot) is None,
        },
{
    match slot {
        Some(service) => {
            let trace_id = new_trace_id();
            service.enqueue(WriteCommand::Begin { trace_id: trace_id.clone(), input: recorded });
            Some(trace_id)
        },
        None => None,
    }
}

/// Hands a command to the writer, where there is a service.
pub fn submit(slot: &mut Option<DiagnosticLogService>, command: WriteCommand)
    ensures
        slot_view(*final(slot)) == slot_enqueued(slot_view(*old(slot)), command@),
{
    match slot {
        Some(service) => {
            service.enqueue(command);
        },
        None => {},
    }
}

/// Records the start of a request under a new identifier, which comes back; where there is no
/// service, nothing is recorded and nothing comes back.
pub fn begin_trace(
    slot: &mut Option<DiagnosticLogService>,
    patterns: &RedactionPatterns,
    input: BeginTrace,
) -> (trace_id: Option<String>)
    ensures
        match trace_id {
            Some(id) => *old(slot) is Some && random_id(id@) && slot_view(*final(slot))
                == slot_enqueued(
                slot_view(*old(slot)),
                (WriteCommand::Begin { trace_id: id@, input: redacted_begin(input@) }),
            ),
            None => *old(slot) is None && *final(slot) is None,
        },
{
    if slot.is_none() {
        return None;
    }
    let recorded = redact_begin(patterns, input);
    submit_begin(slot, recorded)
}

/// A step as it is recorded: summary and payload are redacted.
pub open spec fn redacted_step(input: TraceEventInput<Seq<char>, JsonView>) -> TraceEventInput<
    Seq<char>,
    JsonView,
> {
    TraceEventInput {
        summary: match input.summary {
            Some(text) => Some(redacted_text(text)),
            None => None,
        },
        payload: match input.payload {
            Some(value) => Some(redacted(value)),
            None => None,
        },
        ..input
    }
}

/// Redacts a step of a request.
pub fn redact_step(patterns: &RedactionPatterns, input: TraceEventInput) -> (recorded:
    TraceEventInput)
    ensures
        recorded@ == redacted_step(input@),
{
    let summary = match &input.summary {
        Some(text) => Some(redact_text(patterns, text.as_str())),
        None => None,
    };
    let payload = match &input.payload {
        Some(value) => Some(redact_value(patterns, value)),
        None => None,
    };
    TraceEventInput { summary, payload, ..input }
}

/// Records a step of a request.
pub fn record_trace_event(
    slot: &mut Option<DiagnosticLogService>,
    patterns: &RedactionPatterns,
    input: TraceEventInput,
)
    ensures
        slot_view(*final(slot)) == slot_enqueued(
            slot_view(*old(slot)),
            WriteCommand::Event(redacted_step(input@)),
        ),
{
    if slot.is_some() {
        let recorded = redact_step(patterns, input);
        submit(slot, WriteCommand::Event(recorded));
    }
}

/// The service after the end of a request: where there is room for it, it takes the count of the
/// request's dropped commands along, which starts anew; where there is none, it is dropped, and
/// the count goes on. Without a writer nothing will report the count, which is then given up.
pub open spec fn ended(service: ServiceView, complete: CompleteTrace<Seq<char>>) -> ServiceView {
    if has_room(service, WriteCommand::Complete(complete)) {
        let roomy = with_room(service);
        ServiceView {
            queue: roomy.queue.push(
                WriteCommand::Complete(
                    CompleteTrace {
                        dropped_event_count: dropped_for(roomy, complete.trace_id),
                        ..complete
                    },
                ),
            ),
            dropped_by_trace: roomy.dropped_by_trace.remove(complete.trace_id),
            ..roomy
        }
    } else if service.connected {
        drop_counted(service, WriteCommand::Complete(complete))
    } else {
        ServiceView {
            dropped_by_trace: service.dropped_by_trace.remove(complete.trace_id),
            ..enqueued(service, WriteCommand::Complete(complete))
        }
    }
}

/// The end of a request before it takes the count of dropped commands along.
pub open spec fn completion(
    trace_id: Seq<char>,
    usage_request_id: Option<Seq<char>>,
    response_model: Option<Seq<char>>,
    final_provider_id: Option<Seq<char>>,
    status_code: Option<u16>,
    duration_ms: u64,
    outcome: Seq<char>,
) -> CompleteTrace<Seq<char>> {
    CompleteTrace {
        trace_id,
        usage_request_id,
        response_model,
        final_provider_id,
        status_code,
        duration_ms,
        outcome,
        dropped_event_count: 0,
    }
}

/// Records the end of a request.
pub fn complete_trace(
    slot: &mut Option<DiagnosticLogService>,
    trace_id: &str,
    usage_request_id: Option<String>,
    response_model: Option<String>,
    final_provider_id: Option<String>,
    status_code: Option<u16>,
    duration_ms: u64,
    outcome: &str,
)
    ensures
        match slot_view(*old(slot)) {
            Some(service) => slot_view(*final(slot)) == Some(
                ended(
                    service,
                    completion(
                        trace_id@,
                        optional_text(usage_request_id),
                        optional_text(response_model),
                        optional_text(final_provider_id),
                        status_code,
                        duration_ms,
                        outcome@,
                    ),
                ),
            ),
            None => *final(slot) is None,
        },
{
    match slot {
        Some(service) => {
            let mut complete = CompleteTrace {
                trace_id: trace_id.to_owned(),
                usage_request_id,
                response_model,
                final_provider_id,
                status_code,
                duration_ms,
                outcome: outcome.to_owned(),
                dropped_event_count: 0,
            };
            if service.make_room(3) {
                complete.dropped_event_count = service.take_dropped_for_trace(trace_id);
                service.push(WriteCommand::Complete(complete));
            } else {
                if !service.connected {
                    service.take_dropped_for_trace(trace_id);
                }
                service.enqueue(WriteCommand::Complete(complete));
            }
        },
        None => {},
    }
}

/// A message as it is recorded: its level in lower case, its text and its fields redacted.
pub open spec fn redacted_message(
    now: i64,
    level: Seq<char>,
    target: Seq<char>,
    message: Seq<char>,
    fields: Option<JsonView>,
) -> RuntimeLogInput<Seq<char>, JsonView> {
    RuntimeLogInput {
        occurred_at: now,
        level: lowered(level),
        target,
        message: redacted_text(message),
        fields: match fields {
            Some(value) => Some(redacted(value)),
            None => None,
        },
    }
}

/// Redacts a message of the program as of that time.
pub fn redact_message(
    patterns: &RedactionPatterns,
    now: i64,
    level: &str,
    target: &str,
    message: &str,
    fields: Option<Json>,
) -> (recorded: RuntimeLogInput)
    ensures
        recorded@ == redacted_message(now, level@, target@, message@, optional_json(fields)),
{
    RuntimeLogInput {
        occurred_at: now,
        level: lower_text(level),
        target: target.to_owned(),
        message: redact_text(patterns, message),
        fields: match &fields {
            Some(value) => Some(redact_value(patterns, value)),
            None => None,
        },
    }
}

/// Redacts a message of the program as of now.
pub fn redact_message_now(
    patterns: &RedactionPatterns,
    level: &str,
    target: &str,
    message: &str,
    fields: Option<Json>,
) -> (recorded: RuntimeLogInput)
    ensures
        exists|now: i64|
            now >= 0 && recorded@ == #[trigger] redacted_message(
                now,
                level@,
                target@,
                message@,
                optional_json(fields),
            ),
{
    let now = now_millis();
    redact_message(patterns, now, level, target, message, fields)
}

/// Records a message of the program as of that time.
pub fn record_runtime_log_at(
    slot: &mut Option<DiagnosticLogService>,
    patterns: &RedactionPatterns,
    now: i64,
    level: &str,
    target: &str,
    message: &str,
    fields: Option<Json>,
)
    ensures
        slot_view(*final(slot)) == slot_enqueued(
            slot_view(*old(slot)),
            WriteCommand::Runtime(
                redacted_message(now, level@, target@, message@, optional_json(fields)),
            ),
        ),
{
    if slot.is_some() {
        let recorded = redact_message(patterns, now, level, target, message, fields);
        submit(slot, WriteCommand::Runtime(recorded));
    }
}

/// Records a message of the program.
pub fn record_runtime_log(
    slot: &mut Option<DiagnosticLogService>,
    patterns: &RedactionPatterns,
    level: &str,
    target: &str,
    message: &str,
    fields: Option<Json>,
)
    ensures
        exists|now: i64|
            now >= 0 && slot_view(*final(slot)) == slot_enqueued(
                slot_view(*old(slot)),
                WriteCommand::Runtime(
                    #[trigger] redacted_message(
                        now,
                        level@,
                        target@,
                        message@,
                        optional_json(fields),
                    ),
                ),
            ),
{
    let now = now_millis();
    record_runtime_log_at(slot, patterns, now, level, target, message, fields);
}

} // verus!
