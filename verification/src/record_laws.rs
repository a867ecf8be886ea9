//! What becomes of everything that is recorded on its way to the queue, field by field.
use crate::json::{Json, JsonView};
use crate::records::{optional_text, BeginTrace, RuntimeLogInput, TraceEventInput, WriteCommand};
use crate::redact::{redacted, redacted_text, RedactionPatterns};
use crate::service::{
    begin_trace, complete_trace, lemma_weakest, rank, record_runtime_log_at, record_trace_event,
    redact_begin, redact_message, redact_step, weakest, DiagnosticLogService,
};
use crate::store::commands_view;
use crate::urls::safe_path;
use vstd::prelude::*;
use vstd::string::*;

verus! {

/// A step is recorded with the request, the time, the stage, the kind, the attempt, the provider
/// and the status that it has; its summary and its payload are redacted, and missing where they are
/// missing.
pub proof fn law_recorded_steps_keep_their_fields(
    patterns: &RedactionPatterns,
    input: TraceEventInput,
    recorded: TraceEventInput,
)
    requires
        call_ensures(redact_step, (patterns, input), recorded),
    ensures
        recorded.trace_id@ == input.trace_id@,
        recorded.offset_ms == input.offset_ms,
        recorded.stage@ == input.stage@,
        recorded.kind@ == input.kind@,
        recorded.attempt_no == input.attempt_no,
        recorded.provider_id is Some <==> input.provider_id is Some,
        input.provider_id matches Some(provider) ==> recorded.provider_id->0@ == provider@,
        recorded.status_code == input.status_code,
        recorded.summary is Some <==> input.summary is Some,
        input.summary matches Some(text) ==> recorded.summary->0@ == redacted_text(text@),
        recorded.payload is Some <==> input.payload is Some,
        input.payload matches Some(value) ==> recorded.payload->0@ == redacted(value@),
{
    assert(recorded@.summary == optional_text(recorded.summary));
    assert(recorded@.provider_id == optional_text(recorded.provider_id));
    assert(recorded@.trace_id == input@.trace_id);
}

/// The start of a request is recorded with the application, the method, the models, the provider
/// and the way of answering that it has; its path has neither a query nor a fragment, and its
/// headers and its body are redacted.
pub proof fn law_recorded_starts_keep_their_fields(
    patterns: &RedactionPatterns,
    input: BeginTrace,
    recorded: BeginTrace,
)
    requires
        call_ensures(redact_begin, (patterns, input), recorded),
    ensures
        recorded.app_type@ == input.app_type@,
        recorded.method@ == input.method@,
        recorded.path@ == safe_path(input.path@),
        recorded.request_model is Some <==> input.request_model is Some,
        input.request_model matches Some(model) ==> recorded.request_model->0@ == model@,
        recorded.provider_id is Some <==> input.provider_id is Some,
        input.provider_id matches Some(provider) ==> recorded.provider_id->0@ == provider@,
        recorded.is_streaming == input.is_streaming,
        recorded.headers@ == redacted(input.headers@),
        recorded.body@ == redacted(input.body@),
{
    assert(recorded@.request_model == optional_text(recorded.request_model));
    assert(recorded@.app_type == input@.app_type);
}

/// A message is recorded with the time and the target that it has, its level in lower case, and its
/// text and its fields redacted.
pub proof fn law_recorded_messages_keep_their_fields(
    patterns: &RedactionPatterns,
    now: i64,
    level: &str,
    target: &str,
    message: &str,
    fields: Option<Json>,
    recorded: RuntimeLogInput,
)
    requires
        call_ensures(redact_message, (patterns, now, level, target, message, fields), recorded),
    ensures
        recorded.occurred_at == now,
        recorded.level@.len() == level@.len(),
        forall|i: int|
            0 <= i < level@.len() ==> #[trigger] recorded.level@[i] == if 'A' <= level@[i] <= 'Z' {
                (level@[i] as u32 + 32) as char
            } else {
                level@[i]
            },
        recorded.target@ == target@,
        recorded.message@ == redacted_text(message@),
        recorded.fields is Some <==> fields is Some,
        fields matches Some(value) ==> recorded.fields->0@ == redacted(value@),
{
    assert(recorded@.occurred_at == now);
    assert(recorded@.level == recorded.level@);
}

/// How much a command matters: most the start and the end of a request, an attempt, and whatever is
/// an error or was cancelled; then all that is not said here; then other steps of a stream; least
/// the messages that debug or trace the program.
pub proof fn law_priorities(command: WriteCommand, priority: u8)
    requires
        call_ensures(WriteCommand::priority, (&command,), priority),
    ensures
        command is Begin ==> priority == 3,
        command is Complete ==> priority == 3,
        command matches WriteCommand::Event(event) ==> {
            let urgent = event.stage@ == "upstream_attempt"@ || event.kind@ == "error"@
                || event.kind@ == "cancelled"@;
            &&& urgent ==> priority == 3
            &&& !urgent && event.stage@ == "stream"@ ==> priority == 1
            &&& !urgent && event.stage@ != "stream"@ ==> priority == 2
        },
        command matches WriteCommand::Runtime(input) ==> {
            &&& input.level@ == "error"@ ==> priority == 3
            &&& input.level@ == "debug"@ || input.level@ == "trace"@ ==> priority == 0
            &&& input.level@ != "error"@ && input.level@ != "debug"@ && input.level@ != "trace"@
                ==> priority == 2
        },
{
    reveal_strlit("error");
    reveal_strlit("debug");
    reveal_strlit("trace");
    assert("error"@[0] == 'e' && "debug"@[0] == 'd' && "trace"@[0] == 't');
    match command {
        WriteCommand::Event(event) => {
            assert(command@ == WriteCommand::<Seq<char>, JsonView>::Event(event@));
        },
        WriteCommand::Runtime(input) => {
            assert(command@ == WriteCommand::<Seq<char>, JsonView>::Runtime(input@));
        },
        _ => {},
    }
}

/// The number of a count that went up by one, from the start again where it was at its end.
pub open spec fn one_more(count: u64) -> u64 {
    if count == u64::MAX {
        0
    } else {
        (count + 1) as u64
    }
}

/// A command waits behind all others where a writer is there and fewer than 4096 commands wait for
/// it; nothing else changes.
pub proof fn law_commands_wait_in_order(service: &mut DiagnosticLogService, command: WriteCommand)
    requires
        call_ensures(DiagnosticLogService::enqueue, (service, command), ()),
        old(service)@.connected,
        old(service)@.queue.len() < 4096,
    ensures
        final(service)@.queue == old(service)@.queue.push(command@),
        final(service)@.connected,
        final(service)@.db_path == old(service)@.db_path,
        final(service)@.dropped_events == old(service)@.dropped_events,
        final(service)@.dropped_by_trace == old(service)@.dropped_by_trace,
        final(service)@.last_error == old(service)@.last_error,
{
}

/// Where 4096 commands wait, the oldest of those that matter least gives its place to a command
/// that matters more, which waits behind all others. Where none matters less than the new command,
/// that one is dropped. What is dropped is counted, once for all and once for its request.
pub proof fn law_full_queues_drop_what_matters_least(
    service: &mut DiagnosticLogService,
    command: WriteCommand,
    at: int,
)
    requires
        call_ensures(DiagnosticLogService::enqueue, (service, command), ()),
        old(service)@.connected,
        old(service)@.queue.len() == 4096,
        0 <= at < 4096,
        forall|i: int|
            0 <= i < 4096 ==> rank(old(service)@.queue[at]) <= rank(
                #[trigger] old(service)@.queue[i],
            ),
        forall|i: int|
            0 <= i < at ==> rank(old(service)@.queue[at]) < rank(#[trigger] old(service)@.queue[i]),
    ensures
        ({
            let queue = old(service)@.queue;
            let kept = rank(queue[at]) < rank(command@);
            let gone = if kept {
                queue[at]
            } else {
                command@
            };
            let counts = old(service)@.dropped_by_trace;
            let after = final(service)@.dropped_by_trace;
            &&& kept ==> final(service)@.queue == queue.remove(at).push(command@)
            &&& !kept ==> final(service)@.queue == queue
            &&& final(service)@.dropped_events == one_more(old(service)@.dropped_events)
            &&& gone is Runtime ==> after == counts
            &&& gone matches WriteCommand::Begin { trace_id, .. } ==> after == counts.insert(
                trace_id,
                one_more(if counts.contains_key(trace_id) { counts[trace_id] } else { 0 }),
            )
            &&& gone matches WriteCommand::Event(event) ==> after == counts.insert(
                event.trace_id,
                one_more(
                    if counts.contains_key(event.trace_id) { counts[event.trace_id] } else { 0 },
                ),
            )
            &&& gone matches WriteCommand::Complete(end) ==> after == counts.insert(
                end.trace_id,
                one_more(if counts.contains_key(end.trace_id) { counts[end.trace_id] } else { 0 }),
            )
        }),
        final(service)@.connected,
        final(service)@.db_path == old(service)@.db_path,
        final(service)@.last_error == old(service)@.last_error,
{
    lemma_weakest(old(service)@.queue);
    let found = weakest(old(service)@.queue);
    if found < at {
        assert(rank(old(service)@.queue[at]) < rank(old(service)@.queue[found]));
    } else if found > at {
        assert(rank(old(service)@.queue[found]) < rank(old(service)@.queue[at]));
    }
}

/// Without a writer every command is dropped and counted, and the error says so.
pub proof fn law_commands_without_a_writer_are_dropped(
    service: &mut DiagnosticLogService,
    command: WriteCommand,
)
    requires
        call_ensures(DiagnosticLogService::enqueue, (service, command), ()),
        !old(service)@.connected,
    ensures
        final(service)@.queue == old(service)@.queue,
        final(service)@.dropped_events == one_more(old(service)@.dropped_events),
        final(service)@.dropped_by_trace == old(service)@.dropped_by_trace,
        final(service)@.last_error == Some("Diagnostic log writer is not running"@),
        !final(service)@.connected,
        final(service)@.db_path == old(service)@.db_path,
{
}

/// The writer takes the commands that wait longest, in their order: all of them where there are no
/// more than a hundred, else a hundred. The others wait on, and nothing else changes.
pub proof fn law_batches_hold_a_hundred(
    service: &mut DiagnosticLogService,
    batch: Vec<WriteCommand>,
)
    requires
        call_ensures(DiagnosticLogService::take_batch, (service,), batch),
    ensures
        old(service)@.queue.len() <= 100 ==> batch.len() == old(service)@.queue.len(),
        old(service)@.queue.len() > 100 ==> batch.len() == 100,
        forall|i: int| 0 <= i < batch.len() ==> (#[trigger] batch@[i])@ == old(service)@.queue[i],
        final(service)@.queue.len() == old(service)@.queue.len() - batch.len(),
        forall|i: int|
            0 <= i < final(service)@.queue.len() ==> #[trigger] final(service)@.queue[i] == old(
                service,
            )@.queue[batch.len() + i],
        final(service)@.connected == old(service)@.connected,
        final(service)@.db_path == old(service)@.db_path,
        final(service)@.dropped_events == old(service)@.dropped_events,
        final(service)@.dropped_by_trace == old(service)@.dropped_by_trace,
        final(service)@.last_error == old(service)@.last_error,
{
    assert(commands_view(batch@).len() == batch.len());
    assert forall|i: int| 0 <= i < batch.len() implies (#[trigger] batch@[i])@ == old(
        service,
    )@.queue[i] by {
        assert(commands_view(batch@)[i] == batch@[i]@);
    }
}

/// Whether the services in two places, if they are there, know the same.
pub open spec fn same_service(
    one: Option<DiagnosticLogService>,
    other: DiagnosticLogService,
) -> bool {
    one matches Some(service) && service@ == other@
}

/// To record a step is to hand the step, redacted, to the service; where there is no service
/// nothing happens.
pub proof fn law_steps_are_handed_to_the_service(
    slot: &mut Option<DiagnosticLogService>,
    patterns: &RedactionPatterns,
    input: TraceEventInput,
    recorded: TraceEventInput,
    service: &mut DiagnosticLogService,
)
    requires
        call_ensures(record_trace_event, (slot, patterns, input), ()),
        call_ensures(redact_step, (patterns, input), recorded),
        call_ensures(DiagnosticLogService::enqueue, (service, WriteCommand::Event(recorded)), ()),
        same_service(*old(slot), *old(service)) || *old(slot) is None,
    ensures
        *old(slot) is Some ==> same_service(*final(slot), *final(service)),
        *old(slot) is None ==> *final(slot) is None,
{
}

/// A step that is recorded where fewer than 4096 commands wait for a writer waits behind them, with
/// the fields that it was recorded with.
pub proof fn law_recorded_steps_wait(
    slot: &mut Option<DiagnosticLogService>,
    patterns: &RedactionPatterns,
    input: TraceEventInput,
)
    requires
        call_ensures(record_trace_event, (slot, patterns, input), ()),
        *old(slot) matches Some(service) && service@.connected && service@.queue.len() < 4096,
    ensures
        *final(slot) is Some,
        (*final(slot))->0@.queue.drop_last() == (*old(slot))->0@.queue,
        (*final(slot))->0@.queue.len() == (*old(slot))->0@.queue.len() + 1,
        (*final(slot))->0@.queue.last() matches WriteCommand::Event(queued) && {
            &&& queued.trace_id == input.trace_id@
            &&& queued.offset_ms == input.offset_ms
            &&& queued.stage == input.stage@
            &&& queued.kind == input.kind@
            &&& queued.attempt_no == input.attempt_no
            &&& queued.provider_id is Some <==> input.provider_id is Some
            &&& input.provider_id matches Some(provider) ==> queued.provider_id == Some(provider@)
            &&& queued.status_code == input.status_code
            &&& queued.summary is Some <==> input.summary is Some
            &&& input.summary matches Some(text) ==> queued.summary == Some(redacted_text(text@))
            &&& queued.payload is Some <==> input.payload is Some
            &&& input.payload matches Some(value) ==> queued.payload == Some(redacted(value@))
        },
        (*final(slot))->0@.dropped_events == (*old(slot))->0@.dropped_events,
        (*final(slot))->0@.dropped_by_trace == (*old(slot))->0@.dropped_by_trace,
        (*final(slot))->0@.last_error == (*old(slot))->0@.last_error,
        (*final(slot))->0@.connected,
        (*final(slot))->0@.db_path == (*old(slot))->0@.db_path,
{
    let queue = (*old(slot))->0@.queue;
    let after = (*final(slot))->0@.queue;
    assert(after == queue.push(after.last()));
    assert(after.drop_last() =~= queue);
    assert(optional_text(input.summary) == input@.summary);
    assert(input@.trace_id == input.trace_id@);
}

/// To record the start of a request is to hand it, redacted, to the service under the identifier
/// that comes back; where there is no service nothing comes back and nothing happens.
pub proof fn law_starts_are_handed_to_the_service(
    slot: &mut Option<DiagnosticLogService>,
    patterns: &RedactionPatterns,
    input: BeginTrace,
    trace_id: Option<String>,
    recorded: BeginTrace,
    id: String,
    service: &mut DiagnosticLogService,
)
    requires
        call_ensures(begin_trace, (slot, patterns, input), trace_id),
        call_ensures(redact_begin, (patterns, input), recorded),
        call_ensures(
            DiagnosticLogService::enqueue,
            (service, WriteCommand::Begin { trace_id: id, input: recorded }),
            (),
        ),
        same_service(*old(slot), *old(service)) || *old(slot) is None,
        trace_id matches Some(given) ==> given@ == id@,
    ensures
        *old(slot) is Some ==> trace_id is Some && same_service(*final(slot), *final(service)),
        *old(slot) is None ==> trace_id is None && *final(slot) is None,
{
}

/// The start of a request that is recorded where fewer than 4096 commands wait for a writer waits
/// behind them under the identifier that comes back, with the fields that it was recorded with.
pub proof fn law_recorded_starts_wait(
    slot: &mut Option<DiagnosticLogService>,
    patterns: &RedactionPatterns,
    input: BeginTrace,
    given: Option<String>,
)
    requires
        call_ensures(begin_trace, (slot, patterns, input), given),
        *old(slot) matches Some(service) && service@.connected && service@.queue.len() < 4096,
    ensures
        given is Some,
        *final(slot) is Some,
        (*final(slot))->0@.queue.drop_last() == (*old(slot))->0@.queue,
        (*final(slot))->0@.queue.len() == (*old(slot))->0@.queue.len() + 1,
        (*final(slot))->0@.queue.last() matches WriteCommand::Begin { trace_id, input: queued } && {
            &&& trace_id == given->0@
            &&& queued.app_type == input.app_type@
            &&& queued.method == input.method@
            &&& queued.path == safe_path(input.path@)
            &&& queued.request_model is Some <==> input.request_model is Some
            &&& input.request_model matches Some(model) ==> queued.request_model == Some(model@)
            &&& queued.provider_id is Some <==> input.provider_id is Some
            &&& input.provider_id matches Some(provider) ==> queued.provider_id == Some(provider@)
            &&& queued.is_streaming == input.is_streaming
            &&& queued.headers == redacted(input.headers@)
            &&& queued.body == redacted(input.body@)
        },
        (*final(slot))->0@.dropped_events == (*old(slot))->0@.dropped_events,
        (*final(slot))->0@.last_error == (*old(slot))->0@.last_error,
{
    let queue = (*old(slot))->0@.queue;
    let after = (*final(slot))->0@.queue;
    assert(after == queue.push(after.last()));
    assert(after.drop_last() =~= queue);
    assert(input@.app_type == input.app_type@);
}

/// To record a message is to hand it, redacted, to the service; where there is no service nothing
/// happens.
pub proof fn law_messages_are_handed_to_the_service(
    slot: &mut Option<DiagnosticLogService>,
    patterns: &RedactionPatterns,
    now: i64,
    level: &str,
    target: &str,
    message: &str,
    fields: Option<Json>,
    recorded: RuntimeLogInput,
    service: &mut DiagnosticLogService,
)
    requires
        call_ensures(
            record_runtime_log_at,
            (slot, patterns, now, level, target, message, fields),
            (),
        ),
        call_ensures(redact_message, (patterns, now, level, target, message, fields), recorded),
        call_ensures(DiagnosticLogService::enqueue, (service, WriteCommand::Runtime(recorded)), ()),
        same_service(*old(slot), *old(service)) || *old(slot) is None,
    ensures
        *old(slot) is Some ==> same_service(*final(slot), *final(service)),
        *old(slot) is None ==> *final(slot) is None,
{
}

/// The end of a request that is recorded where fewer than 4096 commands wait for a writer waits
/// behind them with what it was given, and with the count of the commands of the request that were
/// dropped, which starts anew; nothing else changes.
pub proof fn law_recorded_ends_wait(
    slot: &mut Option<DiagnosticLogService>,
    trace_id: &str,
    usage_request_id: Option<String>,
    response_model: Option<String>,
    final_provider_id: Option<String>,
    status_code: Option<u16>,
    duration_ms: u64,
    outcome: &str,
)
    requires
        call_ensures(
            complete_trace,
            (
                slot,
                trace_id,
                usage_request_id,
                response_model,
                final_provider_id,
                status_code,
                duration_ms,
                outcome,
            ),
            (),
        ),
        *old(slot) matches Some(service) && service@.connected && service@.queue.len() < 4096,
    ensures
        *final(slot) is Some,
        (*final(slot))->0@.queue.drop_last() == (*old(slot))->0@.queue,
        (*final(slot))->0@.queue.len() == (*old(slot))->0@.queue.len() + 1,
        (*final(slot))->0@.queue.last() matches WriteCommand::Complete(queued) && {
            let counts = (*old(slot))->0@.dropped_by_trace;
            &&& queued.trace_id == trace_id@
            &&& queued.usage_request_id is Some <==> usage_request_id is Some
            &&& usage_request_id matches Some(id) ==> queued.usage_request_id == Some(id@)
            &&& queued.response_model is Some <==> response_model is Some
            &&& response_model matches Some(model) ==> queued.response_model == Some(model@)
            &&& queued.final_provider_id is Some <==> final_provider_id is Some
            &&& final_provider_id matches Some(id) ==> queued.final_provider_id == Some(id@)
            &&& queued.status_code == status_code
            &&& queued.duration_ms == duration_ms
            &&& queued.outcome == outcome@
            &&& counts.contains_key(trace_id@) ==> queued.dropped_event_count == counts[trace_id@]
            &&& !counts.contains_key(trace_id@) ==> queued.dropped_event_count == 0
        },
        (*final(slot))->0@.dropped_by_trace == (*old(slot))->0@.dropped_by_trace.remove(trace_id@),
        (*final(slot))->0@.dropped_events == (*old(slot))->0@.dropped_events,
        (*final(slot))->0@.last_error == (*old(slot))->0@.last_error,
        (*final(slot))->0@.connected,
        (*final(slot))->0@.db_path == (*old(slot))->0@.db_path,
{
    let queue = (*old(slot))->0@.queue;
    let after = (*final(slot))->0@.queue;
    assert(after == queue.push(after.last()));
    assert(after.drop_last() =~= queue);
}

/// The end of a request that is recorded where 4096 commands wait takes the place of the oldest of
/// those that matter least, where one matters less than it, and is counted as dropped where none
/// does. Without a writer it is counted, the count of its request is given up, and the error says
/// that there is no writer. Where there is no service nothing happens.
pub proof fn law_ends_without_room(
    slot: &mut Option<DiagnosticLogService>,
    trace_id: &str,
    usage_request_id: Option<String>,
    response_model: Option<String>,
    final_provider_id: Option<String>,
    status_code: Option<u16>,
    duration_ms: u64,
    outcome: &str,
    at: int,
)
    requires
        call_ensures(
            complete_trace,
            (
                slot,
                trace_id,
                usage_request_id,
                response_model,
                final_provider_id,
                status_code,
                duration_ms,
                outcome,
            ),
            (),
        ),
        *old(slot) matches Some(service) ==> !service@.connected || {
            let queue = service@.queue;
            &&& queue.len() == 4096
            &&& 0 <= at < 4096
            &&& forall|i: int| 0 <= i < 4096 ==> rank(queue[at]) <= rank(#[trigger] queue[i])
            &&& forall|i: int| 0 <= i < at ==> rank(queue[at]) < rank(#[trigger] queue[i])
        },
    ensures
        *old(slot) is None ==> *final(slot) is None,
        *old(slot) matches Some(service) ==> {
            let before = service@;
            let after = (*final(slot))->0@;
            let counts = before.dropped_by_trace;
            let count = if counts.contains_key(trace_id@) {
                counts[trace_id@]
            } else {
                0
            };
            let makes_way = before.connected && rank(before.queue[at]) < 3;
            let queued = after.queue.last()->Complete_0;
            &&& *final(slot) is Some
            &&& after.dropped_events == one_more(before.dropped_events)
            &&& after.connected == before.connected
            &&& after.db_path == before.db_path
            &&& makes_way ==> {
                &&& after.last_error == before.last_error
                &&& after.queue.len() == 4096
                &&& after.queue.drop_last() == before.queue.remove(at)
                &&& after.queue.last() is Complete
                &&& queued.trace_id == trace_id@
                &&& queued.usage_request_id == optional_text(usage_request_id)
                &&& queued.response_model == optional_text(response_model)
                &&& queued.final_provider_id == optional_text(final_provider_id)
                &&& queued.status_code == status_code
                &&& queued.duration_ms == duration_ms
                &&& queued.outcome == outcome@
                &&& before.queue[at] is Runtime ==> queued.dropped_event_count == count
                    && after.dropped_by_trace == counts.remove(trace_id@)
                &&& before.queue[at] matches WriteCommand::Event(event) ==> if event.trace_id
                    == trace_id@ {
                    queued.dropped_event_count == one_more(count) && after.dropped_by_trace
                        == counts.remove(trace_id@)
                } else {
                    queued.dropped_event_count == count && after.dropped_by_trace == counts.insert(
                        event.trace_id,
                        one_more(
                            if counts.contains_key(event.trace_id) {
                                counts[event.trace_id]
                            } else {
                                0
                            },
                        ),
                    ).remove(trace_id@)
                }
            }
            &&& before.connected && !makes_way ==> {
                &&& after.last_error == before.last_error
                &&& after.queue == before.queue
                &&& after.dropped_by_trace == counts.insert(trace_id@, one_more(count))
            }
            &&& !before.connected ==> {
                &&& after.last_error == Some("Diagnostic log writer is not running"@)
                &&& after.queue == before.queue
                &&& after.dropped_by_trace == counts.remove(trace_id@)
            }
        },
{
    if *old(slot) is Some && (*old(slot))->0@.connected {
        let queue = (*old(slot))->0@.queue;
        lemma_weakest(queue);
        let found = weakest(queue);
        if found < at {
            assert(rank(queue[at]) < rank(queue[found]));
        } else if found > at {
            assert(rank(queue[found]) < rank(queue[at]));
        }
        let after = (*final(slot))->0@.queue;
        if rank(queue[at]) < 3 {
            assert(after == queue.remove(at).push(after.last()));
            assert(after.drop_last() =~= queue.remove(at));
            let counts = (*old(slot))->0@.dropped_by_trace;
            if queue[at] is Event {
                let event = queue[at]->Event_0;
                let more = one_more(
                    if counts.contains_key(event.trace_id) {
                        counts[event.trace_id]
                    } else {
                        0
                    },
                );
                if event.trace_id == trace_id@ {
                    assert(counts.insert(event.trace_id, more).remove(trace_id@) =~= counts.remove(
                        trace_id@,
                    ));
                }
            }
        }
    }
}

} // verus!
