//! What the service and the writer promise.
use crate::commands::{exported, optional_redacted};
use crate::export::{exportable, is_export, law_export_reads_back, trace_json};
use crate::json::{json_parse, JsonView};
use crate::records::{
    command_trace, BeginTrace, CompleteTrace, DetailView, RequestTraceSummary, TraceEventInput,
    WriteCommand,
};
use crate::redact_laws::{
    bare_texts, law_redacted_urls_are_bare, law_redacted_values_have_bare_urls,
    law_redaction_seals, sealed,
};
use crate::service::{
    after_batch, drop_counted, dropped_for, ended, enqueued, has_room, health_of, lemma_weakest,
    next_batch, rank, redacted_begin, redacted_message, redacted_step, started, weakest, with_room,
    ServiceView, MAX_BATCH_SIZE, QUEUE_CAPACITY,
};
use crate::store::CommandView;
use crate::tables::Tables;
use crate::urls::{law_paths_are_safe, neat, safe_path, UrlPart};
use crate::writer::{
    fresh, idle, longer, maintenance_due, reaction, WriterAction, WriterEvent, WriterView,
    FIRST_RETRY_MILLIS, MAINTENANCE_INTERVAL_NANOS, MAX_RETRY_MILLIS,
};
use vstd::prelude::*;
use vstd::string::*;
use vstd::utf8::encode_utf8;

verus! {

/// The queue never holds more commands than its capacity, whatever is handed to it and whatever
/// happens to the writer.
pub proof fn law_queue_is_bounded(
    service: ServiceView,
    command: CommandView,
    complete: CompleteTrace<Seq<char>>,
    db_path: Seq<char>,
    writer: WriterView,
    event: WriterEvent<Seq<char>>,
    now: u64,
)
    requires
        service.queue.len() <= QUEUE_CAPACITY,
    ensures
        started(db_path).queue.len() <= QUEUE_CAPACITY,
        enqueued(service, command).queue.len() <= QUEUE_CAPACITY,
        ended(service, complete).queue.len() <= QUEUE_CAPACITY,
        reaction(writer, service, event, now).1.queue.len() <= QUEUE_CAPACITY,
{
    if service.queue.len() > 0 {
        lemma_weakest(service.queue);
    }
}

/// A command is either queued behind all others or counted as dropped. Of those that are queued,
/// one at most is lost by it: it is counted as dropped, it matters less than the new one, and
/// none in the queue matters less than it.
pub proof fn law_nothing_is_lost_unseen(service: ServiceView, command: CommandView)
    ensures
        ({
            let after = enqueued(service, command);
            ||| after.queue == service.queue.push(command) && after.dropped_events
                == service.dropped_events
            ||| after.queue == service.queue && after.dropped_events
                == service.dropped_events.wrapping_add(1)
            ||| exists|at: int|
                {
                    &&& 0 <= at < service.queue.len()
                    &&& after.queue == #[trigger] service.queue.remove(at).push(command)
                    &&& after.dropped_events == service.dropped_events.wrapping_add(1)
                    &&& rank(service.queue[at]) < rank(command)
                    &&& forall|i: int|
                        0 <= i < service.queue.len() ==> rank(service.queue[at]) <= rank(
                            #[trigger] service.queue[i],
                        )
                }
        }),
{
    if has_room(service, command) && service.queue.len() >= QUEUE_CAPACITY {
        lemma_weakest(service.queue);
        let at = weakest(service.queue);
        assert(enqueued(service, command).queue == service.queue.remove(at).push(command));
    }
}

/// Of a full queue a command goes that matters least: messages that trace the program before what
/// is streamed, and that before anything else. None goes for a command that matters no more, so
/// the start and the end of a request, its attempts and errors never go from the queue.
pub proof fn law_what_matters_stays(service: ServiceView, command: CommandView, i: int)
    requires
        service.connected,
        0 <= i < service.queue.len(),
    ensures
        (exists|j: int|
            0 <= j < service.queue.len() && rank(#[trigger] service.queue[j]) < rank(
                service.queue[i],
            )) ==> enqueued(service, command).queue.contains(service.queue[i]),
        rank(command) <= rank(service.queue[i]) ==> enqueued(service, command).queue.contains(
            service.queue[i],
        ),
        rank(service.queue[i]) == 3 ==> enqueued(service, command).queue.contains(service.queue[i]),
{
    lemma_weakest(service.queue);
    let at = weakest(service.queue);
    let after = enqueued(service, command).queue;
    if has_room(service, command) && service.queue.len() >= QUEUE_CAPACITY {
        if i < at {
            assert(after[i] == service.queue[i]);
        } else if i > at {
            assert(after[i - 1] == service.queue[i]);
        }
    } else {
        assert(after[i] == service.queue[i]);
    }
}

/// The end of a request is queued wherever the queue has room or holds anything that matters less
/// than it, and then takes the count of dropped commands along: it is lost only to a queue that is
/// full of what matters as much.
pub proof fn law_request_ends_are_kept(service: ServiceView, complete: CompleteTrace<Seq<char>>)
    requires
        service.connected,
    ensures
        service.queue.len() < QUEUE_CAPACITY || (exists|i: int|
            0 <= i < service.queue.len() && rank(#[trigger] service.queue[i]) < 3)
            ==> ended(service, complete).queue == with_room(service).queue.push(
            WriteCommand::Complete(
                CompleteTrace {
                    dropped_event_count: dropped_for(with_room(service), complete.trace_id),
                    ..complete
                },
            ),
        ),
        service.queue.len() >= QUEUE_CAPACITY && (forall|i: int|
            0 <= i < service.queue.len() ==> rank(#[trigger] service.queue[i]) == 3) ==> ended(
            service,
            complete,
        ) == drop_counted(service, WriteCommand::Complete(complete)),
{
    if service.queue.len() > 0 {
        lemma_weakest(service.queue);
    }
}

/// A command that is dropped for want of room is counted for its request, and for no other.
pub proof fn law_dropped_commands_are_counted(
    service: ServiceView,
    command: CommandView,
    id: Seq<char>,
)
    requires
        service.connected,
        service.queue.len() >= QUEUE_CAPACITY,
    ensures
        ({
            let gone = if has_room(service, command) {
                service.queue[weakest(service.queue)]
            } else {
                command
            };
            dropped_for(enqueued(service, command), id) == if command_trace(gone) == Some(id) {
                dropped_for(service, id).wrapping_add(1)
            } else {
                dropped_for(service, id)
            }
        }),
{
}

/// The end of a request that is dropped for want of room adds to the count of its request; the
/// next end that is queued reports them all.
pub proof fn law_drops_add_up(
    service: ServiceView,
    complete: CompleteTrace<Seq<char>>,
    later: ServiceView,
    again: CompleteTrace<Seq<char>>,
)
    requires
        service.connected,
        !has_room(service, WriteCommand::Complete(complete)),
        later.connected,
        later.queue.len() < QUEUE_CAPACITY,
        later.dropped_by_trace == ended(service, complete).dropped_by_trace,
        again.trace_id == complete.trace_id,
    ensures
        dropped_for(ended(service, complete), complete.trace_id) == dropped_for(
            service,
            complete.trace_id,
        ).wrapping_add(1),
        ended(service, complete).dropped_events == service.dropped_events.wrapping_add(1),
        ended(later, again).queue.last() == (WriteCommand::<Seq<char>, JsonView>::Complete(
            CompleteTrace {
                dropped_event_count: dropped_for(service, complete.trace_id).wrapping_add(1),
                ..again
            },
        )),
        dropped_for(ended(later, again), complete.trace_id) == 0,
{
}

/// Commands leave the queue in the order in which they came, and none is left out.
pub proof fn law_batches_keep_the_order(service: ServiceView)
    ensures
        next_batch(service.queue) + after_batch(service.queue) == service.queue,
        next_batch(service.queue).len() <= MAX_BATCH_SIZE,
        service.queue.len() > 0 ==> next_batch(service.queue).len() > 0,
{
    assert(next_batch(service.queue) + after_batch(service.queue) =~= service.queue);
}

/// The count that the end of a request reports starts anew, for that request alone.
pub proof fn law_reported_drops_start_anew(
    service: ServiceView,
    complete: CompleteTrace<Seq<char>>,
    other: Seq<char>,
)
    requires
        has_room(service, WriteCommand::Complete(complete)),
    ensures
        dropped_for(ended(service, complete), complete.trace_id) == 0,
        other != complete.trace_id ==> dropped_for(ended(service, complete), other) == dropped_for(
            with_room(service),
            other,
        ),
{
}

/// Whether every JSON value in a command is redacted.
pub open spec fn command_sealed(command: CommandView) -> bool {
    match command {
        WriteCommand::Begin { input, .. } => sealed(input.headers) && sealed(input.body),
        WriteCommand::Event(event) => event.payload matches Some(value) ==> sealed(value),
        WriteCommand::Complete(_) => true,
        WriteCommand::Runtime(input) => input.fields matches Some(value) ==> sealed(value),
    }
}

/// What is handed to the queue is redacted before: no value under a sensitive name waits in it.
pub proof fn law_queued_values_are_sealed(
    trace_id: Seq<char>,
    begin: BeginTrace<Seq<char>, JsonView>,
    step: TraceEventInput<Seq<char>, JsonView>,
    now: i64,
    level: Seq<char>,
    target: Seq<char>,
    message: Seq<char>,
    fields: Option<JsonView>,
)
    ensures
        command_sealed(WriteCommand::Begin { trace_id, input: redacted_begin(begin) }),
        command_sealed(WriteCommand::Event(redacted_step(step))),
        command_sealed(
            WriteCommand::Runtime(redacted_message(now, level, target, message, fields)),
        ),
{
    law_redaction_seals(begin.headers);
    law_redaction_seals(begin.body);
    if step.payload is Some {
        law_redaction_seals(step.payload->0);
    }
    if fields is Some {
        law_redaction_seals(fields->0);
    }
}

/// What is exported is redacted once more, whatever the log holds. Of the request, the path has
/// neither a query nor a fragment, no URL in its models has one, and the rest is as it is shown;
/// of the steps, no value under a sensitive name is in a payload, and no URL in a payload or a
/// summary names anyone before its host or has a query or a fragment.
pub proof fn law_exported_values_are_sealed(detail: DetailView)
    ensures
        ({
            let trace = exported(detail).trace;
            &&& trace == (RequestTraceSummary {
                path: safe_path(detail.trace.path),
                request_model: trace.request_model,
                response_model: trace.response_model,
                ..detail.trace
            })
            &&& forall|i: int|
                0 <= i < trace.path.len() ==> (#[trigger] trace.path[i]) != '?' && trace.path[i]
                    != '#'
            &&& trace.request_model == optional_redacted(detail.trace.request_model)
            &&& trace.response_model == optional_redacted(detail.trace.response_model)
            &&& optional_neat(trace.request_model)
            &&& optional_neat(trace.response_model)
        }),
        exported(detail).events.len() == detail.events.len(),
        forall|i: int|
            #![trigger exported(detail).events[i]]
            0 <= i < detail.events.len() ==> {
                let event = exported(detail).events[i];
                &&& event.payload matches Some(value) ==> sealed(value) && bare_texts(value)
                &&& optional_neat(event.summary)
            },
{
    law_paths_are_safe(detail.trace.path);
    lemma_optional_neat(detail.trace.request_model);
    lemma_optional_neat(detail.trace.response_model);
    assert forall|i: int|
        #![trigger exported(detail).events[i]]
        0 <= i < detail.events.len() implies {
            let event = exported(detail).events[i];
            &&& event.payload matches Some(value) ==> sealed(value) && bare_texts(value)
            &&& optional_neat(event.summary)
        } by {
        lemma_optional_neat(detail.events[i].summary);
        if detail.events[i].payload is Some {
            law_redaction_seals(detail.events[i].payload->0);
            law_redacted_values_have_bare_urls(detail.events[i].payload->0);
        }
    }
}

/// Whether no URL in a text, if there is one, names anyone before its host or has a query or a
/// fragment.
pub open spec fn optional_neat(text: Option<Seq<char>>) -> bool {
    text matches Some(held) ==> neat(held, UrlPart::Outside)
}

proof fn lemma_optional_neat(text: Option<Seq<char>>)
    ensures
        optional_neat(optional_redacted(text)),
{
    if text is Some {
        law_redacted_urls_are_bare(text->0);
    }
}

/// An export of a request holds its path without a query and a fragment, whatever path is stored.
pub proof fn law_exported_lines_hold_safe_paths(
    detail: DetailView,
    version: i32,
    now: i64,
    text: Seq<char>,
)
    requires
        is_export(exported(detail), version, now, text),
        forall|i: int|
            0 <= i < detail.events.len() ==> exportable(#[trigger] exported(detail).events[i]),
    ensures
        ({
            let read = json_parse(encode_utf8(text.drop_last()));
            &&& read matches Some(JsonView::Object(members))
            &&& members["trace"@] matches JsonView::Object(trace)
            &&& trace["path"@] == JsonView::Str(safe_path(detail.trace.path))
        }),
{
    law_export_reads_back(exported(detail), version, now, text);
    lemma_exported_path(exported(detail).trace);
}

/// The path of a request stands under its name.
proof fn lemma_exported_path(trace: RequestTraceSummary<Seq<char>>)
    ensures
        trace_json(trace)->Object_0["path"@] == JsonView::Str(trace.path),
{
    reveal_strlit("path");
    reveal_strlit("requestModel");
    reveal_strlit("responseModel");
    reveal_strlit("finalProviderId");
    reveal_strlit("statusCode");
    reveal_strlit("isStreaming");
    reveal_strlit("attemptCount");
    reveal_strlit("startedAt");
    reveal_strlit("completedAt");
    reveal_strlit("durationMs");
    reveal_strlit("outcome");
    reveal_strlit("partial");
    reveal_strlit("droppedEventCount");
    reveal_strlit("storedBytes");
    assert("path"@.len() == 4);
}

/// The log is reported as available exactly where there is no error, and a service that has just
/// started has none.
pub proof fn law_health_shows_the_last_error(
    service: ServiceView,
    log: Option<Tables>,
    physical_bytes: Option<u64>,
    db_path: Seq<char>,
)
    ensures
        health_of(service, log, physical_bytes).available == (health_of(
            service,
            log,
            physical_bytes,
        ).error is None),
        health_of(service, log, physical_bytes).error == service.last_error,
        health_of(started(db_path), log, physical_bytes).available,
{
}

/// A batch that could not be written stays, and nothing that waits in the queue or was counted
/// changes; the error shows. It is tried again after a while, once maintenance is done where that
/// is due, and so on until it is written, which takes the error away.
pub proof fn law_failed_writes_are_tried_again(
    writer: WriterView,
    service: ServiceView,
    error: Seq<char>,
    now: u64,
    later: u64,
)
    requires
        writer.opened,
        writer.batch.len() > 0,
    ensures
        ({
            let (kept, after, action) = reaction(
                writer,
                service,
                WriterEvent::Written(Err(error)),
                now,
            );
            let (again, _, next) = reaction(kept, after, WriterEvent::RetryDue, later);
            &&& kept.batch == writer.batch
            &&& after == (ServiceView { last_error: Some(error), ..service })
            &&& action == WriterAction::Retry(longer(writer.retry_millis))
            &&& again == kept
            &&& next == if maintenance_due(writer, later) {
                WriterAction::Maintain
            } else {
                WriterAction::Write
            }
        }),
        reaction(writer, service, WriterEvent::Written(Ok(())), now).0.batch.len() == 0,
        reaction(writer, service, WriterEvent::Written(Ok(())), now).1 == (ServiceView {
            last_error: None,
            ..service
        }),
{
}

/// A log that could not be opened is tried again after a while; nothing that waits in the queue or
/// was counted changes, and commands wait on as long as there is room. The error shows until the
/// log is open.
pub proof fn law_failed_opening_is_tried_again(
    writer: WriterView,
    service: ServiceView,
    error: Seq<char>,
    now: u64,
    later: u64,
)
    ensures
        ({
            let (kept, after, action) = reaction(
                writer,
                service,
                WriterEvent::Opened(Err(error)),
                now,
            );
            let (again, _, next) = reaction(kept, after, WriterEvent::RetryDue, later);
            &&& kept.batch == writer.batch
            &&& after == (ServiceView { last_error: Some(error), ..service })
            &&& action == WriterAction::Retry(longer(writer.retry_millis))
            &&& again == kept
            &&& next == WriterAction::Open
        }),
        reaction(writer, service, WriterEvent::Opened(Ok(())), now).1 == (ServiceView {
            last_error: None,
            ..service
        }),
{
}

/// How long the writer waits after so many failures in a row.
pub open spec fn delay_after(failures: nat) -> u64
    decreases failures,
{
    if failures == 0 {
        0
    } else {
        longer(delay_after((failures - 1) as nat))
    }
}

/// After each failure the writer waits twice as long as after the one before, up to a limit;
/// never shorter, and never longer than that.
pub proof fn law_delays_double(failures: nat)
    ensures
        delay_after(1) == FIRST_RETRY_MILLIS,
        failures > 0 ==> delay_after(failures + 1) == if 2 * delay_after(failures)
            <= MAX_RETRY_MILLIS {
            2 * delay_after(failures)
        } else {
            MAX_RETRY_MILLIS as int
        },
        delay_after(failures) <= delay_after(failures + 1) <= MAX_RETRY_MILLIS,
    decreases failures,
{
    reveal_with_fuel(delay_after, 3);
    if failures > 0 {
        law_delays_double((failures - 1) as nat);
    }
}

/// Whatever happens but the end of a write, what the writer took and did not write stays with it;
/// where the writer takes commands, they are those that wait longest, in order and never none, and
/// the rest waits on.
pub proof fn law_taken_commands_are_written(
    writer: WriterView,
    service: ServiceView,
    event: WriterEvent<Seq<char>>,
    now: u64,
)
    requires
        !(event is Disconnected),
        !(event matches WriterEvent::Written(Ok(_))),
    ensures
        ({
            let (next, after, action) = reaction(writer, service, event, now);
            &&& next.batch + after.queue == writer.batch + service.queue
            &&& writer.batch.len() > 0 ==> next.batch == writer.batch
            &&& action == WriterAction::Write ==> 0 < next.batch.len()
            &&& next.batch != writer.batch ==> next.batch.len() <= MAX_BATCH_SIZE && action
                == WriterAction::Write
        }),
{
    law_batches_keep_the_order(service);
    if event is Ready && idle(writer) {
        assert(writer.batch + service.queue =~= service.queue);
    }
}

/// Maintenance is done at the first chance after the start, and then not again before the
/// interval is over.
pub proof fn law_maintenance_is_regular(
    writer: WriterView,
    service: ServiceView,
    result: Result<(), Seq<char>>,
    done: u64,
    now: u64,
)
    requires
        done <= now,
    ensures
        maintenance_due(fresh(), now),
        ({
            let next = reaction(writer, service, WriterEvent::Maintained(result), done).0;
            maintenance_due(next, now) == (now - done >= MAINTENANCE_INTERVAL_NANOS)
        }),
{
}

/// Maintenance is done whenever it is due, also while writes fail: a batch that waits to be tried
/// again waits for that, and is tried next, whether maintenance went well or not.
pub proof fn law_failures_do_not_hold_up_maintenance(
    writer: WriterView,
    service: ServiceView,
    result: Result<(), Seq<char>>,
    now: u64,
    done: u64,
)
    requires
        writer.opened,
        maintenance_due(writer, now),
    ensures
        reaction(writer, service, WriterEvent::RetryDue, now).2 == WriterAction::Maintain,
        reaction(writer, service, WriterEvent::TimedOut, now).2 == WriterAction::Maintain,
        reaction(writer, service, WriterEvent::Written(Ok(())), now).2 == WriterAction::Maintain,
        ({
            let (next, after, action) = reaction(
                writer,
                service,
                WriterEvent::Maintained(result),
                done,
            );
            &&& next.batch == writer.batch
            &&& after.queue == service.queue
            &&& action == if writer.batch.len() > 0 {
                WriterAction::Write
            } else {
                WriterAction::Wait
            }
        }),
{
}

/// The writer stops only where nothing will come any more; commands are then counted as dropped.
/// No failure stops it.
pub proof fn law_writer_stops_for_cause(
    writer: WriterView,
    service: ServiceView,
    event: WriterEvent<Seq<char>>,
    now: u64,
    command: CommandView,
)
    ensures
        ({
            let (_, after, action) = reaction(writer, service, event, now);
            &&& action == WriterAction::Stop <==> event == WriterEvent::<Seq<char>>::Disconnected
            &&& action == WriterAction::Stop ==> after.queue.len() == 0 && enqueued(
                after,
                command,
            ).dropped_events == service.dropped_events.wrapping_add(1)
            &&& action != WriterAction::Stop ==> after.connected == service.connected
        }),
{
}

} // verus!
