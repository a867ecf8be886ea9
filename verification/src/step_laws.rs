//! What holds of the numbers of steps, and of all that is written.
use crate::maintenance::{cleared, event_stays, maintains, with_only};
use crate::query::{orders_events, shows_event, shows_events, shows_trace, step_of};
use crate::read_laws::lemma_step_order;
use crate::records::{DetailView, WriteCommand};
use crate::store::{
    begin_row, begin_step, complete_step, has_trace, last_sequence, next_sequence, outcomes_fit,
    with_command, with_commands, with_event, with_payload, with_step, with_trace, CommandView,
    OutcomeView, Reply, StepView, StoreError,
};
use crate::store_laws::{
    accounted, consistent, law_batch_keeps_accounts, law_batch_keeps_consistency,
    law_empty_log_is_consistent,
};
use crate::tables::{empty_tables, EventRow, RuntimeRow, Tables, TraceRow};
use crate::write_laws::{
    countable, counted_before, known, law_dropped_steps_add_up, marked, reported,
};
use vstd::prelude::*;

verus! {

/// The steps of a request, in the order in which they were recorded.
pub open spec fn steps_of(events: Seq<EventRow<Seq<char>>>, id: Seq<char>) -> Seq<
    EventRow<Seq<char>>,
> {
    events.filter(|row: EventRow<Seq<char>>| step_of(row, id))
}

/// Whether the steps of a request are numbered from one on, without a gap.
pub open spec fn counts_up(events: Seq<EventRow<Seq<char>>>, id: Seq<char>) -> bool {
    forall|k: int|
        0 <= k < steps_of(events, id).len() ==> (#[trigger] steps_of(events, id)[k]).sequence == k
            + 1
}

/// Whether the steps of every request are numbered from one on, without a gap.
pub open spec fn numbered(events: Seq<EventRow<Seq<char>>>) -> bool {
    forall|id: Seq<char>| #[trigger] counts_up(events, id)
}

/// In a log that holds nothing the steps are numbered from one on.
pub proof fn law_empty_log_is_numbered()
    ensures
        numbered(empty_tables().events),
{
    reveal(Seq::filter);
    assert forall|id: Seq<char>| #[trigger] counts_up(empty_tables().events, id) by {
        assert(steps_of(empty_tables().events, id).len() == 0);
    }
}

/// The last number among steps that are numbered from one on is how many there are.
proof fn lemma_last_number(events: Seq<EventRow<Seq<char>>>, id: Seq<char>)
    requires
        counts_up(events, id),
    ensures
        last_sequence(events, id) == if steps_of(events, id).len() == 0 {
            None
        } else {
            Some(steps_of(events, id).len() as i64)
        },
        steps_of(events, id).len() <= i64::MAX,
    decreases events.len(),
{
    reveal(Seq::filter);
    if events.len() > 0 {
        let (before, last) = (events.drop_last(), events.last());
        let keep = |row: EventRow<Seq<char>>| step_of(row, id);
        before.lemma_filter_push(last, keep);
        assert(before.push(last) == events);
        let (fewer, all) = (steps_of(before, id), steps_of(events, id));
        assert forall|k: int| 0 <= k < fewer.len() implies (#[trigger] fewer[k]).sequence == k
            + 1 by {
            assert(fewer[k] == all[k]);
        }
        lemma_last_number(before, id);
        if step_of(last, id) {
            assert(all.last() == last);
            assert(all[all.len() - 1].sequence == all.len());
        }
    }
}

/// The next step of a request that has so many gets the number after that; steps of other requests
/// make no difference.
pub proof fn law_next_step_is_the_next_number(events: Seq<EventRow<Seq<char>>>, id: Seq<char>)
    requires
        numbered(events),
    ensures
        next_sequence(events, id) == steps_of(events, id).len() + 1,
{
    assert(counts_up(events, id));
    lemma_last_number(events, id);
}

proof fn lemma_event_numbered(
    tables: Tables,
    event: StepView,
    payload_id: Option<i64>,
    payload_bytes: i64,
    at: i64,
)
    requires
        numbered(tables.events),
        with_event(tables, event, payload_id, payload_bytes, at) is Ok,
    ensures
        numbered(with_event(tables, event, payload_id, payload_bytes, at)->Ok_0.events),
{
    let after = with_event(tables, event, payload_id, payload_bytes, at)->Ok_0;
    let new = after.events.last();
    assert forall|id: Seq<char>| #[trigger] counts_up(after.events, id) by {
        let keep = |row: EventRow<Seq<char>>| step_of(row, id);
        assert(counts_up(tables.events, id));
        lemma_last_number(tables.events, id);
        tables.events.lemma_filter_push(new, keep);
        assert(after.events == tables.events.push(new));
        let (fewer, all) = (steps_of(tables.events, id), steps_of(after.events, id));
        assert forall|k: int| 0 <= k < all.len() implies (#[trigger] all[k]).sequence == k + 1 by {
            if k < fewer.len() {
                assert(all[k] == fewer[k]);
            }
        }
    }
}

proof fn lemma_step_numbered(tables: Tables, event: StepView, reply: Reply, at: i64)
    requires
        numbered(tables.events),
        with_step(tables, event, reply, at) is Ok,
    ensures
        numbered(with_step(tables, event, reply, at)->Ok_0.events),
{
    if with_step(tables, event, reply, at)->Ok_0 != tables {
        match reply {
            None => {
                lemma_event_numbered(tables, event, None, 0, at);
            },
            Some(None) => {},
            Some(Some(stored)) => {
                lemma_event_numbered(
                    with_payload(tables, stored),
                    event,
                    Some((tables.last_payload_id + 1) as i64),
                    stored.stored_bytes,
                    at,
                );
            },
        }
    }
}

/// A step that is stored is the last one and gets the number after those of its request: the
/// steps of the request are then numbered from one to that, in the order in which they were
/// stored, and those of every other request are as they were.
pub proof fn law_stored_step_gets_the_next_number(
    tables: Tables,
    event: StepView,
    reply: Reply,
    at: i64,
    other: Seq<char>,
)
    requires
        numbered(tables.events),
        has_trace(tables.traces, event.trace_id),
        with_step(tables, event, reply, at) is Ok,
    ensures
        ({
            let after = with_step(tables, event, reply, at)->Ok_0;
            let new = after.events.last();
            &&& after.events == tables.events.push(new)
            &&& new.trace_id == event.trace_id
            &&& new.sequence == steps_of(tables.events, event.trace_id).len() + 1
            &&& steps_of(after.events, event.trace_id) == steps_of(
                tables.events,
                event.trace_id,
            ).push(new)
            &&& numbered(after.events)
            &&& other != event.trace_id ==> steps_of(after.events, other) == steps_of(
                tables.events,
                other,
            )
        }),
{
    let after = with_step(tables, event, reply, at)->Ok_0;
    let new = after.events.last();
    let id = event.trace_id;
    law_next_step_is_the_next_number(tables.events, id);
    lemma_step_numbered(tables, event, reply, at);
    assert(after.events =~= tables.events.push(new));
    tables.events.lemma_filter_push(new, |row: EventRow<Seq<char>>| step_of(row, id));
    tables.events.lemma_filter_push(new, |row: EventRow<Seq<char>>| step_of(row, other));
}

/// A command numbers the steps of every request on, without a gap.
pub proof fn law_command_numbers_steps(
    tables: Tables,
    command: CommandView,
    outcome: OutcomeView,
)
    requires
        numbered(tables.events),
        with_command(tables, command, outcome) is Ok,
    ensures
        numbered(with_command(tables, command, outcome)->Ok_0.events),
{
    match command {
        WriteCommand::Begin { trace_id, input } => {
            lemma_step_numbered(
                with_trace(tables, begin_row(trace_id, input, outcome.at)),
                begin_step(trace_id, input),
                outcome.reply,
                outcome.event_at,
            );
        },
        WriteCommand::Event(event) => {
            lemma_step_numbered(tables, event, outcome.reply, outcome.event_at);
        },
        WriteCommand::Complete(complete) => {
            lemma_step_numbered(tables, complete_step(complete), None, outcome.event_at);
        },
        WriteCommand::Runtime(_) => {},
    }
}

/// A batch numbers the steps of every request on, without a gap.
pub proof fn law_batch_numbers_steps(
    tables: Tables,
    commands: Seq<CommandView>,
    outcomes: Seq<OutcomeView>,
)
    requires
        numbered(tables.events),
        with_commands(tables, commands, outcomes) is Ok,
    ensures
        numbered(with_commands(tables, commands, outcomes)->Ok_0.events),
    decreases commands.len(),
{
    if commands.len() > 0 {
        law_batch_numbers_steps(tables, commands.drop_last(), outcomes.drop_last());
        law_command_numbers_steps(
            with_commands(tables, commands.drop_last(), outcomes.drop_last())->Ok_0,
            commands.last(),
            outcomes.last(),
        );
    }
}

/// Where the steps of a request stay or go together, they are all there or none.
proof fn lemma_steps_together(
    events: Seq<EventRow<Seq<char>>>,
    keep: spec_fn(EventRow<Seq<char>>) -> bool,
    id: Seq<char>,
    stay: bool,
)
    requires
        forall|row: EventRow<Seq<char>>| row.trace_id == id ==> #[trigger] keep(row) == stay,
    ensures
        steps_of(events.filter(keep), id) == if stay {
            steps_of(events, id)
        } else {
            Seq::empty()
        },
    decreases events.len(),
{
    reveal(Seq::filter);
    let own = |row: EventRow<Seq<char>>| step_of(row, id);
    if events.len() == 0 {
        assert(events.filter(keep) =~= events);
        assert(events.filter(own) =~= Seq::empty());
    } else {
        let (before, last) = (events.drop_last(), events.last());
        assert(before.push(last) == events);
        lemma_steps_together(before, keep, id, stay);
        before.lemma_filter_push(last, keep);
        before.lemma_filter_push(last, own);
        before.filter(keep).lemma_filter_push(last, own);
    }
}

/// The steps that are left with some of the requests are numbered from one on.
proof fn lemma_with_only_numbered(
    tables: Tables,
    traces: Seq<TraceRow<Seq<char>>>,
    logs: Seq<RuntimeRow<Seq<char>>>,
)
    requires
        numbered(tables.events),
    ensures
        numbered(with_only(tables, traces, logs).events),
{
    let keep = |event: EventRow<Seq<char>>| event_stays(tables.traces, traces, event);
    let after = with_only(tables, traces, logs).events;
    assert forall|id: Seq<char>| #[trigger] counts_up(after, id) by {
        assert(counts_up(tables.events, id));
        if tables.events.len() > 0 {
            let stay = event_stays(
                tables.traces,
                traces,
                (EventRow { trace_id: id, ..tables.events[0] }),
            );
            lemma_steps_together(tables.events, keep, id, stay);
        } else {
            reveal(Seq::filter);
            assert(after.len() == 0);
            assert(steps_of(after, id).len() == 0);
        }
    }
}

/// Maintenance leaves the steps of every request that stays numbered from one on.
pub proof fn law_maintenance_keeps_numbers(
    before: Tables,
    now: int,
    after: Tables,
    result: Result<(), StoreError>,
)
    requires
        numbered(before.events),
        maintains(before, now, after, result),
    ensures
        numbered(after.events),
{
    if after != before {
        lemma_with_only_numbered(before, after.traces, after.runtime_logs);
    }
}

/// Clearing leaves the steps of every request that stays numbered from one on.
pub proof fn law_clearing_keeps_numbers(tables: Tables, kind: Seq<char>)
    requires
        numbered(tables.events),
        cleared(tables, kind) is Some,
    ensures
        numbered(cleared(tables, kind)->0.events),
{
    let after = cleared(tables, kind)->0;
    lemma_with_only_numbered(tables, after.traces, after.runtime_logs);
}

/// The steps of a request are shown with the numbers from one on, in order and without a gap.
pub proof fn law_shown_steps_count_up(tables: Tables, id: Seq<char>, shown: DetailView)
    requires
        consistent(tables),
        numbered(tables.events),
        shows_trace(tables, id, Some(shown)),
    ensures
        forall|k: int|
            0 <= k < shown.events.len() ==> (#[trigger] shown.events[k]).sequence == k + 1,
{
    let ordered = choose|ordered: Seq<EventRow<Seq<char>>>| #[trigger]
        orders_events(tables.events, id, ordered) && shows_events(
            tables.payloads,
            ordered,
            shown.events,
        );
    lemma_step_order(tables, id, ordered);
    assert(counts_up(tables.events, id));
    assert forall|k: int| 0 <= k < shown.events.len() implies (
    #[trigger] shown.events[k]).sequence == k + 1 by {
        assert(shows_event(tables.payloads, ordered[k], shown.events[k]));
        assert(steps_of(tables.events, id)[k] == ordered[k]);
    }
}

/// Whatever is written to a log that held nothing, in however many batches: it is consistent, the
/// bytes of each request are those of its steps, the steps of each are numbered from one on, the
/// dropped steps of each are those that its ends reported, and it is marked as incomplete exactly
/// where there are any.
pub proof fn law_what_is_written_adds_up(
    commands: Seq<CommandView>,
    outcomes: Seq<OutcomeView>,
    id: Seq<char>,
)
    requires
        outcomes_fit(commands, outcomes),
        forall|i: int| 0 <= i < commands.len() ==> countable(#[trigger] commands[i]),
        with_commands(empty_tables(), commands, outcomes) is Ok,
    ensures
        ({
            let log = with_commands(empty_tables(), commands, outcomes)->Ok_0;
            &&& consistent(log)
            &&& accounted(log)
            &&& numbered(log.events)
            &&& marked(log.traces)
            &&& has_trace(log.traces, id) == known(false, commands, id)
            &&& forall|i: int|
                #![trigger log.traces[i]]
                0 <= i < log.traces.len() && log.traces[i].trace_id == id
                    ==> log.traces[i].dropped_event_count == reported(false, commands, id)
        }),
{
    let empty = empty_tables();
    let log = with_commands(empty, commands, outcomes)->Ok_0;
    law_empty_log_is_consistent();
    law_empty_log_is_numbered();
    law_batch_keeps_consistency(empty, commands, outcomes);
    law_batch_keeps_accounts(empty, commands, outcomes);
    law_batch_numbers_steps(empty, commands, outcomes);
    law_dropped_steps_add_up(empty, commands, outcomes, id);
    assert(!has_trace(empty.traces, id));
    assert forall|i: int|
        #![trigger log.traces[i]]
        0 <= i < log.traces.len() && log.traces[i].trace_id
            == id implies log.traces[i].dropped_event_count == reported(false, commands, id) by {
        assert(counted_before(empty.traces, i) == 0);
    }
}

} // verus!
