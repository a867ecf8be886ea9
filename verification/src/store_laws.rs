//! What holds of the log whatever is written to it.
use crate::json::JsonView;
use crate::query::payload_of;
use crate::records::{CompleteTrace, WriteCommand};
use crate::store::{
    begin_row, begin_step, command_fields, command_payload, complete_step, fields_fit, has_trace,
    last_sequence, outcomes_fit, payload_row, reply_fits, summary_bytes, with_command,
    with_commands, with_completion, with_event, with_payload, with_step, with_trace, CommandView,
    OutcomeView, PayloadView, Reply, StepView,
};
use crate::tables::{empty_tables, EventRow, PayloadRow, Tables, TraceRow};
use vstd::prelude::*;

verus! {

/// Whether no two requests have the same identifier.
pub open spec fn distinct_traces(traces: Seq<TraceRow<Seq<char>>>) -> bool {
    forall|i: int, j: int|
        0 <= i < j < traces.len() ==> (#[trigger] traces[i]).trace_id != (
        #[trigger] traces[j]).trace_id
}

/// Whether there is a payload of that identifier.
pub open spec fn has_payload(payloads: Seq<PayloadRow<Seq<char>, Seq<u8>>>, id: i64) -> bool {
    exists|i: int| 0 <= i < payloads.len() && (#[trigger] payloads[i]).payload_id == id
}

/// Whether every step is one of a request that there is, refers to no payload but one that there
/// is, and has an identifier that was given; and whether the steps of a request are numbered in
/// the order in which they were recorded.
pub open spec fn sound_events(tables: Tables) -> bool {
    &&& forall|i: int|
        #![trigger tables.events[i]]
        0 <= i < tables.events.len() ==> {
            let event = tables.events[i];
            &&& has_trace(tables.traces, event.trace_id)
            &&& event.payload_id matches Some(id) ==> has_payload(tables.payloads, id)
            &&& event.event_id <= tables.last_event_id
        }
    &&& forall|i: int, j: int|
        0 <= i < j < tables.events.len() ==> (#[trigger] tables.events[i]).event_id < (
        #[trigger] tables.events[j]).event_id && (tables.events[i].trace_id
            == tables.events[j].trace_id ==> tables.events[i].sequence < tables.events[j].sequence)
}

/// Whether payloads have identifiers that were given, each its own, and take as many bytes as
/// they say.
pub open spec fn sound_payloads(tables: Tables) -> bool {
    &&& forall|i: int|
        0 <= i < tables.payloads.len() ==> (#[trigger] tables.payloads[i]).payload_id
            <= tables.last_payload_id && tables.payloads[i].stored_bytes
            == tables.payloads[i].body.len() as i64
    &&& forall|i: int, j: int|
        0 <= i < j < tables.payloads.len() ==> (#[trigger] tables.payloads[i]).payload_id < (
        #[trigger] tables.payloads[j]).payload_id
}

/// Whether messages have identifiers that were given, each its own.
pub open spec fn sound_logs(tables: Tables) -> bool {
    &&& forall|i: int|
        0 <= i < tables.runtime_logs.len() ==> (#[trigger] tables.runtime_logs[i]).log_id
            <= tables.last_log_id
    &&& forall|i: int, j: int|
        0 <= i < j < tables.runtime_logs.len() ==> (#[trigger] tables.runtime_logs[i]).log_id != (
        #[trigger] tables.runtime_logs[j]).log_id
}

/// Whether the log is consistent.
pub open spec fn consistent(tables: Tables) -> bool {
    &&& distinct_traces(tables.traces)
    &&& sound_events(tables)
    &&& sound_payloads(tables)
    &&& sound_logs(tables)
}

/// Whether a payload that is to be stored says how many bytes it takes.
pub open spec fn sound_reply(reply: Reply) -> bool {
    reply matches Some(Some(stored)) ==> stored.stored_bytes == stored.body.len() as i64
}

/// Whatever becomes of a payload, it says how many bytes it takes.
proof fn lemma_sound_reply(payload: Option<JsonView>, reply: Reply)
    requires
        reply_fits(payload, reply),
    ensures
        sound_reply(reply),
{
}

/// A log that holds nothing is consistent, and its accounts are in order.
pub proof fn law_empty_log_is_consistent()
    ensures
        consistent(empty_tables()),
        accounted(empty_tables()),
{
}

/// Every step of a request is numbered at most with the last number.
pub proof fn lemma_last_sequence(events: Seq<EventRow<Seq<char>>>, id: Seq<char>)
    ensures
        forall|i: int|
            0 <= i < events.len() && (#[trigger] events[i]).trace_id == id ==> last_sequence(
                events,
                id,
            ) is Some && events[i].sequence <= last_sequence(events, id)->0,
    decreases events.len(),
{
    if events.len() > 0 {
        let before = events.drop_last();
        lemma_last_sequence(before, id);
        assert forall|i: int|
            0 <= i < events.len() && (#[trigger] events[i]).trace_id == id implies last_sequence(
            events,
            id,
        ) is Some && events[i].sequence <= last_sequence(events, id)->0 by {
            if i < before.len() {
                assert(before[i] == events[i]);
            }
        }
    }
}

/// The same requests are there when rows change but for their identifiers.
proof fn lemma_same_ids(before: Seq<TraceRow<Seq<char>>>, after: Seq<TraceRow<Seq<char>>>)
    requires
        before.len() == after.len(),
        forall|i: int|
            0 <= i < before.len() ==> (#[trigger] after[i]).trace_id == before[i].trace_id,
    ensures
        forall|id: Seq<char>| #[trigger] has_trace(after, id) == has_trace(before, id),
        distinct_traces(before) ==> distinct_traces(after),
{
    assert forall|id: Seq<char>| #[trigger] has_trace(after, id) == has_trace(before, id) by {
        if has_trace(after, id) {
            let i = choose|i: int| 0 <= i < after.len() && (#[trigger] after[i]).trace_id == id;
            assert(before[i].trace_id == id);
        }
        if has_trace(before, id) {
            let i = choose|i: int| 0 <= i < before.len() && (#[trigger] before[i]).trace_id == id;
            assert(after[i].trace_id == id);
        }
    }
}

proof fn lemma_event_keeps(
    tables: Tables,
    event: StepView,
    payload_id: Option<i64>,
    payload_bytes: i64,
    at: i64,
)
    requires
        consistent(tables),
        has_trace(tables.traces, event.trace_id),
        payload_id matches Some(id) ==> has_payload(tables.payloads, id),
        with_event(tables, event, payload_id, payload_bytes, at) is Ok,
    ensures
        consistent(with_event(tables, event, payload_id, payload_bytes, at)->Ok_0),
{
    let after = with_event(tables, event, payload_id, payload_bytes, at)->Ok_0;
    lemma_same_ids(tables.traces, after.traces);
    lemma_last_sequence(tables.events, event.trace_id);
    assert forall|i: int, j: int| 0 <= i < j < after.events.len() implies (
    #[trigger] after.events[i]).event_id < (#[trigger] after.events[j]).event_id && (
    after.events[i].trace_id == after.events[j].trace_id ==> after.events[i].sequence
        < after.events[j].sequence) by {
        assert(after.events[i] == tables.events[i]);
        if j < tables.events.len() {
            assert(after.events[j] == tables.events[j]);
        }
    }
    assert forall|i: int|
        #![trigger after.events[i]]
        0 <= i < after.events.len() implies {
            let event = after.events[i];
            &&& has_trace(after.traces, event.trace_id)
            &&& event.payload_id matches Some(id) ==> has_payload(after.payloads, id)
            &&& event.event_id <= after.last_event_id
        } by {
        if i < tables.events.len() {
            assert(after.events[i] == tables.events[i]);
        }
    }
}

proof fn lemma_payload_keeps(tables: Tables, stored: PayloadView)
    requires
        consistent(tables),
        tables.last_payload_id < i64::MAX,
        stored.stored_bytes == stored.body.len() as i64,
    ensures
        consistent(with_payload(tables, stored)),
        has_payload(with_payload(tables, stored).payloads, (tables.last_payload_id + 1) as i64),
{
    let after = with_payload(tables, stored);
    let last = tables.payloads.len() as int;
    assert(after.payloads[last].payload_id == tables.last_payload_id + 1);
    assert forall|i: int|
        #![trigger after.events[i]]
        0 <= i < after.events.len() implies {
            let event = after.events[i];
            &&& has_trace(after.traces, event.trace_id)
            &&& event.payload_id matches Some(id) ==> has_payload(after.payloads, id)
            &&& event.event_id <= after.last_event_id
        } by {
        let event = tables.events[i];
        if event.payload_id is Some {
            let id = event.payload_id->0;
            let k = choose|k: int|
                0 <= k < tables.payloads.len() && (#[trigger] tables.payloads[k]).payload_id == id;
            assert(after.payloads[k].payload_id == id);
        }
    }
}

proof fn lemma_step_keeps(tables: Tables, event: StepView, reply: Reply, at: i64)
    requires
        consistent(tables),
        sound_reply(reply),
        with_step(tables, event, reply, at) is Ok,
    ensures
        consistent(with_step(tables, event, reply, at)->Ok_0),
{
    if has_trace(tables.traces, event.trace_id) {
        match reply {
            None => {
                lemma_event_keeps(tables, event, None, 0, at);
            },
            Some(None) => {},
            Some(Some(stored)) => {
                lemma_payload_keeps(tables, stored);
                lemma_event_keeps(
                    with_payload(tables, stored),
                    event,
                    Some((tables.last_payload_id + 1) as i64),
                    stored.stored_bytes,
                    at,
                );
            },
        }
    }
}

pub proof fn lemma_trace_keeps(tables: Tables, row: TraceRow<Seq<char>>)
    requires
        consistent(tables),
    ensures
        consistent(with_trace(tables, row)),
        has_trace(with_trace(tables, row).traces, row.trace_id),
{
    let after = with_trace(tables, row);
    if !has_trace(tables.traces, row.trace_id) {
        assert(after.traces[tables.traces.len() as int].trace_id == row.trace_id);
        assert forall|id: Seq<char>| has_trace(tables.traces, id) implies #[trigger] has_trace(
            after.traces,
            id,
        ) by {
            let i = choose|i: int|
                0 <= i < tables.traces.len() && (#[trigger] tables.traces[i]).trace_id == id;
            assert(after.traces[i].trace_id == id);
        }
    }
}

proof fn lemma_completion_keeps(tables: Tables, complete: CompleteTrace<Seq<char>>, at: i64)
    requires
        consistent(tables),
        with_completion(tables, complete, at) is Ok,
    ensures
        consistent(with_completion(tables, complete, at)->Ok_0),
{
    lemma_same_ids(tables.traces, with_completion(tables, complete, at)->Ok_0.traces);
}

/// A command leaves a consistent log consistent.
pub proof fn law_command_keeps_consistency(
    tables: Tables,
    command: CommandView,
    outcome: OutcomeView,
)
    requires
        consistent(tables),
        reply_fits(command_payload(command), outcome.reply),
        with_command(tables, command, outcome) is Ok,
    ensures
        consistent(with_command(tables, command, outcome)->Ok_0),
{
    lemma_sound_reply(command_payload(command), outcome.reply);
    match command {
        WriteCommand::Begin { trace_id, input } => {
            let row = begin_row(trace_id, input, outcome.at);
            lemma_trace_keeps(tables, row);
            lemma_step_keeps(
                with_trace(tables, row),
                begin_step(trace_id, input),
                outcome.reply,
                outcome.event_at,
            );
        },
        WriteCommand::Event(event) => {
            lemma_step_keeps(tables, event, outcome.reply, outcome.event_at);
        },
        WriteCommand::Complete(complete) => {
            let step = complete_step(complete);
            lemma_step_keeps(tables, step, None, outcome.event_at);
            lemma_completion_keeps(
                with_step(tables, step, None, outcome.event_at)->Ok_0,
                complete,
                outcome.at,
            );
        },
        WriteCommand::Runtime(_) => {},
    }
}

/// Outcomes that fit commands fit all but the last of them, and the last one.
proof fn lemma_fit_before(commands: Seq<CommandView>, outcomes: Seq<OutcomeView>)
    requires
        outcomes_fit(commands, outcomes),
        commands.len() > 0,
    ensures
        outcomes_fit(commands.drop_last(), outcomes.drop_last()),
        reply_fits(command_payload(commands.last()), outcomes.last().reply),
{
    let (before, replies) = (commands.drop_last(), outcomes.drop_last());
    assert forall|i: int| 0 <= i < before.len() implies (#[trigger] replies[i]).at >= 0
        && replies[i].event_at >= 0 && reply_fits(command_payload(before[i]), replies[i].reply)
        && fields_fit(command_fields(before[i]), replies[i].fields) by {
        assert(replies[i] == outcomes[i]);
        assert(before[i] == commands[i]);
    }
    assert(outcomes[commands.len() - 1].at >= 0);
}

/// A batch of commands leaves a consistent log consistent.
pub proof fn law_batch_keeps_consistency(
    tables: Tables,
    commands: Seq<CommandView>,
    outcomes: Seq<OutcomeView>,
)
    requires
        consistent(tables),
        outcomes_fit(commands, outcomes),
        with_commands(tables, commands, outcomes) is Ok,
    ensures
        consistent(with_commands(tables, commands, outcomes)->Ok_0),
    decreases commands.len(),
{
    if commands.len() > 0 {
        lemma_fit_before(commands, outcomes);
        law_batch_keeps_consistency(tables, commands.drop_last(), outcomes.drop_last());
        law_command_keeps_consistency(
            with_commands(tables, commands.drop_last(), outcomes.drop_last())->Ok_0,
            commands.last(),
            outcomes.last(),
        );
    }
}

/// How many bytes a step takes: its summary, and its payload if it has one.
pub open spec fn step_bytes(
    payloads: Seq<PayloadRow<Seq<char>, Seq<u8>>>,
    event: EventRow<Seq<char>>,
) -> int {
    summary_bytes(event.summary) + match payload_of(payloads, event.payload_id) {
        Some(row) => row.stored_bytes as int,
        None => 0,
    }
}

/// How many bytes the steps of a request take.
pub open spec fn trace_bytes(
    events: Seq<EventRow<Seq<char>>>,
    payloads: Seq<PayloadRow<Seq<char>, Seq<u8>>>,
    id: Seq<char>,
) -> int
    decreases events.len(),
{
    if events.len() == 0 {
        0
    } else {
        trace_bytes(events.drop_last(), payloads, id) + if events.last().trace_id == id {
            step_bytes(payloads, events.last())
        } else {
            0
        }
    }
}

/// Whether the bytes stored for every request are those that its steps take.
pub open spec fn accounted(tables: Tables) -> bool {
    forall|i: int|
        0 <= i < tables.traces.len() ==> (#[trigger] tables.traces[i]).stored_bytes == trace_bytes(
            tables.events,
            tables.payloads,
            tables.traces[i].trace_id,
        )
}

/// One more payload changes nothing about those that are there.
pub proof fn lemma_payload_appended(
    payloads: Seq<PayloadRow<Seq<char>, Seq<u8>>>,
    row: PayloadRow<Seq<char>, Seq<u8>>,
    id: Option<i64>,
)
    requires
        id matches Some(wanted) ==> has_payload(payloads, wanted),
    ensures
        payload_of(payloads.push(row), id) == payload_of(payloads, id),
    decreases payloads.len(),
{
    if id is Some {
        let wanted = id->0;
        let i = choose|i: int|
            0 <= i < payloads.len() && (#[trigger] payloads[i]).payload_id == wanted;
        if payloads[0].payload_id != wanted {
            let rest = payloads.drop_first();
            assert(rest[i - 1].payload_id == wanted);
            assert(payloads.push(row).drop_first() == rest.push(row));
            lemma_payload_appended(rest, row, id);
        }
    }
}

/// A payload that was not there is found once it is stored.
pub proof fn lemma_payload_new(
    payloads: Seq<PayloadRow<Seq<char>, Seq<u8>>>,
    row: PayloadRow<Seq<char>, Seq<u8>>,
)
    requires
        !has_payload(payloads, row.payload_id),
    ensures
        payload_of(payloads.push(row), Some(row.payload_id)) == Some(row),
    decreases payloads.len(),
{
    if payloads.len() > 0 {
        let rest = payloads.drop_first();
        assert(payloads[0].payload_id != row.payload_id);
        if has_payload(rest, row.payload_id) {
            let i = choose|i: int|
                0 <= i < rest.len() && (#[trigger] rest[i]).payload_id == row.payload_id;
            assert(payloads[i + 1].payload_id == row.payload_id);
        }
        lemma_payload_new(rest, row);
        assert(payloads.push(row).drop_first() == rest.push(row));
    }
}

/// One more payload changes nothing about the bytes that steps take.
proof fn lemma_bytes_appended(
    events: Seq<EventRow<Seq<char>>>,
    payloads: Seq<PayloadRow<Seq<char>, Seq<u8>>>,
    row: PayloadRow<Seq<char>, Seq<u8>>,
    id: Seq<char>,
)
    requires
        forall|i: int|
            0 <= i < events.len() ==> ((#[trigger] events[i]).payload_id matches Some(wanted)
                ==> has_payload(payloads, wanted)),
    ensures
        trace_bytes(events, payloads.push(row), id) == trace_bytes(events, payloads, id),
    decreases events.len(),
{
    if events.len() > 0 {
        let before = events.drop_last();
        assert forall|i: int| 0 <= i < before.len() implies ((
        #[trigger] before[i]).payload_id matches Some(wanted) ==> has_payload(payloads, wanted)) by {
            assert(before[i] == events[i]);
        }
        lemma_bytes_appended(before, payloads, row, id);
        assert(events[events.len() - 1] == events.last());
        lemma_payload_appended(payloads, row, events.last().payload_id);
    }
}

/// A request without steps takes no bytes.
proof fn lemma_no_steps(
    events: Seq<EventRow<Seq<char>>>,
    payloads: Seq<PayloadRow<Seq<char>, Seq<u8>>>,
    id: Seq<char>,
)
    requires
        forall|i: int| 0 <= i < events.len() ==> (#[trigger] events[i]).trace_id != id,
    ensures
        trace_bytes(events, payloads, id) == 0,
    decreases events.len(),
{
    if events.len() > 0 {
        let before = events.drop_last();
        assert forall|i: int| 0 <= i < before.len() implies (#[trigger] before[i]).trace_id != id by {
            assert(before[i] == events[i]);
        }
        lemma_no_steps(before, payloads, id);
        assert(events[events.len() - 1] == events.last());
    }
}

proof fn lemma_event_accounted(
    tables: Tables,
    event: StepView,
    payload_id: Option<i64>,
    payload_bytes: i64,
    at: i64,
)
    requires
        accounted(tables),
        with_event(tables, event, payload_id, payload_bytes, at) is Ok,
        payload_bytes == match payload_of(tables.payloads, payload_id) {
            Some(row) => row.stored_bytes as int,
            None => 0,
        },
    ensures
        accounted(with_event(tables, event, payload_id, payload_bytes, at)->Ok_0),
{
    let after = with_event(tables, event, payload_id, payload_bytes, at)->Ok_0;
    assert(after.events.drop_last() == tables.events);
    assert forall|i: int| 0 <= i < after.traces.len() implies (
    #[trigger] after.traces[i]).stored_bytes == trace_bytes(
        after.events,
        after.payloads,
        after.traces[i].trace_id,
    ) by {
        let row = tables.traces[i];
        assert(row.stored_bytes == trace_bytes(tables.events, tables.payloads, row.trace_id));
        assert(after.traces[i].trace_id == row.trace_id);
    }
}

proof fn lemma_step_accounted(tables: Tables, event: StepView, reply: Reply, at: i64)
    requires
        consistent(tables),
        accounted(tables),
        with_step(tables, event, reply, at) is Ok,
    ensures
        accounted(with_step(tables, event, reply, at)->Ok_0),
{
    if has_trace(tables.traces, event.trace_id) {
        match reply {
            None => {
                lemma_event_accounted(tables, event, None, 0, at);
            },
            Some(None) => {},
            Some(Some(stored)) => {
                let row = payload_row(stored, (tables.last_payload_id + 1) as i64);
                let held = with_payload(tables, stored);
                lemma_payload_new(tables.payloads, row);
                assert forall|i: int| 0 <= i < held.traces.len() implies (
                #[trigger] held.traces[i]).stored_bytes == trace_bytes(
                    held.events,
                    held.payloads,
                    held.traces[i].trace_id,
                ) by {
                    lemma_bytes_appended(
                        tables.events,
                        tables.payloads,
                        row,
                        tables.traces[i].trace_id,
                    );
                }
                lemma_event_accounted(
                    held,
                    event,
                    Some((tables.last_payload_id + 1) as i64),
                    stored.stored_bytes,
                    at,
                );
            },
        }
    }
}

/// The bytes stored for a request stay those that its steps take, whatever command is carried
/// out.
pub proof fn law_command_keeps_accounts(
    tables: Tables,
    command: CommandView,
    outcome: OutcomeView,
)
    requires
        consistent(tables),
        accounted(tables),
        with_command(tables, command, outcome) is Ok,
    ensures
        accounted(with_command(tables, command, outcome)->Ok_0),
{
    match command {
        WriteCommand::Begin { trace_id, input } => {
            let row = begin_row(trace_id, input, outcome.at);
            let begun = with_trace(tables, row);
            lemma_trace_keeps(tables, row);
            if !has_trace(tables.traces, trace_id) {
                assert forall|i: int| 0 <= i < tables.events.len() implies (
                #[trigger] tables.events[i]).trace_id != trace_id by {
                    assert(has_trace(tables.traces, tables.events[i].trace_id));
                }
                lemma_no_steps(tables.events, tables.payloads, trace_id);
                assert forall|i: int| 0 <= i < begun.traces.len() implies (
                #[trigger] begun.traces[i]).stored_bytes == trace_bytes(
                    begun.events,
                    begun.payloads,
                    begun.traces[i].trace_id,
                ) by {
                    if i < tables.traces.len() {
                        assert(begun.traces[i] == tables.traces[i]);
                    }
                }
            }
            lemma_step_accounted(
                begun,
                begin_step(trace_id, input),
                outcome.reply,
                outcome.event_at,
            );
        },
        WriteCommand::Event(event) => {
            lemma_step_accounted(tables, event, outcome.reply, outcome.event_at);
        },
        WriteCommand::Complete(complete) => {
            let step = complete_step(complete);
            lemma_step_accounted(tables, step, None, outcome.event_at);
            let stepped = with_step(tables, step, None, outcome.event_at)->Ok_0;
            let after = with_completion(stepped, complete, outcome.at)->Ok_0;
            assert forall|i: int| 0 <= i < after.traces.len() implies (
            #[trigger] after.traces[i]).stored_bytes == trace_bytes(
                after.events,
                after.payloads,
                after.traces[i].trace_id,
            ) by {
                assert(after.traces[i].trace_id == stepped.traces[i].trace_id);
            }
        },
        WriteCommand::Runtime(_) => {},
    }
}

/// The bytes stored for a request stay those that its steps take, whatever batch is written.
pub proof fn law_batch_keeps_accounts(
    tables: Tables,
    commands: Seq<CommandView>,
    outcomes: Seq<OutcomeView>,
)
    requires
        consistent(tables),
        accounted(tables),
        outcomes_fit(commands, outcomes),
        with_commands(tables, commands, outcomes) is Ok,
    ensures
        accounted(with_commands(tables, commands, outcomes)->Ok_0),
    decreases commands.len(),
{
    if commands.len() > 0 {
        lemma_fit_before(commands, outcomes);
        law_batch_keeps_accounts(tables, commands.drop_last(), outcomes.drop_last());
        law_batch_keeps_consistency(tables, commands.drop_last(), outcomes.drop_last());
        law_command_keeps_accounts(
            with_commands(tables, commands.drop_last(), outcomes.drop_last())->Ok_0,
            commands.last(),
            outcomes.last(),
        );
    }
}

} // verus!
