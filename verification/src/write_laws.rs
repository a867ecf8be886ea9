//! What writing a batch promises.
use crate::records::{command_trace, CompleteTrace, WriteCommand};
use crate::sequences::{lemma_filter_contents, lemma_filter_map};
use crate::store::{
    begin_row, begin_step, bump_fits, bumped, bumped_rows, complete_step, completed, completed_rows,
    completion_fits, fits, has_trace, last_sequence, summary_bytes, with_command, with_commands,
    with_event, with_payload, with_step, with_trace, CommandView, OutcomeView, Reply, StepView,
    StoreError,
};
use crate::tables::{EventRow, Tables, TraceRow};
use vstd::prelude::*;

verus! {

/// A step or an end of a request that the log does not have changes nothing.
pub proof fn law_unknown_request_changes_nothing(
    tables: Tables,
    command: CommandView,
    outcome: OutcomeView,
)
    requires
        command is Event || command is Complete,
        !has_trace(tables.traces, command_trace(command)->0),
    ensures
        with_command(tables, command, outcome) == Ok::<Tables, StoreError>(tables),
{
    if command is Complete {
        let complete = command->Complete_0;
        assert(completed_rows(tables.traces, complete, outcome.at) =~= tables.traces) by {
            assert forall|i: int| 0 <= i < tables.traces.len() implies completed_rows(
                tables.traces,
                complete,
                outcome.at,
            )[i] == #[trigger] tables.traces[i] by {
                assert(tables.traces[i].trace_id != complete.trace_id);
            }
        }
    }
}

/// A request that begins again under the same identifier keeps its row, up to the bytes stored
/// for the step.
pub proof fn law_begin_again_keeps_the_row(
    tables: Tables,
    command: CommandView,
    outcome: OutcomeView,
)
    requires
        command is Begin,
        has_trace(tables.traces, command->trace_id),
        with_command(tables, command, outcome) is Ok,
    ensures
        with_command(tables, command, outcome)->Ok_0.traces.len() == tables.traces.len(),
        forall|i: int|
            0 <= i < tables.traces.len() ==> {
                let after = #[trigger] with_command(tables, command, outcome)->Ok_0.traces[i];
                after == TraceRow { stored_bytes: after.stored_bytes, ..tables.traces[i] }
            },
{
}

/// Whether requests are marked as incomplete exactly where steps of them were dropped, of which
/// there are never less than none.
pub open spec fn marked(traces: Seq<TraceRow<Seq<char>>>) -> bool {
    forall|i: int|
        #![trigger traces[i]]
        0 <= i < traces.len() ==> traces[i].dropped_event_count >= 0 && traces[i].partial == if (
        traces[i].dropped_event_count > 0) {
            1int
        } else {
            0int
        }
}

/// Whether the count of dropped steps that a command reports, if it does, is one that a column
/// holds.
pub open spec fn countable(command: CommandView) -> bool {
    command matches WriteCommand::Complete(complete) ==> complete.dropped_event_count <= i64::MAX
}

/// Whether the log has a request once commands are carried out, given whether it had it.
pub open spec fn known(had: bool, commands: Seq<CommandView>, id: Seq<char>) -> bool
    decreases commands.len(),
{
    if commands.len() == 0 {
        had
    } else {
        known(had, commands.drop_last(), id) || (commands.last() matches WriteCommand::Begin {
            trace_id,
            ..
        } && trace_id == id)
    }
}

/// How many dropped steps of a request the ends among commands report, those that come before the
/// log has the request left aside.
pub open spec fn reported(had: bool, commands: Seq<CommandView>, id: Seq<char>) -> int
    decreases commands.len(),
{
    if commands.len() == 0 {
        0
    } else {
        let before = reported(had, commands.drop_last(), id);
        match commands.last() {
            WriteCommand::Complete(complete) => if complete.trace_id == id && known(
                had,
                commands.drop_last(),
                id,
            ) {
                before + complete.dropped_event_count
            } else {
                before
            },
            _ => before,
        }
    }
}

/// How many steps of the request in that place were counted as dropped; none where it is new.
pub open spec fn counted_before(traces: Seq<TraceRow<Seq<char>>>, i: int) -> int {
    if i < traces.len() {
        traces[i].dropped_event_count as int
    } else {
        0
    }
}

/// A step leaves the counts of dropped steps and the marks.
proof fn lemma_step_leaves_counts(tables: Tables, event: StepView, reply: Reply, at: i64)
    requires
        with_step(tables, event, reply, at) is Ok,
    ensures
        ({
            let after = with_step(tables, event, reply, at)->Ok_0;
            &&& after.traces.len() == tables.traces.len()
            &&& forall|i: int|
                #![trigger after.traces[i]]
                #![trigger tables.traces[i]]
                0 <= i < tables.traces.len() ==> after.traces[i].trace_id
                    == tables.traces[i].trace_id && after.traces[i].dropped_event_count
                    == tables.traces[i].dropped_event_count && after.traces[i].partial
                    == tables.traces[i].partial
        }),
{
}

/// A command adds the dropped steps that it reports of a request to those counted before, and
/// leaves the counts of all others; the marks stay true.
pub proof fn law_dropped_steps_show(
    tables: Tables,
    command: CommandView,
    outcome: OutcomeView,
    id: Seq<char>,
)
    requires
        marked(tables.traces),
        countable(command),
        with_command(tables, command, outcome) is Ok,
    ensures
        ({
            let after = with_command(tables, command, outcome)->Ok_0;
            let had = has_trace(tables.traces, id);
            &&& marked(after.traces)
            &&& has_trace(after.traces, id) == known(had, seq![command], id)
            &&& forall|i: int|
                #![trigger after.traces[i]]
                0 <= i < after.traces.len() && after.traces[i].trace_id == id
                    ==> after.traces[i].dropped_event_count == counted_before(tables.traces, i)
                    + reported(had, seq![command], id)
        }),
{
    reveal_with_fuel(known, 2);
    reveal_with_fuel(reported, 2);
    let after = with_command(tables, command, outcome)->Ok_0;
    let had = has_trace(tables.traces, id);
    assert(seq![command].drop_last() =~= Seq::<CommandView>::empty());
    match command {
        WriteCommand::Begin { trace_id, input } => {
            let row = begin_row(trace_id, input, outcome.at);
            let begun = with_trace(tables, row);
            lemma_step_leaves_counts(
                begun,
                begin_step(trace_id, input),
                outcome.reply,
                outcome.event_at,
            );
            if !has_trace(tables.traces, trace_id) {
                assert(begun.traces[tables.traces.len() as int].trace_id == trace_id);
                assert(after.traces[tables.traces.len() as int].trace_id == trace_id);
            }
            assert forall|i: int| 0 <= i < tables.traces.len() implies #[trigger] begun.traces[i]
                == tables.traces[i] by {}
            lemma_has(tables.traces, after.traces, id, trace_id);
            assert forall|i: int|
                #![trigger after.traces[i]]
                0 <= i < after.traces.len() implies after.traces[i].dropped_event_count
                == counted_before(tables.traces, i) by {
                assert(begun.traces[i].dropped_event_count == after.traces[i].dropped_event_count);
            }
        },
        WriteCommand::Event(event) => {
            lemma_step_leaves_counts(tables, event, outcome.reply, outcome.event_at);
            lemma_same_has(tables.traces, after.traces, id);
        },
        WriteCommand::Complete(complete) => {
            let step = complete_step(complete);
            let stepped = with_step(tables, step, None, outcome.event_at)->Ok_0;
            lemma_step_leaves_counts(tables, step, None, outcome.event_at);
            assert forall|i: int|
                #![trigger after.traces[i]]
                0 <= i < after.traces.len() implies after.traces[i].trace_id
                == tables.traces[i].trace_id && after.traces[i].dropped_event_count
                == tables.traces[i].dropped_event_count + if after.traces[i].trace_id
                == complete.trace_id {
                complete.dropped_event_count as int
            } else {
                0
            } && after.traces[i].dropped_event_count >= 0 && after.traces[i].partial == if (
            after.traces[i].dropped_event_count > 0) {
                1int
            } else {
                0int
            } by {
                let row = stepped.traces[i];
                assert(row.trace_id == tables.traces[i].trace_id);
                assert(completion_fits(stepped.traces, complete));
            }
            lemma_same_has(tables.traces, after.traces, id);
            assert forall|i: int|
                #![trigger after.traces[i]]
                0 <= i < after.traces.len() && after.traces[i].trace_id
                    == id implies after.traces[i].dropped_event_count == counted_before(
                tables.traces,
                i,
            ) + reported(had, seq![command], id) by {
                assert(tables.traces[i].trace_id == id);
            }
        },
        WriteCommand::Runtime(_) => {},
    }
}

/// The same requests are there where rows keep their identifiers.
proof fn lemma_same_has(
    before: Seq<TraceRow<Seq<char>>>,
    after: Seq<TraceRow<Seq<char>>>,
    id: Seq<char>,
)
    requires
        before.len() == after.len(),
        forall|i: int|
            0 <= i < before.len() ==> (#[trigger] after[i]).trace_id == before[i].trace_id,
    ensures
        has_trace(after, id) == has_trace(before, id),
{
    if has_trace(before, id) {
        let i = choose|i: int| 0 <= i < before.len() && (#[trigger] before[i]).trace_id == id;
        assert(after[i].trace_id == id);
    }
    if has_trace(after, id) {
        let i = choose|i: int| 0 <= i < after.len() && (#[trigger] after[i]).trace_id == id;
        assert(before[i].trace_id == id);
    }
}

/// The requests that are there after one began are those that were, and that one.
proof fn lemma_has(
    before: Seq<TraceRow<Seq<char>>>,
    after: Seq<TraceRow<Seq<char>>>,
    id: Seq<char>,
    begun: Seq<char>,
)
    requires
        before.len() <= after.len() <= before.len() + 1,
        forall|i: int|
            0 <= i < before.len() ==> (#[trigger] after[i]).trace_id == before[i].trace_id,
        after.len() > before.len() ==> after.last().trace_id == begun,
        after.len() == before.len() ==> has_trace(before, begun),
    ensures
        has_trace(after, id) == (has_trace(before, id) || id == begun),
{
    if has_trace(before, id) {
        let i = choose|i: int| 0 <= i < before.len() && (#[trigger] before[i]).trace_id == id;
        assert(after[i].trace_id == id);
    }
    if id == begun {
        if after.len() > before.len() {
            assert(after[after.len() - 1].trace_id == id);
        }
    }
    if has_trace(after, id) {
        let i = choose|i: int| 0 <= i < after.len() && (#[trigger] after[i]).trace_id == id;
        if i < before.len() {
            assert(before[i].trace_id == id);
        }
    }
}

/// After a batch the count of dropped steps of a request is what it was and the sum over the ends
/// of it in the batch, and a request is marked as incomplete exactly where that count is positive.
pub proof fn law_dropped_steps_add_up(
    tables: Tables,
    commands: Seq<CommandView>,
    outcomes: Seq<OutcomeView>,
    id: Seq<char>,
)
    requires
        marked(tables.traces),
        forall|i: int| 0 <= i < commands.len() ==> countable(#[trigger] commands[i]),
        with_commands(tables, commands, outcomes) is Ok,
    ensures
        ({
            let after = with_commands(tables, commands, outcomes)->Ok_0;
            let had = has_trace(tables.traces, id);
            &&& marked(after.traces)
            &&& tables.traces.len() <= after.traces.len()
            &&& has_trace(after.traces, id) == known(had, commands, id)
            &&& forall|i: int|
                #![trigger after.traces[i]]
                0 <= i < after.traces.len() && after.traces[i].trace_id == id
                    ==> after.traces[i].dropped_event_count == counted_before(tables.traces, i)
                    + reported(had, commands, id)
        }),
    decreases commands.len(),
{
    if commands.len() > 0 {
        let (first, last) = (commands.drop_last(), commands.last());
        assert forall|i: int| 0 <= i < first.len() implies countable(#[trigger] first[i]) by {
            assert(first[i] == commands[i]);
        }
        assert(countable(commands[commands.len() - 1]));
        law_dropped_steps_add_up(tables, first, outcomes.drop_last(), id);
        let had = has_trace(tables.traces, id);
        let before = with_commands(tables, first, outcomes.drop_last())->Ok_0;
        law_dropped_steps_show(before, last, outcomes.last(), id);
        law_command_continues(before, last, outcomes.last());
        reveal_with_fuel(known, 2);
        reveal_with_fuel(reported, 2);
        assert(seq![last].drop_last() =~= Seq::<CommandView>::empty());
        let after = with_commands(tables, commands, outcomes)->Ok_0;
        assert forall|i: int|
            #![trigger after.traces[i]]
            0 <= i < after.traces.len() && after.traces[i].trace_id
                == id implies after.traces[i].dropped_event_count == counted_before(
            tables.traces,
            i,
        ) + reported(had, commands, id) by {
            if i < before.traces.len() {
                assert(before.traces[i].trace_id == id);
            } else {
                lemma_no_reports(had, first, id);
                assert(!has_trace(before.traces, id)) by {
                    if has_trace(before.traces, id) {
                        lemma_new_rows(before, last, outcomes.last(), i);
                    }
                }
            }
        }
    }
}

/// A row that a command adds is one of a request that the log did not have.
proof fn lemma_new_rows(tables: Tables, command: CommandView, outcome: OutcomeView, i: int)
    requires
        with_command(tables, command, outcome) is Ok,
        tables.traces.len() <= i < with_command(tables, command, outcome)->Ok_0.traces.len(),
    ensures
        !has_trace(
            tables.traces,
            with_command(tables, command, outcome)->Ok_0.traces[i].trace_id,
        ),
{
}

/// Of a request that the log does not have in the end, nothing is reported.
proof fn lemma_no_reports(had: bool, commands: Seq<CommandView>, id: Seq<char>)
    ensures
        !known(had, commands, id) ==> reported(had, commands, id) == 0,
    decreases commands.len(),
{
    if commands.len() > 0 {
        lemma_no_reports(had, commands.drop_last(), id);
    }
}

/// The end of a request adds the steps that were dropped to those counted before, and marks the
/// request as incomplete where there are any.
pub proof fn law_end_counts_dropped_steps(
    tables: Tables,
    complete: CompleteTrace<Seq<char>>,
    outcome: OutcomeView,
    i: int,
)
    requires
        0 <= i < tables.traces.len(),
        tables.traces[i].trace_id == complete.trace_id,
        complete.dropped_event_count <= i64::MAX,
        with_command(tables, WriteCommand::Complete(complete), outcome) is Ok,
    ensures
        ({
            let before = tables.traces[i];
            let after = with_command(
                tables,
                WriteCommand::Complete(complete),
                outcome,
            )->Ok_0.traces[i];
            &&& after.dropped_event_count == before.dropped_event_count
                + complete.dropped_event_count
            &&& complete.dropped_event_count > 0 ==> after.partial == 1
            &&& complete.dropped_event_count == 0 ==> after.partial == before.partial
            &&& after.outcome == complete.outcome
            &&& after.completed_at == Some(outcome.at)
        }),
{
    let step = complete_step(complete);
    let stepped = with_step(tables, step, None, outcome.event_at)->Ok_0;
    assert(has_trace(tables.traces, complete.trace_id));
    assert(stepped.traces[i].trace_id == complete.trace_id);
    assert(completion_fits(stepped.traces, complete));
    assert(fits(stepped.traces[i].dropped_event_count + (complete.dropped_event_count as i64)));
}

/// Whether a log continues another: the same requests are there in their places, and steps,
/// payloads and messages were only added.
pub open spec fn continues(before: Tables, after: Tables) -> bool {
    &&& before.traces.len() <= after.traces.len()
    &&& forall|i: int|
        0 <= i < before.traces.len() ==> (#[trigger] after.traces[i]).trace_id
            == before.traces[i].trace_id && after.traces[i].started_at
            == before.traces[i].started_at
    &&& before.events.is_prefix_of(after.events)
    &&& before.payloads.is_prefix_of(after.payloads)
    &&& before.runtime_logs.is_prefix_of(after.runtime_logs)
    &&& before.last_event_id <= after.last_event_id
    &&& before.last_payload_id <= after.last_payload_id
    &&& before.last_log_id <= after.last_log_id
}

proof fn lemma_continues_on(first: Tables, second: Tables, third: Tables)
    requires
        continues(first, second),
        continues(second, third),
    ensures
        continues(first, third),
{
    assert forall|i: int| 0 <= i < first.traces.len() implies (#[trigger] third.traces[i]).trace_id
        == first.traces[i].trace_id && third.traces[i].started_at
        == first.traces[i].started_at by {
        assert(second.traces[i].trace_id == first.traces[i].trace_id);
    }
    assert(first.events.is_prefix_of(third.events)) by {
        assert forall|i: int| 0 <= i < first.events.len() implies first.events[i]
            == third.events[i] by {
            assert(second.events[i] == first.events[i]);
        }
    }
    assert(first.payloads.is_prefix_of(third.payloads)) by {
        assert forall|i: int| 0 <= i < first.payloads.len() implies first.payloads[i]
            == third.payloads[i] by {
            assert(second.payloads[i] == first.payloads[i]);
        }
    }
    assert(first.runtime_logs.is_prefix_of(third.runtime_logs)) by {
        assert forall|i: int| 0 <= i < first.runtime_logs.len() implies first.runtime_logs[i]
            == third.runtime_logs[i] by {
            assert(second.runtime_logs[i] == first.runtime_logs[i]);
        }
    }
}

/// A command only adds to the log.
pub proof fn law_command_continues(
    tables: Tables,
    command: CommandView,
    outcome: OutcomeView,
)
    requires
        with_command(tables, command, outcome) is Ok,
    ensures
        continues(tables, with_command(tables, command, outcome)->Ok_0),
{
}

/// A batch only adds to the log.
pub proof fn law_batch_continues(
    tables: Tables,
    commands: Seq<CommandView>,
    outcomes: Seq<OutcomeView>,
)
    requires
        commands.len() == outcomes.len(),
        with_commands(tables, commands, outcomes) is Ok,
    ensures
        continues(tables, with_commands(tables, commands, outcomes)->Ok_0),
    decreases commands.len(),
{
    if commands.len() > 0 {
        law_batch_continues(tables, commands.drop_last(), outcomes.drop_last());
        let before = with_commands(tables, commands.drop_last(), outcomes.drop_last())->Ok_0;
        law_command_continues(before, commands.last(), outcomes.last());
        lemma_continues_on(
            tables,
            before,
            with_commands(tables, commands, outcomes)->Ok_0,
        );
    }
}

/// How commands are cut into batches makes no difference.
pub proof fn law_batches_join(
    tables: Tables,
    first: Seq<CommandView>,
    first_outcomes: Seq<OutcomeView>,
    second: Seq<CommandView>,
    second_outcomes: Seq<OutcomeView>,
)
    requires
        first.len() == first_outcomes.len(),
        second.len() == second_outcomes.len(),
        with_commands(tables, first, first_outcomes) is Ok,
    ensures
        with_commands(tables, first + second, first_outcomes + second_outcomes) == with_commands(
            with_commands(tables, first, first_outcomes)->Ok_0,
            second,
            second_outcomes,
        ),
    decreases second.len(),
{
    if second.len() == 0 {
        assert(first + second == first);
        assert(first_outcomes + second_outcomes == first_outcomes);
    } else {
        law_batches_join(
            tables,
            first,
            first_outcomes,
            second.drop_last(),
            second_outcomes.drop_last(),
        );
        assert((first + second).drop_last() == first + second.drop_last());
        assert((first_outcomes + second_outcomes).drop_last() == first_outcomes
            + second_outcomes.drop_last());
    }
}

/// The requests among those with these identifiers.
pub open spec fn traces_among(traces: Seq<TraceRow<Seq<char>>>, ids: Set<Seq<char>>) -> Seq<
    TraceRow<Seq<char>>,
> {
    traces.filter(|row: TraceRow<Seq<char>>| ids.contains(row.trace_id))
}

/// The steps of requests with these identifiers.
pub open spec fn events_among(events: Seq<EventRow<Seq<char>>>, ids: Set<Seq<char>>) -> Seq<
    EventRow<Seq<char>>,
> {
    events.filter(|row: EventRow<Seq<char>>| ids.contains(row.trace_id))
}

/// The part of a log that is about some requests: without the others and their steps, and
/// without the payloads and messages before some place.
pub open spec fn part(
    tables: Tables,
    ids: Set<Seq<char>>,
    payloads_from: int,
    logs_from: int,
) -> Tables {
    Tables {
        traces: traces_among(tables.traces, ids),
        events: events_among(tables.events, ids),
        payloads: tables.payloads.skip(payloads_from),
        runtime_logs: tables.runtime_logs.skip(logs_from),
        ..tables
    }
}

/// What an operation on the part gives, given what it gives on the whole.
pub open spec fn part_of_result(
    result: Result<Tables, StoreError>,
    ids: Set<Seq<char>>,
    payloads_from: int,
    logs_from: int,
) -> Result<Tables, StoreError> {
    match result {
        Ok(tables) => Ok(part(tables, ids, payloads_from, logs_from)),
        Err(error) => Err(error),
    }
}

/// A request is in the part where it is in the whole.
proof fn lemma_trace_among(traces: Seq<TraceRow<Seq<char>>>, ids: Set<Seq<char>>, id: Seq<char>)
    requires
        ids.contains(id),
    ensures
        has_trace(traces_among(traces, ids), id) == has_trace(traces, id),
{
    let keep = |row: TraceRow<Seq<char>>| ids.contains(row.trace_id);
    let some = traces_among(traces, ids);
    lemma_filter_contents(traces, keep);
    if has_trace(some, id) {
        let i = choose|i: int| 0 <= i < some.len() && (#[trigger] some[i]).trace_id == id;
        assert(some.contains(some[i]));
        let j = traces.index_of(some[i]);
        assert(traces[j].trace_id == id);
    }
    if has_trace(traces, id) {
        let j = choose|j: int| 0 <= j < traces.len() && (#[trigger] traces[j]).trace_id == id;
        assert(traces.contains(traces[j]) && keep(traces[j]));
        assert(some.contains(traces[j]));
        let i = some.index_of(traces[j]);
        assert(some[i].trace_id == id);
    }
}

/// What holds of all requests of an identifier in the part holds of all in the whole.
proof fn lemma_all_among(
    traces: Seq<TraceRow<Seq<char>>>,
    ids: Set<Seq<char>>,
    id: Seq<char>,
    holds: spec_fn(TraceRow<Seq<char>>) -> bool,
)
    requires
        ids.contains(id),
    ensures
        (forall|i: int|
            0 <= i < traces_among(traces, ids).len() && (
            #[trigger] traces_among(traces, ids)[i]).trace_id == id ==> holds(
                traces_among(traces, ids)[i],
            )) == (forall|i: int|
            0 <= i < traces.len() && (#[trigger] traces[i]).trace_id == id ==> holds(traces[i])),
{
    let keep = |row: TraceRow<Seq<char>>| ids.contains(row.trace_id);
    let some = traces_among(traces, ids);
    lemma_filter_contents(traces, keep);
    if forall|i: int|
        0 <= i < some.len() && (#[trigger] some[i]).trace_id == id ==> holds(some[i]) {
        assert forall|i: int|
            0 <= i < traces.len() && (#[trigger] traces[i]).trace_id == id implies holds(
            traces[i],
        ) by {
            assert(traces.contains(traces[i]) && keep(traces[i]));
            assert(some.contains(traces[i]));
            let j = some.index_of(traces[i]);
            assert(some[j].trace_id == id);
        }
    }
    if forall|i: int|
        0 <= i < traces.len() && (#[trigger] traces[i]).trace_id == id ==> holds(traces[i]) {
        assert forall|i: int|
            0 <= i < some.len() && (#[trigger] some[i]).trace_id == id implies holds(some[i]) by {
            assert(some.contains(some[i]));
            let j = traces.index_of(some[i]);
            assert(traces[j].trace_id == id);
        }
    }
}

/// The last number of a request is the same in the part and in the whole.
proof fn lemma_sequence_among(
    events: Seq<EventRow<Seq<char>>>,
    ids: Set<Seq<char>>,
    id: Seq<char>,
)
    requires
        ids.contains(id),
    ensures
        last_sequence(events_among(events, ids), id) == last_sequence(events, id),
    decreases events.len(),
{
    let keep = |row: EventRow<Seq<char>>| ids.contains(row.trace_id);
    reveal(Seq::filter);
    if events.len() > 0 {
        let before = events.drop_last();
        let last = events.last();
        lemma_sequence_among(before, ids, id);
        assert(events == before.push(last));
        before.lemma_filter_push(last, keep);
        if keep(last) {
            assert(events_among(events, ids).drop_last() == events_among(before, ids));
        }
    }
}

proof fn lemma_event_local(
    tables: Tables,
    event: StepView,
    payload_id: Option<i64>,
    payload_bytes: i64,
    at: i64,
    ids: Set<Seq<char>>,
    payloads_from: int,
    logs_from: int,
)
    requires
        ids.contains(event.trace_id),
    ensures
        with_event(
            part(tables, ids, payloads_from, logs_from),
            event,
            payload_id,
            payload_bytes,
            at,
        ) == part_of_result(
            with_event(tables, event, payload_id, payload_bytes, at),
            ids,
            payloads_from,
            logs_from,
        ),
{
    let id = event.trace_id;
    let bytes = payload_bytes + summary_bytes(event.summary);
    let some = part(tables, ids, payloads_from, logs_from);
    lemma_sequence_among(tables.events, ids, id);
    lemma_all_among(
        tables.traces,
        ids,
        id,
        |row: TraceRow<Seq<char>>| fits(row.stored_bytes + bytes),
    );
    assert(bump_fits(some.traces, id, bytes) == bump_fits(tables.traces, id, bytes));
    if with_event(tables, event, payload_id, payload_bytes, at) is Ok {
        let after = with_event(tables, event, payload_id, payload_bytes, at)->Ok_0;
        let change = |row: TraceRow<Seq<char>>|
            if row.trace_id == id {
                bumped(row, bytes, event.attempt_no)
            } else {
                row
            };
        lemma_filter_map(
            tables.traces,
            |row: TraceRow<Seq<char>>| ids.contains(row.trace_id),
            change,
        );
        assert(after.traces =~= tables.traces.map_values(change));
        assert(bumped_rows(some.traces, id, bytes, event.attempt_no) =~= some.traces.map_values(
            change,
        ));
        let keep = |row: EventRow<Seq<char>>| ids.contains(row.trace_id);
        tables.events.lemma_filter_push(after.events.last(), keep);
        assert(after.events == tables.events.push(after.events.last()));
    }
}

proof fn lemma_step_local(
    tables: Tables,
    event: StepView,
    reply: Reply,
    at: i64,
    ids: Set<Seq<char>>,
    payloads_from: int,
    logs_from: int,
)
    requires
        ids.contains(event.trace_id),
        0 <= payloads_from <= tables.payloads.len(),
    ensures
        with_step(part(tables, ids, payloads_from, logs_from), event, reply, at) == part_of_result(
            with_step(tables, event, reply, at),
            ids,
            payloads_from,
            logs_from,
        ),
{
    lemma_trace_among(tables.traces, ids, event.trace_id);
    match reply {
        None => {
            lemma_event_local(tables, event, None, 0, at, ids, payloads_from, logs_from);
        },
        Some(None) => {},
        Some(Some(stored)) => {
            let some = part(tables, ids, payloads_from, logs_from);
            let held = with_payload(tables, stored);
            assert(with_payload(some, stored) =~= part(held, ids, payloads_from, logs_from));
            lemma_event_local(
                held,
                event,
                Some((tables.last_payload_id + 1) as i64),
                stored.stored_bytes,
                at,
                ids,
                payloads_from,
                logs_from,
            );
        },
    }
}

/// A command does on the part of the log that is about its request what it does on the whole:
/// the rest of the log plays no role.
pub proof fn law_command_is_local(
    tables: Tables,
    command: CommandView,
    outcome: OutcomeView,
    ids: Set<Seq<char>>,
    payloads_from: int,
    logs_from: int,
)
    requires
        command_trace(command) matches Some(id) ==> ids.contains(id),
        0 <= payloads_from <= tables.payloads.len(),
        0 <= logs_from <= tables.runtime_logs.len(),
    ensures
        with_command(part(tables, ids, payloads_from, logs_from), command, outcome)
            == part_of_result(
            with_command(tables, command, outcome),
            ids,
            payloads_from,
            logs_from,
        ),
{
    let some = part(tables, ids, payloads_from, logs_from);
    match command {
        WriteCommand::Begin { trace_id, input } => {
            let row = begin_row(trace_id, input, outcome.at);
            let begun = with_trace(tables, row);
            lemma_trace_among(tables.traces, ids, trace_id);
            let keep = |row: TraceRow<Seq<char>>| ids.contains(row.trace_id);
            tables.traces.lemma_filter_push(row, keep);
            assert(with_trace(some, row) =~= part(begun, ids, payloads_from, logs_from));
            lemma_step_local(
                begun,
                begin_step(trace_id, input),
                outcome.reply,
                outcome.event_at,
                ids,
                payloads_from,
                logs_from,
            );
        },
        WriteCommand::Event(event) => {
            lemma_step_local(
                tables,
                event,
                outcome.reply,
                outcome.event_at,
                ids,
                payloads_from,
                logs_from,
            );
        },
        WriteCommand::Complete(complete) => {
            let step = complete_step(complete);
            lemma_step_local(
                tables,
                step,
                None,
                outcome.event_at,
                ids,
                payloads_from,
                logs_from,
            );
            if with_step(tables, step, None, outcome.event_at) is Ok {
                let stepped = with_step(tables, step, None, outcome.event_at)->Ok_0;
                let id = complete.trace_id;
                lemma_all_among(
                    stepped.traces,
                    ids,
                    id,
                    |row: TraceRow<Seq<char>>|
                        fits(row.dropped_event_count + (complete.dropped_event_count as i64)),
                );
                assert(completion_fits(traces_among(stepped.traces, ids), complete)
                    == completion_fits(stepped.traces, complete));
                let change = |row: TraceRow<Seq<char>>|
                    if row.trace_id == complete.trace_id {
                        completed(row, complete, outcome.at)
                    } else {
                        row
                    };
                lemma_filter_map(
                    stepped.traces,
                    |row: TraceRow<Seq<char>>| ids.contains(row.trace_id),
                    change,
                );
                let among = traces_among(stepped.traces, ids);
                assert(completed_rows(among, complete, outcome.at) =~= among.map_values(change));
                assert(completed_rows(stepped.traces, complete, outcome.at)
                    =~= stepped.traces.map_values(change));
            }
        },
        WriteCommand::Runtime(input) => {
            if with_command(tables, command, outcome) is Ok {
                assert(with_command(some, command, outcome)->Ok_0 =~= part(
                    with_command(tables, command, outcome)->Ok_0,
                    ids,
                    payloads_from,
                    logs_from,
                ));
            }
        },
    }
}

/// A batch does on the part of the log that is about its requests what it does on the whole.
pub proof fn law_batch_is_local(
    tables: Tables,
    commands: Seq<CommandView>,
    outcomes: Seq<OutcomeView>,
    ids: Set<Seq<char>>,
    payloads_from: int,
    logs_from: int,
)
    requires
        commands.len() == outcomes.len(),
        forall|i: int|
            0 <= i < commands.len() ==> (command_trace(#[trigger] commands[i]) matches Some(id)
                ==> ids.contains(id)),
        0 <= payloads_from <= tables.payloads.len(),
        0 <= logs_from <= tables.runtime_logs.len(),
    ensures
        with_commands(part(tables, ids, payloads_from, logs_from), commands, outcomes)
            == part_of_result(
            with_commands(tables, commands, outcomes),
            ids,
            payloads_from,
            logs_from,
        ),
    decreases commands.len(),
{
    if commands.len() > 0 {
        let (before, replies) = (commands.drop_last(), outcomes.drop_last());
        assert forall|i: int| 0 <= i < before.len() implies (command_trace(
            #[trigger] before[i],
        ) matches Some(id) ==> ids.contains(id)) by {
            assert(before[i] == commands[i]);
        }
        law_batch_is_local(tables, before, replies, ids, payloads_from, logs_from);
        assert(commands[commands.len() - 1] == commands.last());
        if with_commands(tables, before, replies) is Ok {
            law_batch_continues(tables, before, replies);
            law_command_is_local(
                with_commands(tables, before, replies)->Ok_0,
                commands.last(),
                outcomes.last(),
                ids,
                payloads_from,
                logs_from,
            );
        }
    }
}

} // verus!
