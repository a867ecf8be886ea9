//! What a batch leaves in the rows of the log, column by column.
use crate::digest::sha256;
use crate::json::{json_bytes, JsonView};
use crate::payload::{encoded, frame_of, zstd_decode, EncodedPayload};
use crate::records::{optional_text, BeginTrace, WriteCommand};
use crate::redact::{redacted, RedactionPatterns};
use crate::store::{
    batch_came_out, begin_row, begin_step, bump_fits, command_fields, command_payload,
    commands_view, complete_step, completion_fits, fields_fit, fits, has_trace, last_sequence,
    outcomes_fit, outcomes_view, reply_fits, with_command, with_commands, with_step, with_trace,
    CommandView, Outcome, OutcomeView, StoreError,
};
use crate::store_laws::lemma_last_sequence;
use crate::tables::{EventRow, LogStore, Tables, TraceRow};
use crate::text::hex;
use crate::write_laws::law_unknown_request_changes_nothing;
use vstd::prelude::*;
use vstd::string::*;
use vstd::utf8::*;

verus! {

/// A batch of one command does what the command does, or nothing.
proof fn lemma_single(
    store: &mut LogStore,
    batch: Vec<WriteCommand>,
    outcomes: Vec<Outcome>,
    result: Result<(), StoreError>,
)
    requires
        call_ensures(LogStore::apply_batch, (store, &batch, &outcomes), result),
        batch.len() == 1,
        outcomes.len() == 1,
    ensures
        batch_came_out(
            old(store)@,
            with_command(old(store)@, batch@[0]@, outcomes@[0]@),
            final(store)@,
            result,
        ),
{
    reveal_with_fuel(with_commands, 2);
    let commands = commands_view(batch@);
    let replies = outcomes_view(outcomes@);
    assert(commands.drop_last().len() == 0);
    assert(commands.last() == batch@[0]@);
    assert(replies.last() == outcomes@[0]@);
}

/// The last number of a request's steps is one of theirs, where it has any.
proof fn lemma_last_is_one(events: Seq<EventRow<Seq<char>>>, id: Seq<char>)
    ensures
        last_sequence(events, id) matches Some(last) ==> exists|i: int|
            0 <= i < events.len() && (#[trigger] events[i]).trace_id == id && events[i].sequence
                == last,
    decreases events.len(),
{
    if events.len() > 0 {
        let before = events.drop_last();
        lemma_last_is_one(before, id);
        if last_sequence(events, id) is Some {
            let last = last_sequence(events, id)->0;
            if events.last().trace_id == id && events.last().sequence == last {
                assert(events[events.len() - 1].sequence == last);
            } else {
                let i = choose|i: int|
                    0 <= i < before.len() && (#[trigger] before[i]).trace_id == id
                        && before[i].sequence == last;
                assert(events[i] == before[i]);
            }
        }
    }
}

/// How many bytes an optional text takes.
pub open spec fn text_bytes(text: Option<Seq<char>>) -> int {
    match text {
        Some(held) => encode_utf8(held).len() as int,
        None => 0,
    }
}

/// How many bytes a stored payload takes, if there is one.
pub open spec fn reply_bytes(reply: Option<Option<EncodedPayload<String, Vec<u8>>>>) -> int {
    match reply {
        Some(Some(stored)) => stored.stored_bytes as int,
        _ => 0,
    }
}

/// Whether a step is numbered next among those of its request: with one where there is none before
/// it, else with one more than the largest number.
pub open spec fn numbered_next(events: Seq<EventRow<Seq<char>>>, new: EventRow<Seq<char>>) -> bool {
    &&& forall|i: int|
        0 <= i < events.len() && (#[trigger] events[i]).trace_id == new.trace_id
            ==> events[i].sequence < new.sequence
    &&& new.sequence == 1 || exists|i: int|
        0 <= i < events.len() && (#[trigger] events[i]).trace_id == new.trace_id
            && events[i].sequence + 1 == new.sequence
    &&& (forall|i: int| 0 <= i < events.len() ==> (#[trigger] events[i]).trace_id != new.trace_id)
        ==> new.sequence == 1
}

/// A step that is written adds one row to the steps, which holds the next numbers, the time and
/// what the step says, and one to the payloads, where it has one; to the row of its request it adds
/// its bytes, and the attempts there are as many as the step says, where that is more. All other
/// rows stay.
pub proof fn law_written_steps(
    store: &mut LogStore,
    batch: Vec<WriteCommand>,
    outcomes: Vec<Outcome>,
    result: Result<(), StoreError>,
)
    requires
        call_ensures(LogStore::apply_batch, (store, &batch, &outcomes), result),
        batch.len() == 1,
        outcomes.len() == 1,
        batch@[0] is Event,
        exists|i: int|
            0 <= i < old(store)@.traces.len() && (#[trigger] old(store)@.traces[i]).trace_id
                == batch@[0]->Event_0.trace_id@,
        text_bytes(optional_text(batch@[0]->Event_0.summary)) <= i64::MAX,
        result is Ok,
    ensures
        ({
            let event = batch@[0]->Event_0;
            let reply = outcomes@[0].reply;
            let (before, after) = (old(store)@, final(store)@);
            let row = after.events.last();
            &&& after.events.len() == before.events.len() + 1
            &&& after.events.drop_last() == before.events
            &&& row.event_id == before.last_event_id + 1
            &&& after.last_event_id == before.last_event_id + 1
            &&& row.trace_id == event.trace_id@
            &&& numbered_next(before.events, row)
            &&& row.occurred_at == outcomes@[0].event_at
            &&& event.offset_ms <= i64::MAX ==> row.offset_ms == event.offset_ms
            &&& row.stage == event.stage@
            &&& row.kind == event.kind@
            &&& row.attempt_no is Some <==> event.attempt_no is Some
            &&& event.attempt_no matches Some(number) ==> row.attempt_no->0 == number
            &&& row.provider_id is Some <==> event.provider_id is Some
            &&& event.provider_id matches Some(id) ==> row.provider_id == Some(id@)
            &&& row.status_code is Some <==> event.status_code is Some
            &&& event.status_code matches Some(code) ==> row.status_code->0 == code
            &&& row.summary is Some <==> event.summary is Some
            &&& event.summary matches Some(text) ==> row.summary == Some(text@)
            &&& row.payload_id is Some <==> reply is Some
            &&& reply is None ==> after.payloads == before.payloads && after.last_payload_id
                == before.last_payload_id
            &&& reply matches Some(held) ==> {
                let stored = held->0;
                let kept = after.payloads.last();
                &&& held is Some
                &&& row.payload_id == Some(kept.payload_id)
                &&& after.payloads.len() == before.payloads.len() + 1
                &&& after.payloads.drop_last() == before.payloads
                &&& kept.payload_id == before.last_payload_id + 1
                &&& after.last_payload_id == before.last_payload_id + 1
                &&& kept.content_type == "application/json"@
                &&& kept.encoding == stored.encoding@
                &&& kept.body == stored.body@
                &&& kept.original_bytes == stored.original_bytes
                &&& kept.stored_bytes == stored.stored_bytes
                &&& kept.sha256 == stored.sha256@
                &&& stored.truncated ==> kept.truncated == 1
                &&& !stored.truncated ==> kept.truncated == 0
            }
            &&& after.runtime_logs == before.runtime_logs
            &&& after.last_log_id == before.last_log_id
            &&& after.traces.len() == before.traces.len()
            &&& forall|i: int|
                #![trigger after.traces[i]]
                0 <= i < before.traces.len() ==> {
                    let (was, is_now) = (before.traces[i], after.traces[i]);
                    let attempts = if event.attempt_no is Some && event.attempt_no->0
                        > was.attempt_count {
                        event.attempt_no->0 as i64
                    } else {
                        was.attempt_count
                    };
                    &&& was.trace_id != event.trace_id@ ==> is_now == was
                    &&& was.trace_id == event.trace_id@ ==> is_now.stored_bytes == was.stored_bytes
                        + reply_bytes(reply) + text_bytes(optional_text(event.summary)) && is_now
                        == TraceRow {
                        stored_bytes: is_now.stored_bytes,
                        attempt_count: attempts,
                        ..was
                    }
                }
        }),
{
    lemma_single(store, batch, outcomes, result);
    let event = batch@[0]->Event_0;
    let (before, after) = (old(store)@, final(store)@);
    assert(batch@[0]@ == CommandView::Event(event@));
    assert(has_trace(before.traces, event@.trace_id));
    lemma_last_sequence(before.events, event@.trace_id);
    lemma_last_is_one(before.events, event@.trace_id);
    assert(after.events == before.events.push(after.events.last()));
    assert(after.events.drop_last() =~= before.events);
    if outcomes@[0].reply is Some {
        assert(after.payloads == before.payloads.push(after.payloads.last()));
        assert(after.payloads.drop_last() =~= before.payloads);
    }
    assert(event@.offset_ms == event.offset_ms);
    assert(event@.summary == optional_text(event.summary));
    assert(optional_text(event.provider_id) == event@.provider_id);
}

/// A step or an end of a request that the log does not have is passed over.
pub proof fn law_commands_of_unknown_requests_are_passed_over(
    store: &mut LogStore,
    batch: Vec<WriteCommand>,
    outcomes: Vec<Outcome>,
    result: Result<(), StoreError>,
)
    requires
        call_ensures(LogStore::apply_batch, (store, &batch, &outcomes), result),
        batch.len() == 1,
        outcomes.len() == 1,
        batch@[0] is Event || batch@[0] is Complete,
        forall|i: int|
            0 <= i < old(store)@.traces.len() ==> (#[trigger] old(store)@.traces[i]).trace_id != (
            match batch@[0] {
                WriteCommand::Event(event) => event.trace_id@,
                WriteCommand::Complete(end) => end.trace_id@,
                _ => Seq::empty(),
            }),
    ensures
        result is Ok,
        final(store)@ == old(store)@,
{
    lemma_single(store, batch, outcomes, result);
    let before = old(store)@;
    match batch@[0] {
        WriteCommand::Event(event) => {
            assert(batch@[0]@ == CommandView::Event(event@));
        },
        WriteCommand::Complete(end) => {
            assert(batch@[0]@ == CommandView::Complete(end@));
            law_unknown_request_changes_nothing(before, batch@[0]@, outcomes@[0]@);
        },
        _ => {},
    }
}

/// When a step of a request that the log has cannot be written, and why: its payload has no JSON
/// text, no identifier or number is left for it, or the bytes of its request would be out of range.
/// Nothing is written of it.
pub proof fn law_steps_that_fail(
    store: &mut LogStore,
    batch: Vec<WriteCommand>,
    outcomes: Vec<Outcome>,
    result: Result<(), StoreError>,
)
    requires
        call_ensures(LogStore::apply_batch, (store, &batch, &outcomes), result),
        batch.len() == 1,
        outcomes.len() == 1,
        batch@[0] is Event,
        exists|i: int|
            0 <= i < old(store)@.traces.len() && (#[trigger] old(store)@.traces[i]).trace_id
                == batch@[0]->Event_0.trace_id@,
        text_bytes(optional_text(batch@[0]->Event_0.summary)) <= i64::MAX,
    ensures
        ({
            let event = batch@[0]->Event_0;
            let reply = outcomes@[0].reply;
            let before = old(store)@;
            let payload_fits = reply is None || before.last_payload_id < i64::MAX;
            let number_fits = forall|i: int|
                0 <= i < before.events.len() && (#[trigger] before.events[i]).trace_id
                    == event.trace_id@ ==> before.events[i].sequence < i64::MAX;
            let bytes = reply_bytes(reply) + text_bytes(optional_text(event.summary));
            let bytes_fit = i64::MIN <= bytes <= i64::MAX && forall|i: int|
                0 <= i < before.traces.len() && (#[trigger] before.traces[i]).trace_id
                    == event.trace_id@ ==> i64::MIN <= before.traces[i].stored_bytes + bytes
                    <= i64::MAX;
            &&& reply is Some && reply->0 is None ==> result == Err::<(), StoreError>(
                StoreError::Json,
            )
            &&& !(reply is Some && reply->0 is None) ==> {
                &&& !payload_fits ==> result == Err::<(), StoreError>(StoreError::Full)
                &&& payload_fits && !number_fits ==> result == Err::<(), StoreError>(
                    StoreError::Overflow,
                )
                &&& payload_fits && number_fits && before.last_event_id == i64::MAX ==> result
                    == Err::<(), StoreError>(StoreError::Full)
                &&& payload_fits && number_fits && before.last_event_id < i64::MAX && !bytes_fit
                    ==> result == Err::<(), StoreError>(StoreError::Overflow)
                &&& payload_fits && number_fits && before.last_event_id < i64::MAX && bytes_fit
                    ==> result is Ok
            }
            &&& result is Err ==> final(store)@ == before
        }),
{
    lemma_single(store, batch, outcomes, result);
    let event = batch@[0]->Event_0;
    let before = old(store)@;
    assert(batch@[0]@ == CommandView::Event(event@));
    assert(has_trace(before.traces, event@.trace_id));
    assert(event@.summary == optional_text(event.summary));
    assert(event@.trace_id == event.trace_id@);
    lemma_last_sequence(before.events, event@.trace_id);
    lemma_last_is_one(before.events, event@.trace_id);
}

/// A request that begins has a row of its own, which says what its start says, that it is in
/// progress, and nothing yet of how it ended; it is the last one. Its first step is the request
/// that the client sent.
pub proof fn law_begun_requests(
    store: &mut LogStore,
    batch: Vec<WriteCommand>,
    outcomes: Vec<Outcome>,
    result: Result<(), StoreError>,
)
    requires
        call_ensures(LogStore::apply_batch, (store, &batch, &outcomes), result),
        batch.len() == 1,
        outcomes.len() == 1,
        batch@[0] is Begin,
        forall|i: int|
            0 <= i < old(store)@.traces.len() ==> (#[trigger] old(store)@.traces[i]).trace_id
                != batch@[0]->trace_id@,
        result is Ok,
    ensures
        ({
            let (id, input) = (batch@[0]->trace_id@, batch@[0]->input);
            let outcome = outcomes@[0];
            let (before, after) = (old(store)@, final(store)@);
            let row = after.traces.last();
            &&& after.traces.len() == before.traces.len() + 1
            &&& after.traces.drop_last() == before.traces
            &&& row.trace_id == id
            &&& row.usage_request_id is None
            &&& row.app_type == input.app_type@
            &&& row.method == input.method@
            &&& row.path == input.path@
            &&& row.request_model is Some <==> input.request_model is Some
            &&& input.request_model matches Some(model) ==> row.request_model == Some(model@)
            &&& row.response_model is None
            &&& row.final_provider_id is Some <==> input.provider_id is Some
            &&& input.provider_id matches Some(provider) ==> row.final_provider_id == Some(
                provider@,
            )
            &&& row.status_code is None
            &&& input.is_streaming ==> row.is_streaming == 1
            &&& !input.is_streaming ==> row.is_streaming == 0
            &&& row.attempt_count == 0
            &&& row.started_at == outcome.at
            &&& row.completed_at is None
            &&& row.duration_ms is None
            &&& row.outcome == "in_progress"@
            &&& row.partial == 0
            &&& row.dropped_event_count == 0
            &&& row.stored_bytes == reply_bytes(outcome.reply) + 23
            &&& first_step(before, after, id, outcome)
        }),
{
    lemma_single(store, batch, outcomes, result);
    let (id, input) = (batch@[0]->trace_id@, batch@[0]->input);
    let outcome = outcomes@[0];
    let (before, after) = (old(store)@, final(store)@);
    assert(batch@[0]@ == (CommandView::Begin { trace_id: id, input: input@ }));
    let begun = with_trace(before, begin_row(id, input@, outcome.at));
    assert(!has_trace(before.traces, id));
    assert(begun.traces == before.traces.push(begun.traces.last()));
    assert(begun.traces[before.traces.len() as int].trace_id == id);
    assert(has_trace(begun.traces, id));
    lemma_first_step(begun, id, input@, outcome@);
    assert forall|i: int| 0 <= i < before.traces.len() implies after.traces[i]
        == before.traces[i] by {
        assert(begun.traces[i] == before.traces[i]);
    }
    assert(after.traces.drop_last() =~= before.traces);
    lemma_received();
}

/// The summary of the first step takes twenty-three bytes.
proof fn lemma_received()
    ensures
        encode_utf8("Client request received"@).len() == 23,
{
    reveal_strlit("Client request received");
    is_ascii_chars_encode_utf8("Client request received"@);
}

/// Whether the step that was added to a log is the first one of a request, with the payload that
/// was stored for it.
pub open spec fn first_step(
    before: Tables,
    after: Tables,
    id: Seq<char>,
    outcome: Outcome,
) -> bool {
    let row = after.events.last();
    &&& after.events.len() == before.events.len() + 1
    &&& after.events.drop_last() == before.events
    &&& row.event_id == before.last_event_id + 1
    &&& after.last_event_id == before.last_event_id + 1
    &&& row.trace_id == id
    &&& numbered_next(before.events, row)
    &&& row.occurred_at == outcome.event_at
    &&& row.offset_ms == 0
    &&& row.stage == "client_request"@
    &&& row.kind == "request"@
    &&& row.attempt_no is None
    &&& row.provider_id is None
    &&& row.status_code is None
    &&& row.summary == Some("Client request received"@)
    &&& outcome.reply is None ==> row.payload_id is None && after.payloads == before.payloads
    &&& outcome.reply matches Some(held) ==> {
        &&& held is Some
        &&& row.payload_id == Some(after.payloads.last().payload_id)
        &&& after.payloads.len() == before.payloads.len() + 1
        &&& after.payloads.drop_last() == before.payloads
        &&& after.payloads.last().payload_id == before.last_payload_id + 1
        &&& after.payloads.last().encoding == held->0.encoding@
        &&& after.payloads.last().body == held->0.body@
    }
    &&& after.runtime_logs == before.runtime_logs
    &&& after.last_log_id == before.last_log_id
}

proof fn lemma_first_step(
    begun: Tables,
    id: Seq<char>,
    input: BeginTrace<Seq<char>, JsonView>,
    outcome: OutcomeView,
)
    requires
        has_trace(begun.traces, id),
        with_step(begun, begin_step(id, input), outcome.reply, outcome.event_at) is Ok,
    ensures
        ({
            let after = with_step(
                begun,
                begin_step(id, input),
                outcome.reply,
                outcome.event_at,
            )->Ok_0;
            &&& after.events.drop_last() == begun.events
            &&& numbered_next(begun.events, after.events.last())
            &&& outcome.reply is Some ==> after.payloads.drop_last() == begun.payloads
        }),
{
    let after = with_step(begun, begin_step(id, input), outcome.reply, outcome.event_at)->Ok_0;
    lemma_last_sequence(begun.events, id);
    lemma_last_is_one(begun.events, id);
    assert(after.events == begun.events.push(after.events.last()));
    assert(after.events.drop_last() =~= begun.events);
    if outcome.reply is Some {
        assert(after.payloads == begun.payloads.push(after.payloads.last()));
        assert(after.payloads.drop_last() =~= begun.payloads);
    }
}

/// A request that begins again under the same identifier gets the first step once more; its row
/// stays, but for the bytes of the step.
pub proof fn law_requests_that_begin_again(
    store: &mut LogStore,
    batch: Vec<WriteCommand>,
    outcomes: Vec<Outcome>,
    result: Result<(), StoreError>,
)
    requires
        call_ensures(LogStore::apply_batch, (store, &batch, &outcomes), result),
        batch.len() == 1,
        outcomes.len() == 1,
        batch@[0] is Begin,
        exists|i: int|
            0 <= i < old(store)@.traces.len() && (#[trigger] old(store)@.traces[i]).trace_id
                == batch@[0]->trace_id@,
        result is Ok,
    ensures
        first_step(old(store)@, final(store)@, batch@[0]->trace_id@, outcomes@[0]),
        final(store)@.traces.len() == old(store)@.traces.len(),
        forall|i: int|
            #![trigger final(store)@.traces[i]]
            0 <= i < old(store)@.traces.len() ==> {
                let (was, is_now) = (old(store)@.traces[i], final(store)@.traces[i]);
                &&& was.trace_id != batch@[0]->trace_id@ ==> is_now == was
                &&& was.trace_id == batch@[0]->trace_id@ ==> is_now.stored_bytes == was.stored_bytes
                    + reply_bytes(outcomes@[0].reply) + 23 && is_now == TraceRow {
                    stored_bytes: is_now.stored_bytes,
                    ..was
                }
            },
{
    lemma_single(store, batch, outcomes, result);
    let (id, input) = (batch@[0]->trace_id@, batch@[0]->input);
    assert(batch@[0]@ == (CommandView::Begin { trace_id: id, input: input@ }));
    assert(has_trace(old(store)@.traces, id));
    lemma_first_step(old(store)@, id, input@, outcomes@[0]@);
    lemma_received();
}

/// The end of a request writes to its row what it says: the request that usage is counted for, the
/// model, the provider and the status where it gives them, while what was known before stays where
/// it gives none; the time, how long it took and how it came out in any case. Dropped steps are
/// added up, and mark the request as incomplete. What else the row says stays, but for the bytes of
/// the last step, and so do all other rows.
pub proof fn law_ended_requests(
    store: &mut LogStore,
    batch: Vec<WriteCommand>,
    outcomes: Vec<Outcome>,
    result: Result<(), StoreError>,
)
    requires
        call_ensures(LogStore::apply_batch, (store, &batch, &outcomes), result),
        batch.len() == 1,
        outcomes.len() == 1,
        batch@[0] is Complete,
        batch@[0]->Complete_0.dropped_event_count <= i64::MAX,
        batch@[0]->Complete_0.duration_ms <= i64::MAX,
        encode_utf8("Request "@ + batch@[0]->Complete_0.outcome@).len() <= i64::MAX,
        exists|i: int|
            0 <= i < old(store)@.traces.len() && (#[trigger] old(store)@.traces[i]).trace_id
                == batch@[0]->Complete_0.trace_id@,
        result is Ok,
    ensures
        ({
            let end = batch@[0]->Complete_0;
            let outcome = outcomes@[0];
            let (before, after) = (old(store)@, final(store)@);
            let row = after.events.last();
            &&& after.traces.len() == before.traces.len()
            &&& forall|i: int|
                #![trigger after.traces[i]]
                0 <= i < before.traces.len() ==> {
                    let (was, is_now) = (before.traces[i], after.traces[i]);
                    &&& was.trace_id != end.trace_id@ ==> is_now == was
                    &&& was.trace_id == end.trace_id@ ==> {
                        &&& is_now.trace_id == was.trace_id
                        &&& end.usage_request_id matches Some(id) ==> is_now.usage_request_id
                            == Some(id@)
                        &&& end.usage_request_id is None ==> is_now.usage_request_id
                            == was.usage_request_id
                        &&& is_now.app_type == was.app_type
                        &&& is_now.method == was.method
                        &&& is_now.path == was.path
                        &&& is_now.request_model == was.request_model
                        &&& end.response_model matches Some(model) ==> is_now.response_model
                            == Some(model@)
                        &&& end.response_model is None ==> is_now.response_model
                            == was.response_model
                        &&& end.final_provider_id matches Some(id) ==> is_now.final_provider_id
                            == Some(id@)
                        &&& end.final_provider_id is None ==> is_now.final_provider_id
                            == was.final_provider_id
                        &&& end.status_code matches Some(code) ==> is_now.status_code is Some
                            && is_now.status_code->0 == code
                        &&& end.status_code is None ==> is_now.status_code == was.status_code
                        &&& is_now.is_streaming == was.is_streaming
                        &&& is_now.attempt_count == was.attempt_count
                        &&& is_now.started_at == was.started_at
                        &&& is_now.completed_at == Some(outcome.at)
                        &&& is_now.duration_ms is Some && is_now.duration_ms->0 == end.duration_ms
                        &&& is_now.outcome == end.outcome@
                        &&& end.dropped_event_count > 0 ==> is_now.partial == 1
                        &&& end.dropped_event_count == 0 ==> is_now.partial == was.partial
                        &&& is_now.dropped_event_count == was.dropped_event_count
                            + end.dropped_event_count
                        &&& is_now.stored_bytes == was.stored_bytes + encode_utf8(
                            "Request "@ + end.outcome@,
                        ).len()
                    }
                }
            &&& after.events.len() == before.events.len() + 1
            &&& after.events.drop_last() == before.events
            &&& row.event_id == before.last_event_id + 1
            &&& after.last_event_id == before.last_event_id + 1
            &&& row.trace_id == end.trace_id@
            &&& numbered_next(before.events, row)
            &&& row.occurred_at == outcome.event_at
            &&& row.offset_ms == end.duration_ms
            &&& row.stage == "complete"@
            &&& row.kind == end.outcome@
            &&& row.attempt_no is None
            &&& row.provider_id is Some <==> end.final_provider_id is Some
            &&& end.final_provider_id matches Some(id) ==> row.provider_id == Some(id@)
            &&& row.status_code is Some <==> end.status_code is Some
            &&& end.status_code matches Some(code) ==> row.status_code->0 == code
            &&& row.summary == Some("Request "@ + end.outcome@)
            &&& row.payload_id is None
            &&& after.payloads == before.payloads
            &&& after.last_payload_id == before.last_payload_id
            &&& after.runtime_logs == before.runtime_logs
            &&& after.last_log_id == before.last_log_id
        }),
{
    lemma_single(store, batch, outcomes, result);
    let end = batch@[0]->Complete_0;
    let outcome = outcomes@[0];
    let (before, after) = (old(store)@, final(store)@);
    assert(batch@[0]@ == CommandView::Complete(end@));
    assert(has_trace(before.traces, end@.trace_id));
    lemma_last_sequence(before.events, end@.trace_id);
    lemma_last_is_one(before.events, end@.trace_id);
    let stepped = with_step(before, complete_step(end@), None, outcome.event_at)->Ok_0;
    assert(after.events == before.events.push(after.events.last()));
    assert(after.events.drop_last() =~= before.events);
    assert(end@.usage_request_id == optional_text(end.usage_request_id));
    assert(end@.response_model == optional_text(end.response_model));
    assert(end@.final_provider_id == optional_text(end.final_provider_id));
    assert forall|i: int| 0 <= i < before.traces.len() implies {
        let (was, is_now) = (before.traces[i], #[trigger] after.traces[i]);
        was.trace_id == end@.trace_id ==> fits(
            was.dropped_event_count + end.dropped_event_count as i64,
        ) && is_now.stored_bytes == was.stored_bytes + encode_utf8(
            "Request "@ + end.outcome@,
        ).len()
    } by {
        assert(stepped.traces[i].trace_id == before.traces[i].trace_id);
        assert(stepped.traces[i].dropped_event_count == before.traces[i].dropped_event_count);
    }
}

/// A message that is written adds one row to the messages, which holds the next number and what the
/// message says; it takes the bytes of its text, its target and its fields. Nothing else changes.
pub proof fn law_written_messages(
    store: &mut LogStore,
    batch: Vec<WriteCommand>,
    outcomes: Vec<Outcome>,
    result: Result<(), StoreError>,
)
    requires
        call_ensures(LogStore::apply_batch, (store, &batch, &outcomes), result),
        batch.len() == 1,
        outcomes.len() == 1,
        batch@[0] is Runtime,
    ensures
        ({
            let input = batch@[0]->Runtime_0;
            let fields = optional_text(outcomes@[0].fields);
            let (before, after) = (old(store)@, final(store)@);
            let bytes = encode_utf8(input.message@).len() + encode_utf8(input.target@).len()
                + text_bytes(fields);
            let row = after.runtime_logs.last();
            &&& bytes > i64::MAX ==> result == Err::<(), StoreError>(StoreError::Overflow)
            &&& bytes <= i64::MAX && before.last_log_id == i64::MAX ==> result == Err::<
                (),
                StoreError,
            >(StoreError::Full)
            &&& bytes <= i64::MAX && before.last_log_id < i64::MAX ==> result is Ok
            &&& result is Err ==> after == before
            &&& result is Ok ==> {
                &&& after.runtime_logs.len() == before.runtime_logs.len() + 1
                &&& after.runtime_logs.drop_last() == before.runtime_logs
                &&& row.log_id == before.last_log_id + 1
                &&& after.last_log_id == before.last_log_id + 1
                &&& row.occurred_at == input.occurred_at
                &&& row.level == input.level@
                &&& row.target == input.target@
                &&& row.message == input.message@
                &&& row.fields_json == fields
                &&& row.stored_bytes == bytes
                &&& after.traces == before.traces
                &&& after.events == before.events
                &&& after.payloads == before.payloads
                &&& after.last_event_id == before.last_event_id
                &&& after.last_payload_id == before.last_payload_id
            }
        }),
{
    lemma_single(store, batch, outcomes, result);
    let input = batch@[0]->Runtime_0;
    let (before, after) = (old(store)@, final(store)@);
    assert(batch@[0]@ == CommandView::Runtime(input@));
    assert(input@.message == input.message@);
    if result is Ok {
        assert(after.runtime_logs == before.runtime_logs.push(after.runtime_logs.last()));
        assert(after.runtime_logs.drop_last() =~= before.runtime_logs);
    }
}

/// A batch writes its commands one after the other: what it leaves is what its last command leaves
/// of what the commands before it left. A command that cannot be written fails the whole batch, of
/// which nothing is written then.
pub proof fn law_batches_are_written_in_order(
    store: &mut LogStore,
    batch: Vec<WriteCommand>,
    outcomes: Vec<Outcome>,
    result: Result<(), StoreError>,
    first: &mut LogStore,
    earlier: Vec<WriteCommand>,
    earlier_outcomes: Vec<Outcome>,
    first_result: Result<(), StoreError>,
    second: &mut LogStore,
    last: Vec<WriteCommand>,
    last_outcomes: Vec<Outcome>,
    second_result: Result<(), StoreError>,
)
    requires
        call_ensures(LogStore::apply_batch, (store, &batch, &outcomes), result),
        call_ensures(
            LogStore::apply_batch,
            (first, &earlier, &earlier_outcomes),
            first_result,
        ),
        call_ensures(LogStore::apply_batch, (second, &last, &last_outcomes), second_result),
        batch@ == earlier@ + last@,
        outcomes@ == earlier_outcomes@ + last_outcomes@,
        earlier.len() == earlier_outcomes.len(),
        last.len() == 1,
        last_outcomes.len() == 1,
        old(first)@ == old(store)@,
        old(second)@ == final(first)@,
    ensures
        first_result is Ok && second_result is Ok ==> result is Ok && final(store)@
            == final(second)@,
        first_result is Err ==> result == first_result && final(store)@ == old(store)@,
        first_result is Ok && second_result is Err ==> result == second_result && final(store)@
            == old(store)@,
{
    lemma_single(second, last, last_outcomes, second_result);
    let commands = commands_view(batch@);
    let replies = outcomes_view(outcomes@);
    assert(commands.drop_last() =~= commands_view(earlier@));
    assert(replies.drop_last() =~= outcomes_view(earlier_outcomes@));
    assert(commands.last() == last@[0]@);
    assert(replies.last() == last_outcomes@[0]@);
}

/// A batch of no commands changes nothing.
pub proof fn law_empty_batches_change_nothing(
    store: &mut LogStore,
    batch: Vec<WriteCommand>,
    outcomes: Vec<Outcome>,
    result: Result<(), StoreError>,
)
    requires
        call_ensures(LogStore::apply_batch, (store, &batch, &outcomes), result),
        batch.len() == 0,
        outcomes.len() == 0,
    ensures
        result is Ok,
        final(store)@ == old(store)@,
{
    assert(commands_view(batch@).len() == 0);
}

/// When the start of a request that the log does not have cannot be written, and why. Nothing is
/// written of it then.
pub proof fn law_starts_that_fail(
    store: &mut LogStore,
    batch: Vec<WriteCommand>,
    outcomes: Vec<Outcome>,
    result: Result<(), StoreError>,
)
    requires
        call_ensures(LogStore::apply_batch, (store, &batch, &outcomes), result),
        batch.len() == 1,
        outcomes.len() == 1,
        batch@[0] is Begin,
        forall|i: int|
            0 <= i < old(store)@.traces.len() ==> (#[trigger] old(store)@.traces[i]).trace_id
                != batch@[0]->trace_id@,
        forall|i: int|
            0 <= i < old(store)@.events.len() ==> (#[trigger] old(store)@.events[i]).trace_id
                != batch@[0]->trace_id@,
    ensures
        ({
            let reply = outcomes@[0].reply;
            let before = old(store)@;
            let payload_fits = reply is None || before.last_payload_id < i64::MAX;
            let bytes_fit = i64::MIN <= reply_bytes(reply) + 23 <= i64::MAX;
            &&& reply is Some && reply->0 is None ==> result == Err::<(), StoreError>(
                StoreError::Json,
            )
            &&& !(reply is Some && reply->0 is None) ==> {
                &&& !payload_fits || before.last_event_id == i64::MAX ==> result == Err::<
                    (),
                    StoreError,
                >(StoreError::Full)
                &&& payload_fits && before.last_event_id < i64::MAX && !bytes_fit ==> result
                    == Err::<(), StoreError>(StoreError::Overflow)
                &&& payload_fits && before.last_event_id < i64::MAX && bytes_fit ==> result is Ok
            }
            &&& result is Err ==> final(store)@ == before
        }),
{
    lemma_single(store, batch, outcomes, result);
    let (id, input) = (batch@[0]->trace_id@, batch@[0]->input);
    let outcome = outcomes@[0];
    let before = old(store)@;
    assert(batch@[0]@ == (CommandView::Begin { trace_id: id, input: input@ }));
    let begun = with_trace(before, begin_row(id, input@, outcome.at));
    assert(begun.traces[before.traces.len() as int].trace_id == id);
    assert(has_trace(begun.traces, id));
    lemma_last_is_one(before.events, id);
    lemma_received();
    let bytes = reply_bytes(outcome.reply) + 23;
    assert(bump_fits(begun.traces, id, bytes) == fits(bytes)) by {
        assert(begun.traces[before.traces.len() as int].stored_bytes == 0);
        assert forall|i: int|
            0 <= i < begun.traces.len() && (#[trigger] begun.traces[i]).trace_id == id implies i
            == before.traces.len() by {
            if i < before.traces.len() {
                assert(before.traces[i].trace_id != id);
            }
        }
    }
}

/// When the end of a request that the log has cannot be written, and why: no number or identifier
/// is left for its last step, or the bytes or the dropped steps of the request would be out of
/// range. Nothing is written of it then.
pub proof fn law_ends_that_fail(
    store: &mut LogStore,
    batch: Vec<WriteCommand>,
    outcomes: Vec<Outcome>,
    result: Result<(), StoreError>,
)
    requires
        call_ensures(LogStore::apply_batch, (store, &batch, &outcomes), result),
        batch.len() == 1,
        outcomes.len() == 1,
        batch@[0] is Complete,
        batch@[0]->Complete_0.dropped_event_count <= i64::MAX,
        encode_utf8("Request "@ + batch@[0]->Complete_0.outcome@).len() <= i64::MAX,
        exists|i: int|
            0 <= i < old(store)@.traces.len() && (#[trigger] old(store)@.traces[i]).trace_id
                == batch@[0]->Complete_0.trace_id@,
    ensures
        ({
            let end = batch@[0]->Complete_0;
            let before = old(store)@;
            let bytes = encode_utf8("Request "@ + end.outcome@).len();
            let number_fits = forall|i: int|
                0 <= i < before.events.len() && (#[trigger] before.events[i]).trace_id
                    == end.trace_id@ ==> before.events[i].sequence < i64::MAX;
            let all_fit = forall|i: int|
                0 <= i < before.traces.len() && (#[trigger] before.traces[i]).trace_id
                    == end.trace_id@ ==> before.traces[i].stored_bytes + bytes <= i64::MAX
                    && before.traces[i].dropped_event_count + end.dropped_event_count <= i64::MAX;
            &&& !number_fits ==> result == Err::<(), StoreError>(StoreError::Overflow)
            &&& number_fits && before.last_event_id == i64::MAX ==> result == Err::<(), StoreError>(
                StoreError::Full,
            )
            &&& number_fits && before.last_event_id < i64::MAX && !all_fit ==> result == Err::<
                (),
                StoreError,
            >(StoreError::Overflow)
            &&& number_fits && before.last_event_id < i64::MAX && all_fit ==> result is Ok
            &&& result is Err ==> final(store)@ == before
        }),
{
    lemma_single(store, batch, outcomes, result);
    let end = batch@[0]->Complete_0;
    let outcome = outcomes@[0];
    let before = old(store)@;
    assert(batch@[0]@ == CommandView::Complete(end@));
    assert(has_trace(before.traces, end@.trace_id));
    lemma_last_sequence(before.events, end@.trace_id);
    lemma_last_is_one(before.events, end@.trace_id);
    let expected = with_step(before, complete_step(end@), None, outcome.event_at);
    if expected is Ok {
        let stepped = expected->Ok_0;
        assert forall|i: int| 0 <= i < before.traces.len() implies (
        #[trigger] stepped.traces[i]).trace_id == before.traces[i].trace_id
            && stepped.traces[i].dropped_event_count == before.traces[i].dropped_event_count by {}
        assert(stepped.traces.len() == before.traces.len());
        if completion_fits(stepped.traces, end@) {
            assert forall|i: int|
                0 <= i < before.traces.len() && (#[trigger] before.traces[i]).trace_id
                    == end.trace_id@ implies before.traces[i].dropped_event_count
                + end.dropped_event_count <= i64::MAX by {
                assert(stepped.traces[i].trace_id == end.trace_id@);
            }
        } else {
            let i = choose|i: int|
                0 <= i < stepped.traces.len() && (#[trigger] stepped.traces[i]).trace_id
                    == end@.trace_id && !fits(
                    stepped.traces[i].dropped_event_count + (end.dropped_event_count as i64),
                );
            assert(before.traces[i].trace_id == end.trace_id@);
        }
    }
}

/// A message that is written with its batch holds the JSON text of its fields, where they have one.
pub proof fn law_messages_are_written_with_their_fields(
    store: &mut LogStore,
    patterns: &RedactionPatterns,
    batch: Vec<WriteCommand>,
    result: Result<(), StoreError>,
)
    requires
        call_ensures(LogStore::write_batch, (store, patterns, &batch), result),
        batch.len() == 1,
        batch@[0] is Runtime,
        result is Ok,
    ensures
        ({
            let input = batch@[0]->Runtime_0;
            let row = final(store)@.runtime_logs.last();
            &&& final(store)@.runtime_logs.len() == old(store)@.runtime_logs.len() + 1
            &&& row.occurred_at == input.occurred_at
            &&& row.level == input.level@
            &&& row.target == input.target@
            &&& row.message == input.message@
            &&& input.fields is None ==> row.fields_json is None
            &&& input.fields matches Some(value) ==> (row.fields_json is Some <==> json_bytes(
                value@,
            ) is Some) && (row.fields_json matches Some(text) ==> text == decode_utf8(
                json_bytes(value@)->0,
            ))
        }),
{
    let commands = commands_view(batch@);
    let outcomes = choose|outcomes: Seq<OutcomeView>| #[trigger]
        outcomes_fit(commands, outcomes) && batch_came_out(
            old(store)@,
            with_commands(old(store)@, commands, outcomes),
            final(store)@,
            result,
        );
    lemma_single_view(old(store)@, commands, outcomes);
    let input = batch@[0]->Runtime_0;
    assert(commands[0] == CommandView::Runtime(input@));
    assert(outcomes[0].at >= 0);
    assert(fields_fit(command_fields(commands[0]), outcomes[0].fields));
}

proof fn lemma_single_view(
    tables: Tables,
    commands: Seq<CommandView>,
    outcomes: Seq<OutcomeView>,
)
    requires
        commands.len() == 1,
        outcomes.len() == 1,
    ensures
        with_commands(tables, commands, outcomes) == with_command(
            tables,
            commands[0],
            outcomes[0],
        ),
{
    reveal_with_fuel(with_commands, 2);
    assert(commands.drop_last().len() == 0);
}

/// A step that is written with its batch holds its payload, redacted, as JSON text: within the
/// limit as it is or as a shorter zstd frame that holds it, with its length and its digest.
pub proof fn law_steps_are_written_with_their_payloads(
    store: &mut LogStore,
    patterns: &RedactionPatterns,
    batch: Vec<WriteCommand>,
    result: Result<(), StoreError>,
)
    requires
        call_ensures(LogStore::write_batch, (store, patterns, &batch), result),
        batch.len() == 1,
        batch@[0] is Event,
        exists|i: int|
            0 <= i < old(store)@.traces.len() && (#[trigger] old(store)@.traces[i]).trace_id
                == batch@[0]->Event_0.trace_id@,
        result is Ok,
    ensures
        ({
            let event = batch@[0]->Event_0;
            let row = final(store)@.events.last();
            let kept = final(store)@.payloads.last();
            &&& final(store)@.events.len() == old(store)@.events.len() + 1
            &&& row.trace_id == event.trace_id@
            &&& row.stage == event.stage@
            &&& row.kind == event.kind@
            &&& row.occurred_at >= 0
            &&& event.payload is None ==> row.payload_id is None && final(store)@.payloads
                == old(store)@.payloads
            &&& event.payload matches Some(value) ==> {
                let text = json_bytes(redacted(value@))->0;
                &&& json_bytes(redacted(value@)) is Some
                &&& row.payload_id == Some(kept.payload_id)
                &&& final(store)@.payloads.len() == old(store)@.payloads.len() + 1
                &&& kept.sha256 == hex(sha256(text))
                &&& kept.truncated == if text.len() > 1_048_576 {
                    1int
                } else {
                    0int
                }
                &&& text.len() <= i64::MAX ==> kept.original_bytes == text.len()
                &&& text.len() <= 4096 ==> kept.encoding == "identity"@ && kept.body == text
                &&& text.len() <= 1_048_576 ==> (kept.encoding == "identity"@ && kept.body == text)
                    || (kept.encoding == "zstd"@ && zstd_decode(kept.body) == Some(text)
                    && kept.body.len() < text.len())
            }
        }),
{
    let commands = commands_view(batch@);
    let outcomes = choose|outcomes: Seq<OutcomeView>| #[trigger]
        outcomes_fit(commands, outcomes) && batch_came_out(
            old(store)@,
            with_commands(old(store)@, commands, outcomes),
            final(store)@,
            result,
        );
    lemma_single_view(old(store)@, commands, outcomes);
    let event = batch@[0]->Event_0;
    assert(commands[0] == CommandView::Event(event@));
    assert(has_trace(old(store)@.traces, event@.trace_id));
    assert(outcomes[0].at >= 0);
    assert(reply_fits(command_payload(commands[0]), outcomes[0].reply));
    if event.payload is Some {
        let value = redacted(event.payload->0@);
        let reply = outcomes[0].reply->0;
        let frame = choose|frame: Option<Seq<u8>>| #[trigger]
            frame_of(value, frame) && reply == encoded(value, frame);
        assert(reply is Some);
    }
}

} // verus!
