//! What stays in the log and what goes, row by row.
use crate::filter_laws::{comes_before, lemma_comes_before};
use crate::maintenance::{
    event_ids, event_stays, in_use, log_ids, log_sizes, logs_since, missing, newest_logs,
    newest_traces, payload_ids, room, texts_view, total, trace_ids, trace_sizes, traces_since,
    trims_logs, trims_traces, with_only, Removed, REQUEST_LOG_LIMIT_BYTES, RETENTION_MILLIS,
    RUNTIME_LOG_LIMIT_BYTES,
};
use crate::maintenance_laws::{
    distinct_logs, law_clearing_everything, law_clearing_messages, law_clearing_requests,
    law_maintenance_drops_the_oldest, law_no_message_goes_needlessly,
    law_no_request_goes_needlessly, lemma_logs_total, lemma_payloads_left, lemma_total_without,
    lemma_traces_total, lemma_trimmed_logs, lemma_trimmed_traces, newest_gone_logs,
    newest_gone_traces, no_loose_payloads,
};
use crate::query::{newer_log, newer_trace};
use crate::records::{optional_text, DiagnosticLogHealth};
use crate::sequences::{lemma_filter_contents, lemma_filter_pairs, lemma_same_contents};
use crate::service::DiagnosticLogService;
use crate::store::StoreError;
use crate::store_laws::{consistent, distinct_traces};
use crate::tables::{EventRow, LogStore, PayloadRow, RuntimeRow, Tables, TraceRow};
use vstd::prelude::*;
use vstd::string::*;
use vstd::utf8::*;

verus! {

/// How many bytes are stored for requests, all together.
pub open spec fn bytes_of_requests(rows: Seq<TraceRow<Seq<char>>>) -> int
    decreases rows.len(),
{
    if rows.len() == 0 {
        0
    } else {
        rows[0].stored_bytes + bytes_of_requests(rows.drop_first())
    }
}

/// How many bytes are stored for messages, all together.
pub open spec fn bytes_of_messages(rows: Seq<RuntimeRow<Seq<char>>>) -> int
    decreases rows.len(),
{
    if rows.len() == 0 {
        0
    } else {
        rows[0].stored_bytes + bytes_of_messages(rows.drop_first())
    }
}

proof fn lemma_bytes_of_requests(rows: Seq<TraceRow<Seq<char>>>)
    ensures
        total(trace_sizes(rows)) == bytes_of_requests(rows),
    decreases rows.len(),
{
    if rows.len() > 0 {
        lemma_total_without(trace_sizes(rows), 0);
        assert(trace_sizes(rows).remove(0) =~= trace_sizes(rows.drop_first()));
        lemma_bytes_of_requests(rows.drop_first());
    }
}

proof fn lemma_bytes_of_messages(rows: Seq<RuntimeRow<Seq<char>>>)
    ensures
        total(log_sizes(rows)) == bytes_of_messages(rows),
    decreases rows.len(),
{
    if rows.len() > 0 {
        lemma_total_without(log_sizes(rows), 0);
        assert(log_sizes(rows).remove(0) =~= log_sizes(rows.drop_first()));
        lemma_bytes_of_messages(rows.drop_first());
    }
}

/// Whether a request stands before another where the newest come first.
pub open spec fn stands_before(one: TraceRow<Seq<char>>, other: TraceRow<Seq<char>>) -> bool {
    one.started_at > other.started_at || (one.started_at == other.started_at && !comes_before(
        encode_utf8(one.trace_id),
        encode_utf8(other.trace_id),
    ))
}

/// Whether a message stands before another where the newest come first.
pub open spec fn message_stands_before(
    one: RuntimeRow<Seq<char>>,
    other: RuntimeRow<Seq<char>>,
) -> bool {
    one.occurred_at > other.occurred_at || (one.occurred_at == other.occurred_at && one.log_id
        >= other.log_id)
}

/// After maintenance no request is left that started more than three days before, and those that
/// are left take no more than 300 MiB. Every other request that started within these three days is
/// left, where all of them take no more than that. Where they take more, none that went is newer
/// than one that is left, and with the newest that went they would still take more.
pub proof fn law_requests_are_kept_three_days(
    store: &mut LogStore,
    now: i64,
    result: Result<(), StoreError>,
)
    requires
        call_ensures(LogStore::maintain_at, (store, now), result),
        consistent(old(store)@),
        result is Ok,
    ensures
        ({
            let (before, after) = (old(store)@.traces, final(store)@.traces);
            let recent = before.filter(
                |row: TraceRow<Seq<char>>| row.started_at >= now - 3 * 24 * 60 * 60 * 1000,
            );
            &&& forall|row: TraceRow<Seq<char>>| #[trigger]
                after.contains(row) ==> before.contains(row) && row.started_at >= now - 3 * 24 * 60
                    * 60 * 1000
            &&& bytes_of_requests(after) <= 300 * 1024 * 1024
            &&& bytes_of_requests(recent) <= 300 * 1024 * 1024 ==> after == recent
            &&& forall|gone: TraceRow<Seq<char>>, row: TraceRow<Seq<char>>|
                #![trigger before.contains(gone), after.contains(row)]
                before.contains(gone) && !after.contains(gone) && after.contains(row)
                    ==> stands_before(row, gone)
            &&& after != recent ==> exists|gone: TraceRow<Seq<char>>| #[trigger]
                recent.contains(gone) && !after.contains(gone) && bytes_of_requests(after)
                    + gone.stored_bytes > 300 * 1024 * 1024 && forall|other: TraceRow<Seq<char>>|
                    #[trigger]
                    recent.contains(other) && !after.contains(other) && other != gone
                        ==> stands_before(gone, other)
        }),
{
    let (before, after) = (old(store)@.traces, final(store)@.traces);
    let cutoff = now - 3 * 24 * 60 * 60 * 1000;
    let keep = |row: TraceRow<Seq<char>>| row.started_at >= cutoff;
    let recent = before.filter(keep);
    assert(cutoff == now as int - RETENTION_MILLIS);
    assert(recent == traces_since(before, now as int - RETENTION_MILLIS));
    assert(trims_traces(recent, Ok(after)));
    lemma_trimmed_traces(recent, after);
    lemma_filter_contents(before, keep);
    lemma_filter_pairs(
        before,
        keep,
        |a: TraceRow<Seq<char>>, b: TraceRow<Seq<char>>| a.trace_id != b.trace_id,
    );
    assert(distinct_traces(recent)) by {
        let differ = |a: TraceRow<Seq<char>>, b: TraceRow<Seq<char>>| a.trace_id != b.trace_id;
        assert forall|i: int, j: int| 0 <= i < j < recent.len() implies (
        #[trigger] recent[i]).trace_id != (#[trigger] recent[j]).trace_id by {
            assert(differ(recent[i], recent[j]));
        }
    }
    lemma_bytes_of_requests(after);
    lemma_bytes_of_requests(recent);
    law_maintenance_drops_the_oldest(old(store)@, now as int, final(store)@);
    assert forall|gone: TraceRow<Seq<char>>, row: TraceRow<Seq<char>>|
        #![trigger before.contains(gone), after.contains(row)]
        before.contains(gone) && !after.contains(gone) && after.contains(row) implies stands_before(
        row,
        gone,
    ) by {
        lemma_stands_before(row, gone);
    }
    if after != recent {
        law_no_request_goes_needlessly(recent, after);
        let gone = choose|gone: TraceRow<Seq<char>>| #[trigger]
            newest_gone_traces(recent, after, gone) && total(trace_sizes(after)) + gone.stored_bytes
                > 300 * 1024 * 1024;
        assert(recent.contains(gone) && !after.contains(gone));
        assert forall|other: TraceRow<Seq<char>>| #[trigger]
            recent.contains(other) && !after.contains(other) && other != gone implies stands_before(
            gone,
            other,
        ) by {
            lemma_stands_before(gone, other);
        }
    }
}

proof fn lemma_stands_before(one: TraceRow<Seq<char>>, other: TraceRow<Seq<char>>)
    ensures
        newer_trace(one, other) == stands_before(one, other),
{
    lemma_comes_before(encode_utf8(other.trace_id), encode_utf8(one.trace_id));
}

/// After maintenance no message is left that occurred more than three days before, and those that
/// are left take no more than 50 MiB. Every other message that occurred within these three days is
/// left, where all of them take no more than that. Where they take more, none that went is newer
/// than one that is left, and with the newest that went they would still take more.
pub proof fn law_messages_are_kept_three_days(
    store: &mut LogStore,
    now: i64,
    result: Result<(), StoreError>,
)
    requires
        call_ensures(LogStore::maintain_at, (store, now), result),
        consistent(old(store)@),
        result is Ok,
    ensures
        ({
            let (before, after) = (old(store)@.runtime_logs, final(store)@.runtime_logs);
            let recent = before.filter(
                |row: RuntimeRow<Seq<char>>| row.occurred_at >= now - 3 * 24 * 60 * 60 * 1000,
            );
            &&& forall|row: RuntimeRow<Seq<char>>| #[trigger]
                after.contains(row) ==> before.contains(row) && row.occurred_at >= now - 3 * 24
                    * 60 * 60 * 1000
            &&& bytes_of_messages(after) <= 50 * 1024 * 1024
            &&& bytes_of_messages(recent) <= 50 * 1024 * 1024 ==> after == recent
            &&& forall|gone: RuntimeRow<Seq<char>>, row: RuntimeRow<Seq<char>>|
                #![trigger before.contains(gone), after.contains(row)]
                before.contains(gone) && !after.contains(gone) && after.contains(row)
                    ==> message_stands_before(row, gone)
            &&& after != recent ==> exists|gone: RuntimeRow<Seq<char>>| #[trigger]
                recent.contains(gone) && !after.contains(gone) && bytes_of_messages(after)
                    + gone.stored_bytes > 50 * 1024 * 1024 && forall|other: RuntimeRow<Seq<char>>|
                    #[trigger]
                    recent.contains(other) && !after.contains(other) && other != gone
                        ==> message_stands_before(gone, other)
        }),
{
    let (before, after) = (old(store)@.runtime_logs, final(store)@.runtime_logs);
    let cutoff = now - 3 * 24 * 60 * 60 * 1000;
    let keep = |row: RuntimeRow<Seq<char>>| row.occurred_at >= cutoff;
    let differ = |a: RuntimeRow<Seq<char>>, b: RuntimeRow<Seq<char>>| a.log_id != b.log_id;
    let recent = before.filter(keep);
    assert(cutoff == now as int - RETENTION_MILLIS);
    assert(recent == logs_since(before, now as int - RETENTION_MILLIS));
    assert(trims_logs(recent, Ok(after)));
    lemma_trimmed_logs(recent, after);
    lemma_filter_contents(before, keep);
    lemma_filter_pairs(before, keep, differ);
    assert(distinct_logs(recent)) by {
        assert forall|i: int, j: int| 0 <= i < j < recent.len() implies (
        #[trigger] recent[i]).log_id != (#[trigger] recent[j]).log_id by {
            assert(differ(recent[i], recent[j]));
        }
    }
    lemma_bytes_of_messages(after);
    lemma_bytes_of_messages(recent);
    law_maintenance_drops_the_oldest(old(store)@, now as int, final(store)@);
    if after != recent {
        law_no_message_goes_needlessly(recent, after);
        let gone = choose|gone: RuntimeRow<Seq<char>>| #[trigger]
            newest_gone_logs(recent, after, gone) && total(log_sizes(after)) + gone.stored_bytes
                > 50 * 1024 * 1024;
        assert(recent.contains(gone) && !after.contains(gone));
        assert forall|other: RuntimeRow<Seq<char>>| #[trigger]
            recent.contains(other) && !after.contains(other)
                && other != gone implies message_stands_before(gone, other) by {
            assert(newer_log(gone, other));
        }
    }
}

/// With a request its steps go, and with the last step that refers to it a payload; no other step
/// and no other payload goes, and which identifiers were given stays known. Where maintenance fails
/// nothing changes.
pub proof fn law_steps_go_with_their_requests(
    store: &mut LogStore,
    now: i64,
    result: Result<(), StoreError>,
)
    requires
        call_ensures(LogStore::maintain_at, (store, now), result),
    ensures
        result is Err ==> final(store)@ == old(store)@ && result == Err::<(), StoreError>(
            StoreError::Overflow,
        ),
        result is Ok ==> goes_with_requests(old(store)@, final(store)@),
{
    if result is Ok {
        lemma_goes_with(old(store)@, final(store)@.traces, final(store)@.runtime_logs);
    } else {
        assert forall|sizes: Seq<i64>, limit: int| #[trigger] room(sizes, limit) is Err implies room(
            sizes,
            limit,
        ) == Err::<nat, StoreError>(StoreError::Overflow) by {
            lemma_no_room(sizes, limit);
        }
    }
}

proof fn lemma_no_room(sizes: Seq<i64>, limit: int)
    requires
        room(sizes, limit) is Err,
    ensures
        room(sizes, limit) == Err::<nat, StoreError>(StoreError::Overflow),
    decreases sizes.len(),
{
    if room(sizes.drop_last(), limit) is Err && sizes.len() > 0 {
        lemma_no_room(sizes.drop_last(), limit);
    }
}

/// Whether of a log the steps and payloads are left that belong to the requests that are left.
pub open spec fn goes_with_requests(before: Tables, after: Tables) -> bool {
    &&& forall|event: EventRow<Seq<char>>| #[trigger]
        after.events.contains(event) <==> before.events.contains(event) && ((exists|i: int|
            0 <= i < after.traces.len() && (#[trigger] after.traces[i]).trace_id == event.trace_id)
            || (forall|i: int|
            0 <= i < before.traces.len() ==> (#[trigger] before.traces[i]).trace_id
                != event.trace_id))
    &&& forall|row: PayloadRow<Seq<char>, Seq<u8>>| #[trigger]
        after.payloads.contains(row) <==> before.payloads.contains(row) && exists|i: int|
            0 <= i < after.events.len() && (#[trigger] after.events[i]).payload_id == Some(
                row.payload_id,
            )
    &&& after.last_event_id == before.last_event_id
    &&& after.last_payload_id == before.last_payload_id
    &&& after.last_log_id == before.last_log_id
}

proof fn lemma_goes_with(
    before: Tables,
    traces: Seq<TraceRow<Seq<char>>>,
    logs: Seq<RuntimeRow<Seq<char>>>,
)
    ensures
        goes_with_requests(before, with_only(before, traces, logs)),
{
    let after = with_only(before, traces, logs);
    lemma_payloads_left(before, traces, logs);
    lemma_filter_contents(
        before.events,
        |event: EventRow<Seq<char>>| event_stays(before.traces, traces, event),
    );
    assert forall|event: EventRow<Seq<char>>| #[trigger]
        after.events.contains(event) <==> before.events.contains(event) && event_stays(
            before.traces,
            traces,
            event,
        ) by {}
    assert forall|row: PayloadRow<Seq<char>, Seq<u8>>| #[trigger]
        after.payloads.contains(row) <==> before.payloads.contains(row) && in_use(
            after.events,
            row.payload_id,
        ) by {}
}

proof fn lemma_room_is_found(sizes: Seq<i64>, limit: int)
    requires
        forall|i: int| 0 <= i < sizes.len() ==> #[trigger] sizes[i] >= 0,
        total(sizes) <= i64::MAX,
    ensures
        total(sizes) >= 0,
        room(sizes, limit) is Ok,
    decreases sizes.len(),
{
    if sizes.len() > 0 {
        let rest = sizes.drop_last();
        assert forall|i: int| 0 <= i < rest.len() implies #[trigger] rest[i] >= 0 by {
            assert(rest[i] == sizes[i]);
        }
        assert(sizes[sizes.len() - 1] >= 0);
        lemma_total_of_none_negative(rest);
        lemma_room_is_found(rest, limit);
    }
}

proof fn lemma_total_of_none_negative(sizes: Seq<i64>)
    requires
        forall|i: int| 0 <= i < sizes.len() ==> #[trigger] sizes[i] >= 0,
    ensures
        total(sizes) >= 0,
    decreases sizes.len(),
{
    if sizes.len() > 0 {
        let rest = sizes.drop_last();
        assert forall|i: int| 0 <= i < rest.len() implies #[trigger] rest[i] >= 0 by {
            assert(rest[i] == sizes[i]);
        }
        assert(sizes[sizes.len() - 1] >= 0);
        lemma_total_of_none_negative(rest);
    }
}

/// Maintenance fails only where the bytes that are stored add up beyond the range of a column, or
/// where a row claims to take less than none.
pub proof fn law_maintenance_succeeds(
    store: &mut LogStore,
    now: i64,
    result: Result<(), StoreError>,
)
    requires
        call_ensures(LogStore::maintain_at, (store, now), result),
        forall|i: int|
            0 <= i < old(store)@.traces.len() ==> (#[trigger] old(store)@.traces[i]).stored_bytes
                >= 0,
        forall|i: int|
            0 <= i < old(store)@.runtime_logs.len() ==> (
            #[trigger] old(store)@.runtime_logs[i]).stored_bytes >= 0,
        bytes_of_requests(
            old(store)@.traces.filter(
                |row: TraceRow<Seq<char>>| row.started_at >= now - 3 * 24 * 60 * 60 * 1000,
            ),
        ) <= i64::MAX,
        bytes_of_messages(
            old(store)@.runtime_logs.filter(
                |row: RuntimeRow<Seq<char>>| row.occurred_at >= now - 3 * 24 * 60 * 60 * 1000,
            ),
        ) <= i64::MAX,
    ensures
        result is Ok,
{
    let before = old(store)@;
    let cutoff = now - 3 * 24 * 60 * 60 * 1000;
    let keep = |row: TraceRow<Seq<char>>| row.started_at >= cutoff;
    let keep_log = |row: RuntimeRow<Seq<char>>| row.occurred_at >= cutoff;
    let recent = before.traces.filter(keep);
    let recent_logs = before.runtime_logs.filter(keep_log);
    assert(recent == traces_since(before.traces, now as int - RETENTION_MILLIS));
    assert(recent_logs == logs_since(before.runtime_logs, now as int - RETENTION_MILLIS));
    lemma_filter_contents(before.traces, keep);
    lemma_filter_contents(before.runtime_logs, keep_log);
    lemma_bytes_of_requests(recent);
    lemma_bytes_of_messages(recent_logs);
    let (traces, logs) = choose|
        traces: Result<Seq<TraceRow<Seq<char>>>, StoreError>,
        logs: Result<Seq<RuntimeRow<Seq<char>>>, StoreError>,
    |
        {
            &&& #[trigger] trims_traces(recent, traces)
            &&& #[trigger] trims_logs(recent_logs, logs)
            &&& match (traces, logs) {
                (Ok(kept_traces), Ok(kept_logs)) => result is Ok,
                (Ok(_), Err(error)) => result == Err::<(), StoreError>(error),
                (Err(error), _) => result == Err::<(), StoreError>(error),
            }
        };
    let ordered = choose|ordered: Seq<TraceRow<Seq<char>>>| #[trigger]
        newest_traces(recent, ordered) && match room(
            trace_sizes(ordered),
            REQUEST_LOG_LIMIT_BYTES as int,
        ) {
            Ok(number) => traces is Ok,
            Err(error) => traces is Err,
        };
    lemma_traces_total(recent, ordered);
    lemma_same_contents(recent, ordered);
    assert forall|i: int| 0 <= i < ordered.len() implies #[trigger] trace_sizes(
        ordered,
    )[i] >= 0 by {
        assert(ordered.contains(ordered[i]));
        assert(before.traces.contains(ordered[i]));
        let at = before.traces.index_of(ordered[i]);
        assert(before.traces[at].stored_bytes >= 0);
    }
    lemma_room_is_found(trace_sizes(ordered), REQUEST_LOG_LIMIT_BYTES as int);
    let ordered_logs = choose|ordered: Seq<RuntimeRow<Seq<char>>>| #[trigger]
        newest_logs(recent_logs, ordered) && match room(
            log_sizes(ordered),
            RUNTIME_LOG_LIMIT_BYTES as int,
        ) {
            Ok(number) => logs is Ok,
            Err(error) => logs is Err,
        };
    lemma_logs_total(recent_logs, ordered_logs);
    lemma_same_contents(recent_logs, ordered_logs);
    assert forall|i: int| 0 <= i < ordered_logs.len() implies #[trigger] log_sizes(
        ordered_logs,
    )[i] >= 0 by {
        assert(ordered_logs.contains(ordered_logs[i]));
        assert(before.runtime_logs.contains(ordered_logs[i]));
        let at = before.runtime_logs.index_of(ordered_logs[i]);
        assert(before.runtime_logs[at].stored_bytes >= 0);
    }
    lemma_room_is_found(log_sizes(ordered_logs), RUNTIME_LOG_LIMIT_BYTES as int);
}

/// The requests, the messages or both may be cleared. With the requests all their steps and
/// payloads go, and the other part of the log stays as it is. Which identifiers were given stays
/// known. There is no other category: an error says so, and nothing changes.
pub proof fn law_categories_that_may_be_cleared(
    service: &DiagnosticLogService,
    log: &mut LogStore,
    kind: &str,
    result: Result<(), String>,
)
    requires
        call_ensures(DiagnosticLogService::clear, (service, log, kind), result),
        consistent(old(log)@),
        no_loose_payloads(old(log)@),
    ensures
        ({
            let (before, after) = (old(log)@, final(log)@);
            let requests = kind@ == "requests"@ || kind@ == "all"@;
            let messages = kind@ == "runtime"@ || kind@ == "all"@;
            &&& result is Ok <==> requests || messages
            &&& requests ==> after.traces.len() == 0 && after.events.len() == 0
                && after.payloads.len() == 0
            &&& !requests ==> after.traces == before.traces && after.events == before.events
                && after.payloads == before.payloads
            &&& messages ==> after.runtime_logs.len() == 0
            &&& !messages ==> after.runtime_logs == before.runtime_logs
            &&& after.last_event_id == before.last_event_id
            &&& after.last_payload_id == before.last_payload_id
            &&& after.last_log_id == before.last_log_id
            &&& result matches Err(error) ==> error@ == "Unsupported diagnostic log category"@
        }),
{
    reveal_strlit("requests");
    reveal_strlit("runtime");
    reveal_strlit("all");
    assert("requests"@.len() == 8 && "runtime"@.len() == 7 && "all"@.len() == 3);
    law_clearing_requests(old(log)@);
    law_clearing_messages(old(log)@);
    law_clearing_everything(old(log)@);
}

/// Health says whether there is an error and which, where the log is stored, that it is kept for
/// three days, how many bytes are stored for requests and for messages, how many its file takes,
/// and how many commands were dropped. Where the log cannot be read, or where a sum is out of
/// range, no bytes are reported.
pub proof fn law_health(
    service: &DiagnosticLogService,
    log: Option<&LogStore>,
    physical_bytes: Option<u64>,
    health: DiagnosticLogHealth,
)
    requires
        call_ensures(DiagnosticLogService::health, (service, log, physical_bytes), health),
    ensures
        health.available == (service@.last_error is None),
        health.error is Some <==> service@.last_error is Some,
        service@.last_error matches Some(error) ==> health.error->0@ == error,
        health.db_path@ == service@.db_path,
        health.retention_days == 3,
        physical_bytes is None ==> health.physical_bytes == 0,
        physical_bytes matches Some(bytes) ==> health.physical_bytes == bytes,
        health.dropped_events == service@.dropped_events,
        log is None ==> health.request_bytes == 0 && health.runtime_bytes == 0,
        log matches Some(store) ==> {
            let requests = bytes_of_requests(store@.traces);
            let messages = bytes_of_messages(store@.runtime_logs);
            let known = i64::MIN <= requests <= i64::MAX && i64::MIN <= messages <= i64::MAX;
            &&& known ==> health.request_bytes == requests && health.runtime_bytes == messages
            &&& !known ==> health.request_bytes == 0 && health.runtime_bytes == 0
        },
{
    assert(health@.error == optional_text(health.error));
    assert(health@.db_path == health.db_path@);
    if log is Some {
        lemma_bytes_of_requests(log->0@.traces);
        lemma_bytes_of_messages(log->0@.runtime_logs);
    }
}

/// What is missing in a log is what the other has and it has not, each identifier in its kind of
/// rows.
pub proof fn law_missing_rows(store: &LogStore, after: &LogStore, removed: Removed, id: i64)
    requires
        call_ensures(LogStore::missing_in, (store, after), removed),
    ensures
        removed.events@.contains(id) <==> (exists|i: int|
            0 <= i < store@.events.len() && (#[trigger] store@.events[i]).event_id == id) && (
        forall|i: int|
            0 <= i < after@.events.len() ==> (#[trigger] after@.events[i]).event_id != id),
        removed.payloads@.contains(id) <==> (exists|i: int|
            0 <= i < store@.payloads.len() && (#[trigger] store@.payloads[i]).payload_id == id) && (
        forall|i: int|
            0 <= i < after@.payloads.len() ==> (#[trigger] after@.payloads[i]).payload_id != id),
        removed.logs@.contains(id) <==> (exists|i: int|
            0 <= i < store@.runtime_logs.len() && (#[trigger] store@.runtime_logs[i]).log_id == id)
            && (forall|i: int|
            0 <= i < after@.runtime_logs.len() ==> (#[trigger] after@.runtime_logs[i]).log_id
                != id),
{
    let (one, two) = (event_ids(store@.events), event_ids(after@.events));
    lemma_missing_ids(one, two, id);
    assert(one.contains(id) <==> exists|i: int|
        0 <= i < store@.events.len() && (#[trigger] store@.events[i]).event_id == id) by {
        if one.contains(id) {
            let i = one.index_of(id);
            assert(store@.events[i].event_id == id);
        }
        if exists|i: int|
            0 <= i < store@.events.len() && (#[trigger] store@.events[i]).event_id == id {
            let i = choose|i: int|
                0 <= i < store@.events.len() && (#[trigger] store@.events[i]).event_id == id;
            assert(one[i] == id);
        }
    }
    assert(!two.contains(id) <==> forall|i: int|
        0 <= i < after@.events.len() ==> (#[trigger] after@.events[i]).event_id != id) by {
        if two.contains(id) {
            let i = two.index_of(id);
            assert(after@.events[i].event_id == id);
        }
        if !two.contains(id) {
            assert forall|i: int| 0 <= i < after@.events.len() implies (
            #[trigger] after@.events[i]).event_id != id by {
                assert(two[i] == after@.events[i].event_id);
            }
        }
    }
    let (three, four) = (payload_ids(store@.payloads), payload_ids(after@.payloads));
    lemma_missing_ids(three, four, id);
    assert(three.contains(id) <==> exists|i: int|
        0 <= i < store@.payloads.len() && (#[trigger] store@.payloads[i]).payload_id == id) by {
        if three.contains(id) {
            let i = three.index_of(id);
            assert(store@.payloads[i].payload_id == id);
        }
        if exists|i: int|
            0 <= i < store@.payloads.len() && (#[trigger] store@.payloads[i]).payload_id == id {
            let i = choose|i: int|
                0 <= i < store@.payloads.len() && (#[trigger] store@.payloads[i]).payload_id == id;
            assert(three[i] == id);
        }
    }
    assert(!four.contains(id) <==> forall|i: int|
        0 <= i < after@.payloads.len() ==> (#[trigger] after@.payloads[i]).payload_id != id) by {
        if four.contains(id) {
            let i = four.index_of(id);
            assert(after@.payloads[i].payload_id == id);
        }
        if !four.contains(id) {
            assert forall|i: int| 0 <= i < after@.payloads.len() implies (
            #[trigger] after@.payloads[i]).payload_id != id by {
                assert(four[i] == after@.payloads[i].payload_id);
            }
        }
    }
    let (five, six) = (log_ids(store@.runtime_logs), log_ids(after@.runtime_logs));
    lemma_missing_ids(five, six, id);
    assert(five.contains(id) <==> exists|i: int|
        0 <= i < store@.runtime_logs.len() && (#[trigger] store@.runtime_logs[i]).log_id == id) by {
        if five.contains(id) {
            let i = five.index_of(id);
            assert(store@.runtime_logs[i].log_id == id);
        }
        if exists|i: int|
            0 <= i < store@.runtime_logs.len() && (#[trigger] store@.runtime_logs[i]).log_id == id {
            let i = choose|i: int|
                0 <= i < store@.runtime_logs.len() && (#[trigger] store@.runtime_logs[i]).log_id
                    == id;
            assert(five[i] == id);
        }
    }
    assert(!six.contains(id) <==> forall|i: int|
        0 <= i < after@.runtime_logs.len() ==> (#[trigger] after@.runtime_logs[i]).log_id
            != id) by {
        if six.contains(id) {
            let i = six.index_of(id);
            assert(after@.runtime_logs[i].log_id == id);
        }
        if !six.contains(id) {
            assert forall|i: int| 0 <= i < after@.runtime_logs.len() implies (
            #[trigger] after@.runtime_logs[i]).log_id != id by {
                assert(six[i] == after@.runtime_logs[i].log_id);
            }
        }
    }
}

proof fn lemma_missing_ids<A>(before: Seq<A>, after: Seq<A>, id: A)
    ensures
        missing(before, after).contains(id) <==> before.contains(id) && !after.contains(id),
{
    lemma_filter_contents(before, |item: A| !after.contains(item));
}

/// The requests that are missing in a log are those that the other has and it has not.
pub proof fn law_missing_requests(
    store: &LogStore,
    after: &LogStore,
    removed: Removed,
    id: Seq<char>,
)
    requires
        call_ensures(LogStore::missing_in, (store, after), removed),
    ensures
        (exists|i: int| 0 <= i < removed.traces.len() && (#[trigger] removed.traces@[i])@ == id)
            <==> (exists|i: int|
            0 <= i < store@.traces.len() && (#[trigger] store@.traces[i]).trace_id == id) && (
        forall|i: int|
            0 <= i < after@.traces.len() ==> (#[trigger] after@.traces[i]).trace_id != id),
{
    let (one, two) = (trace_ids(store@.traces), trace_ids(after@.traces));
    let gone = texts_view(removed.traces@);
    lemma_missing_ids(one, two, id);
    assert(gone.contains(id) <==> exists|i: int|
        0 <= i < removed.traces.len() && (#[trigger] removed.traces@[i])@ == id) by {
        if gone.contains(id) {
            let i = gone.index_of(id);
            assert(removed.traces@[i]@ == id);
        }
        if exists|i: int| 0 <= i < removed.traces.len() && (#[trigger] removed.traces@[i])@ == id {
            let i = choose|i: int|
                0 <= i < removed.traces.len() && (#[trigger] removed.traces@[i])@ == id;
            assert(gone[i] == id);
        }
    }
    assert(one.contains(id) <==> exists|i: int|
        0 <= i < store@.traces.len() && (#[trigger] store@.traces[i]).trace_id == id) by {
        if one.contains(id) {
            let i = one.index_of(id);
            assert(store@.traces[i].trace_id == id);
        }
        if exists|i: int|
            0 <= i < store@.traces.len() && (#[trigger] store@.traces[i]).trace_id == id {
            let i = choose|i: int|
                0 <= i < store@.traces.len() && (#[trigger] store@.traces[i]).trace_id == id;
            assert(one[i] == id);
        }
    }
    assert(!two.contains(id) <==> forall|i: int|
        0 <= i < after@.traces.len() ==> (#[trigger] after@.traces[i]).trace_id != id) by {
        if two.contains(id) {
            let i = two.index_of(id);
            assert(after@.traces[i].trace_id == id);
        }
        if !two.contains(id) {
            assert forall|i: int| 0 <= i < after@.traces.len() implies (
            #[trigger] after@.traces[i]).trace_id != id by {
                assert(two[i] == after@.traces[i].trace_id);
            }
        }
    }
}

} // verus!
