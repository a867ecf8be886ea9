//! What maintenance and clearing promise.
use crate::maintenance::{
    cleared, event_ids, event_stays, in_use, log_ids, log_sizes, logs_since, maintains, missing,
    newest_logs, newest_traces, payload_ids, room, total, trace_ids, trace_sizes, traces_since,
    trims_logs, trims_traces, with_only, REQUEST_LOG_LIMIT_BYTES, RETENTION_MILLIS,
    RUNTIME_LOG_LIMIT_BYTES,
};
use crate::query::{newer_log, newer_trace, payload_of};
use crate::records::WriteCommand;
use crate::sequences::{
    lemma_filter_all, lemma_filter_contents, lemma_filter_none, lemma_filter_pairs,
    lemma_insert_multiset, lemma_map_multiset, lemma_same_contents, lemma_same_no_duplicates,
};
use crate::store::{
    begin_row, begin_step, complete_step, has_trace, with_command, with_commands, with_step,
    with_trace, CommandView, OutcomeView, Reply, StepView, StoreError,
};
use crate::store_laws::{accounted, consistent, distinct_traces, has_payload, trace_bytes};
use crate::tables::{EventRow, PayloadRow, RuntimeRow, Tables, TraceRow};
use crate::write_laws::marked;
use vstd::prelude::*;
use vstd::string::*;

verus! {

/// The sum of numbers does not depend on their order.
proof fn lemma_total_order(one: Seq<i64>, other: Seq<i64>)
    requires
        one.to_multiset() == other.to_multiset(),
    ensures
        total(one) == total(other),
    decreases one.len(),
{
    lemma_same_contents(one, other);
    if one.len() > 0 {
        let item = one.last();
        assert(one.contains(item));
        let at = other.index_of(item);
        let rest = other.remove(at);
        assert(one == one.drop_last().insert(one.len() - 1, item));
        assert(other == rest.insert(at, item));
        lemma_insert_multiset(rest, at, item);
        lemma_insert_multiset(one.drop_last(), one.len() - 1, item);
        assert(one.drop_last().to_multiset() =~= rest.to_multiset()) by {
            assert(one.to_multiset().remove(item) =~= one.drop_last().to_multiset());
            assert(other.to_multiset().remove(item) =~= rest.to_multiset());
        }
        lemma_total_order(one.drop_last(), rest);
        lemma_total_without(other, at);
    }
}

/// A sum is that of the rest and the number left out.
pub proof fn lemma_total_without(sizes: Seq<i64>, at: int)
    requires
        0 <= at < sizes.len(),
    ensures
        total(sizes) == total(sizes.remove(at)) + sizes[at],
    decreases sizes.len(),
{
    if at == sizes.len() - 1 {
        assert(sizes.remove(at) == sizes.drop_last());
    } else {
        lemma_total_without(sizes.drop_last(), at);
        assert(sizes.remove(at).drop_last() == sizes.drop_last().remove(at));
        assert(sizes.remove(at).last() == sizes.last());
    }
}

/// As many stay as there is room for, and with one more they would take more than the limit.
proof fn lemma_room(sizes: Seq<i64>, limit: int)
    requires
        limit >= 0,
        room(sizes, limit) is Ok,
    ensures
        room(sizes, limit)->Ok_0 <= sizes.len(),
        total(sizes.take(room(sizes, limit)->Ok_0 as int)) <= limit,
        total(sizes) <= limit ==> room(sizes, limit)->Ok_0 == sizes.len(),
        room(sizes, limit)->Ok_0 < sizes.len() ==> total(
            sizes.take(room(sizes, limit)->Ok_0 as int + 1),
        ) > limit,
    decreases sizes.len(),
{
    if total(sizes) <= limit || sizes.len() == 0 {
        assert(sizes.take(sizes.len() as int) == sizes);
    } else {
        let rest = sizes.drop_last();
        lemma_room(rest, limit);
        let number = room(rest, limit)->Ok_0 as int;
        assert(rest.take(number) == sizes.take(number));
        if number < rest.len() {
            assert(rest.take(number + 1) == sizes.take(number + 1));
        } else {
            assert(sizes.take(number + 1) == sizes);
        }
    }
}

/// Requests in another order take as many bytes.
pub proof fn lemma_traces_total(rows: Seq<TraceRow<Seq<char>>>, ordered: Seq<TraceRow<Seq<char>>>)
    requires
        newest_traces(rows, ordered),
    ensures
        total(trace_sizes(rows)) == total(trace_sizes(ordered)),
{
    lemma_map_multiset(rows, ordered, |row: TraceRow<Seq<char>>| row.stored_bytes);
    lemma_total_order(trace_sizes(rows), trace_sizes(ordered));
}

/// Messages in another order take as many bytes.
pub proof fn lemma_logs_total(rows: Seq<RuntimeRow<Seq<char>>>, ordered: Seq<RuntimeRow<Seq<char>>>)
    requires
        newest_logs(rows, ordered),
    ensures
        total(log_sizes(rows)) == total(log_sizes(ordered)),
{
    lemma_map_multiset(rows, ordered, |row: RuntimeRow<Seq<char>>| row.stored_bytes);
    lemma_total_order(log_sizes(rows), log_sizes(ordered));
}

/// Of the requests that stay when the log is trimmed, each was there, they take no more than the
/// limit, and none that went is newer than one that stayed.
pub proof fn lemma_trimmed_traces(
    rows: Seq<TraceRow<Seq<char>>>,
    kept: Seq<TraceRow<Seq<char>>>,
)
    requires
        trims_traces(rows, Ok(kept)),
    ensures
        total(trace_sizes(kept)) <= REQUEST_LOG_LIMIT_BYTES,
        forall|row: TraceRow<Seq<char>>| #[trigger] kept.contains(row) ==> rows.contains(row),
        forall|gone: TraceRow<Seq<char>>, row: TraceRow<Seq<char>>|
            #![trigger rows.contains(gone), kept.contains(row)]
            rows.contains(gone) && !kept.contains(gone) && kept.contains(row) ==> newer_trace(
                row,
                gone,
            ),
        distinct_traces(rows) ==> distinct_traces(kept),
        total(trace_sizes(rows)) <= REQUEST_LOG_LIMIT_BYTES ==> kept == rows,
{
    let ordered = choose|ordered: Seq<TraceRow<Seq<char>>>| #[trigger]
        newest_traces(rows, ordered) && match room(
            trace_sizes(ordered),
            REQUEST_LOG_LIMIT_BYTES as int,
        ) {
            Ok(number) => kept == if number == rows.len() {
                rows
            } else {
                ordered.take(number as int)
            },
            Err(error) => false,
        };
    let sizes = trace_sizes(ordered);
    lemma_traces_total(rows, ordered);
    lemma_same_contents(rows, ordered);
    lemma_room(sizes, REQUEST_LOG_LIMIT_BYTES as int);
    let number = room(sizes, REQUEST_LOG_LIMIT_BYTES as int)->Ok_0 as int;
    if number == rows.len() {
        assert(sizes.take(number) == sizes);
    } else {
        assert(sizes.take(number) == trace_sizes(kept));
        assert forall|row: TraceRow<Seq<char>>| #[trigger] kept.contains(row) implies rows.contains(
            row,
        ) by {
            let at = kept.index_of(row);
            assert(ordered[at] == row);
            assert(ordered.contains(row));
        }
        assert forall|gone: TraceRow<Seq<char>>, row: TraceRow<Seq<char>>|
            #![trigger rows.contains(gone), kept.contains(row)]
            rows.contains(gone) && !kept.contains(gone) && kept.contains(row) implies newer_trace(
            row,
            gone,
        ) by {
            assert(ordered.contains(gone));
            let late = ordered.index_of(gone);
            let early = kept.index_of(row);
            if late < number {
                assert(kept[late] == gone);
            }
            assert(newer_trace(ordered[early], ordered[late]));
        }
        if distinct_traces(rows) {
            let ids = rows.map_values(|row: TraceRow<Seq<char>>| row.trace_id);
            let same = ordered.map_values(|row: TraceRow<Seq<char>>| row.trace_id);
            lemma_map_multiset(rows, ordered, |row: TraceRow<Seq<char>>| row.trace_id);
            assert(ids.no_duplicates()) by {
                assert forall|i: int, j: int|
                    0 <= i < ids.len() && 0 <= j < ids.len() && i != j implies ids[i] != ids[j] by {
                    if i < j {
                        assert(rows[i].trace_id != rows[j].trace_id);
                    } else {
                        assert(rows[j].trace_id != rows[i].trace_id);
                    }
                }
            }
            lemma_same_no_duplicates(ids, same);
            assert forall|i: int, j: int| 0 <= i < j < kept.len() implies (
            #[trigger] kept[i]).trace_id != (#[trigger] kept[j]).trace_id by {
                assert(same[i] != same[j]);
            }
        }
    }
}

/// Of the messages that stay when the log is trimmed, each was there, they take no more than the
/// limit, and none that went is newer than one that stayed.
pub proof fn lemma_trimmed_logs(rows: Seq<RuntimeRow<Seq<char>>>, kept: Seq<RuntimeRow<Seq<char>>>)
    requires
        trims_logs(rows, Ok(kept)),
    ensures
        total(log_sizes(kept)) <= RUNTIME_LOG_LIMIT_BYTES,
        forall|row: RuntimeRow<Seq<char>>| #[trigger] kept.contains(row) ==> rows.contains(row),
        forall|gone: RuntimeRow<Seq<char>>, row: RuntimeRow<Seq<char>>|
            #![trigger rows.contains(gone), kept.contains(row)]
            rows.contains(gone) && !kept.contains(gone) && kept.contains(row) ==> newer_log(
                row,
                gone,
            ),
        distinct_logs(rows) ==> distinct_logs(kept),
        total(log_sizes(rows)) <= RUNTIME_LOG_LIMIT_BYTES ==> kept == rows,
{
    let ordered = choose|ordered: Seq<RuntimeRow<Seq<char>>>| #[trigger]
        newest_logs(rows, ordered) && match room(
            log_sizes(ordered),
            RUNTIME_LOG_LIMIT_BYTES as int,
        ) {
            Ok(number) => kept == if number == rows.len() {
                rows
            } else {
                ordered.take(number as int)
            },
            Err(error) => false,
        };
    let sizes = log_sizes(ordered);
    lemma_logs_total(rows, ordered);
    lemma_same_contents(rows, ordered);
    lemma_room(sizes, RUNTIME_LOG_LIMIT_BYTES as int);
    let number = room(sizes, RUNTIME_LOG_LIMIT_BYTES as int)->Ok_0 as int;
    if number == rows.len() {
        assert(sizes.take(number) == sizes);
    } else {
        assert(sizes.take(number) == log_sizes(kept));
        assert forall|row: RuntimeRow<Seq<char>>| #[trigger] kept.contains(
            row,
        ) implies rows.contains(row) by {
            let at = kept.index_of(row);
            assert(ordered[at] == row);
            assert(ordered.contains(row));
        }
        assert forall|gone: RuntimeRow<Seq<char>>, row: RuntimeRow<Seq<char>>|
            #![trigger rows.contains(gone), kept.contains(row)]
            rows.contains(gone) && !kept.contains(gone) && kept.contains(row) implies newer_log(
            row,
            gone,
        ) by {
            assert(ordered.contains(gone));
            let late = ordered.index_of(gone);
            let early = kept.index_of(row);
            if late < number {
                assert(kept[late] == gone);
            }
            assert(newer_log(ordered[early], ordered[late]));
        }
        if distinct_logs(rows) {
            let ids = rows.map_values(|row: RuntimeRow<Seq<char>>| row.log_id);
            let same = ordered.map_values(|row: RuntimeRow<Seq<char>>| row.log_id);
            lemma_map_multiset(rows, ordered, |row: RuntimeRow<Seq<char>>| row.log_id);
            assert(ids.no_duplicates()) by {
                assert forall|i: int, j: int|
                    0 <= i < ids.len() && 0 <= j < ids.len() && i != j implies ids[i] != ids[j] by {
                    if i < j {
                        assert(rows[i].log_id != rows[j].log_id);
                    } else {
                        assert(rows[j].log_id != rows[i].log_id);
                    }
                }
            }
            lemma_same_no_duplicates(ids, same);
            assert forall|i: int, j: int| 0 <= i < j < kept.len() implies (
            #[trigger] kept[i]).log_id != (#[trigger] kept[j]).log_id by {
                assert(same[i] != same[j]);
            }
        }
    }
}

/// Whether no two messages have the same identifier.
pub open spec fn distinct_logs(logs: Seq<RuntimeRow<Seq<char>>>) -> bool {
    forall|i: int, j: int|
        0 <= i < j < logs.len() ==> (#[trigger] logs[i]).log_id != (#[trigger] logs[j]).log_id
}

/// Whether this is the newest of the requests that went.
pub open spec fn newest_gone_traces(
    rows: Seq<TraceRow<Seq<char>>>,
    kept: Seq<TraceRow<Seq<char>>>,
    gone: TraceRow<Seq<char>>,
) -> bool {
    &&& rows.contains(gone)
    &&& !kept.contains(gone)
    &&& forall|other: TraceRow<Seq<char>>| #[trigger]
        rows.contains(other) && !kept.contains(other) && other != gone ==> newer_trace(gone, other)
}

/// Where the log is trimmed, no request goes that did not have to: with the newest of those that
/// went, the rest would take more than the limit.
pub proof fn law_no_request_goes_needlessly(
    rows: Seq<TraceRow<Seq<char>>>,
    kept: Seq<TraceRow<Seq<char>>>,
)
    requires
        distinct_traces(rows),
        trims_traces(rows, Ok(kept)),
        kept != rows,
    ensures
        exists|gone: TraceRow<Seq<char>>| #[trigger]
            newest_gone_traces(rows, kept, gone) && total(trace_sizes(kept)) + gone.stored_bytes
                > REQUEST_LOG_LIMIT_BYTES,
{
    let ordered = choose|ordered: Seq<TraceRow<Seq<char>>>| #[trigger]
        newest_traces(rows, ordered) && match room(
            trace_sizes(ordered),
            REQUEST_LOG_LIMIT_BYTES as int,
        ) {
            Ok(number) => kept == if number == rows.len() {
                rows
            } else {
                ordered.take(number as int)
            },
            Err(error) => false,
        };
    let sizes = trace_sizes(ordered);
    lemma_same_contents(rows, ordered);
    lemma_room(sizes, REQUEST_LOG_LIMIT_BYTES as int);
    let number = room(sizes, REQUEST_LOG_LIMIT_BYTES as int)->Ok_0 as int;
    let gone = ordered[number];
    let ids = rows.map_values(|row: TraceRow<Seq<char>>| row.trace_id);
    let same = ordered.map_values(|row: TraceRow<Seq<char>>| row.trace_id);
    lemma_map_multiset(rows, ordered, |row: TraceRow<Seq<char>>| row.trace_id);
    assert(ids.no_duplicates()) by {
        assert forall|i: int, j: int|
            0 <= i < ids.len() && 0 <= j < ids.len() && i != j implies ids[i] != ids[j] by {
            if i < j {
                assert(rows[i].trace_id != rows[j].trace_id);
            } else {
                assert(rows[j].trace_id != rows[i].trace_id);
            }
        }
    }
    lemma_same_no_duplicates(ids, same);
    assert(sizes.take(number + 1).drop_last() == trace_sizes(kept));
    assert(ordered.contains(gone));
    if kept.contains(gone) {
        let at = kept.index_of(gone);
        assert(same[at] == same[number]);
    }
    assert forall|other: TraceRow<Seq<char>>| #[trigger]
        rows.contains(other) && !kept.contains(other) && other != gone implies newer_trace(
        gone,
        other,
    ) by {
        assert(ordered.contains(other));
        let at = ordered.index_of(other);
        if at < number {
            assert(kept[at] == other);
        }
        assert(newer_trace(ordered[number], ordered[at]));
    }
    assert(newest_gone_traces(rows, kept, gone));
}

/// Whether this is the newest of the messages that went.
pub open spec fn newest_gone_logs(
    rows: Seq<RuntimeRow<Seq<char>>>,
    kept: Seq<RuntimeRow<Seq<char>>>,
    gone: RuntimeRow<Seq<char>>,
) -> bool {
    &&& rows.contains(gone)
    &&& !kept.contains(gone)
    &&& forall|other: RuntimeRow<Seq<char>>| #[trigger]
        rows.contains(other) && !kept.contains(other) && other != gone ==> newer_log(gone, other)
}

/// Where the log is trimmed, no message goes that did not have to: with the newest of those that
/// went, the rest would take more than the limit.
pub proof fn law_no_message_goes_needlessly(
    rows: Seq<RuntimeRow<Seq<char>>>,
    kept: Seq<RuntimeRow<Seq<char>>>,
)
    requires
        distinct_logs(rows),
        trims_logs(rows, Ok(kept)),
        kept != rows,
    ensures
        exists|gone: RuntimeRow<Seq<char>>| #[trigger]
            newest_gone_logs(rows, kept, gone) && total(log_sizes(kept)) + gone.stored_bytes
                > RUNTIME_LOG_LIMIT_BYTES,
{
    let ordered = choose|ordered: Seq<RuntimeRow<Seq<char>>>| #[trigger]
        newest_logs(rows, ordered) && match room(
            log_sizes(ordered),
            RUNTIME_LOG_LIMIT_BYTES as int,
        ) {
            Ok(number) => kept == if number == rows.len() {
                rows
            } else {
                ordered.take(number as int)
            },
            Err(error) => false,
        };
    let sizes = log_sizes(ordered);
    lemma_same_contents(rows, ordered);
    lemma_room(sizes, RUNTIME_LOG_LIMIT_BYTES as int);
    let number = room(sizes, RUNTIME_LOG_LIMIT_BYTES as int)->Ok_0 as int;
    let gone = ordered[number];
    let ids = rows.map_values(|row: RuntimeRow<Seq<char>>| row.log_id);
    let same = ordered.map_values(|row: RuntimeRow<Seq<char>>| row.log_id);
    lemma_map_multiset(rows, ordered, |row: RuntimeRow<Seq<char>>| row.log_id);
    assert(ids.no_duplicates()) by {
        assert forall|i: int, j: int|
            0 <= i < ids.len() && 0 <= j < ids.len() && i != j implies ids[i] != ids[j] by {
            if i < j {
                assert(rows[i].log_id != rows[j].log_id);
            } else {
                assert(rows[j].log_id != rows[i].log_id);
            }
        }
    }
    lemma_same_no_duplicates(ids, same);
    assert(sizes.take(number + 1).drop_last() == log_sizes(kept));
    assert(ordered.contains(gone));
    if kept.contains(gone) {
        let at = kept.index_of(gone);
        assert(same[at] == same[number]);
    }
    assert forall|other: RuntimeRow<Seq<char>>| #[trigger]
        rows.contains(other) && !kept.contains(other) && other != gone implies newer_log(
        gone,
        other,
    ) by {
        assert(ordered.contains(other));
        let at = ordered.index_of(other);
        if at < number {
            assert(kept[at] == other);
        }
        assert(newer_log(ordered[number], ordered[at]));
    }
    assert(newest_gone_logs(rows, kept, gone));
}

/// After maintenance nothing is left that is older than the time it is kept for, and what is
/// left takes no more than the limits.
pub proof fn law_maintenance_bounds_the_log(before: Tables, now: int, after: Tables)
    requires
        maintains(before, now, after, Ok(())),
    ensures
        forall|i: int|
            0 <= i < after.traces.len() ==> (#[trigger] after.traces[i]).started_at >= now
                - RETENTION_MILLIS,
        forall|i: int|
            0 <= i < after.runtime_logs.len() ==> (#[trigger] after.runtime_logs[i]).occurred_at
                >= now - RETENTION_MILLIS,
        total(trace_sizes(after.traces)) <= REQUEST_LOG_LIMIT_BYTES,
        total(log_sizes(after.runtime_logs)) <= RUNTIME_LOG_LIMIT_BYTES,
{
    let cutoff = now - RETENTION_MILLIS;
    let recent = traces_since(before.traces, cutoff);
    let recent_logs = logs_since(before.runtime_logs, cutoff);
    lemma_trimmed_traces(recent, after.traces);
    lemma_trimmed_logs(recent_logs, after.runtime_logs);
    lemma_filter_contents(before.traces, |row: TraceRow<Seq<char>>| row.started_at >= cutoff);
    lemma_filter_contents(
        before.runtime_logs,
        |row: RuntimeRow<Seq<char>>| row.occurred_at >= cutoff,
    );
    assert forall|i: int| 0 <= i < after.traces.len() implies (
    #[trigger] after.traces[i]).started_at >= cutoff by {
        assert(after.traces.contains(after.traces[i]));
        assert(recent.contains(after.traces[i]));
    }
    assert forall|i: int| 0 <= i < after.runtime_logs.len() implies (
    #[trigger] after.runtime_logs[i]).occurred_at >= cutoff by {
        assert(after.runtime_logs.contains(after.runtime_logs[i]));
        assert(recent_logs.contains(after.runtime_logs[i]));
    }
}

/// Maintenance changes nothing that it leaves, and of what is still kept for its age it drops
/// the oldest: nothing that went is newer than what stayed.
pub proof fn law_maintenance_drops_the_oldest(before: Tables, now: int, after: Tables)
    requires
        maintains(before, now, after, Ok(())),
    ensures
        forall|row: TraceRow<Seq<char>>| #[trigger]
            after.traces.contains(row) ==> before.traces.contains(row),
        forall|row: RuntimeRow<Seq<char>>| #[trigger]
            after.runtime_logs.contains(row) ==> before.runtime_logs.contains(row),
        forall|gone: TraceRow<Seq<char>>, row: TraceRow<Seq<char>>|
            #![trigger before.traces.contains(gone), after.traces.contains(row)]
            before.traces.contains(gone) && !after.traces.contains(gone) && after.traces.contains(
                row,
            ) ==> newer_trace(row, gone),
        forall|gone: RuntimeRow<Seq<char>>, row: RuntimeRow<Seq<char>>|
            #![trigger before.runtime_logs.contains(gone), after.runtime_logs.contains(row)]
            before.runtime_logs.contains(gone) && !after.runtime_logs.contains(gone)
                && after.runtime_logs.contains(row) ==> newer_log(row, gone),
{
    let cutoff = now - RETENTION_MILLIS;
    let recent = traces_since(before.traces, cutoff);
    let recent_logs = logs_since(before.runtime_logs, cutoff);
    lemma_trimmed_traces(recent, after.traces);
    lemma_trimmed_logs(recent_logs, after.runtime_logs);
    lemma_filter_contents(before.traces, |row: TraceRow<Seq<char>>| row.started_at >= cutoff);
    lemma_filter_contents(
        before.runtime_logs,
        |row: RuntimeRow<Seq<char>>| row.occurred_at >= cutoff,
    );
    assert forall|gone: TraceRow<Seq<char>>, row: TraceRow<Seq<char>>|
        #![trigger before.traces.contains(gone), after.traces.contains(row)]
        before.traces.contains(gone) && !after.traces.contains(gone) && after.traces.contains(
            row,
        ) implies newer_trace(row, gone) by {
        assert(recent.contains(row));
        assert(recent.contains(gone) == (gone.started_at >= cutoff));
    }
    assert forall|gone: RuntimeRow<Seq<char>>, row: RuntimeRow<Seq<char>>|
        #![trigger before.runtime_logs.contains(gone), after.runtime_logs.contains(row)]
        before.runtime_logs.contains(gone) && !after.runtime_logs.contains(gone)
            && after.runtime_logs.contains(row) implies newer_log(row, gone) by {
        assert(recent_logs.contains(row));
        assert(recent_logs.contains(gone) == (gone.occurred_at >= cutoff));
    }
}

/// Whether a step refers to every payload.
pub open spec fn no_loose_payloads(tables: Tables) -> bool {
    forall|i: int|
        0 <= i < tables.payloads.len() ==> in_use(
            tables.events,
            (#[trigger] tables.payloads[i]).payload_id,
        )
}

/// Whatever is dropped, no payload is left that no step refers to, and each one that a step
/// refers to stays.
pub proof fn lemma_payloads_left(
    tables: Tables,
    traces: Seq<TraceRow<Seq<char>>>,
    logs: Seq<RuntimeRow<Seq<char>>>,
)
    ensures
        no_loose_payloads(with_only(tables, traces, logs)),
        forall|row: PayloadRow<Seq<char>, Seq<u8>>| #[trigger]
            with_only(tables, traces, logs).payloads.contains(row) <==> tables.payloads.contains(
                row,
            ) && in_use(with_only(tables, traces, logs).events, row.payload_id),
{
    let after = with_only(tables, traces, logs);
    lemma_filter_contents(
        tables.payloads,
        |row: PayloadRow<Seq<char>, Seq<u8>>| in_use(after.events, row.payload_id),
    );
    assert forall|i: int| 0 <= i < after.payloads.len() implies in_use(
        after.events,
        (#[trigger] after.payloads[i]).payload_id,
    ) by {
        assert(after.payloads.contains(after.payloads[i]));
    }
}

/// After maintenance no payload is left that no step refers to.
pub proof fn law_maintenance_leaves_no_loose_payload(before: Tables, now: int, after: Tables)
    requires
        maintains(before, now, after, Ok(())),
    ensures
        no_loose_payloads(after),
{
    lemma_payloads_left(before, after.traces, after.runtime_logs);
}

/// A log is consistent with only some of its requests and messages left.
proof fn lemma_with_only_keeps(
    tables: Tables,
    traces: Seq<TraceRow<Seq<char>>>,
    logs: Seq<RuntimeRow<Seq<char>>>,
)
    requires
        consistent(tables),
        distinct_traces(traces),
        distinct_logs(logs),
        forall|row: RuntimeRow<Seq<char>>| #[trigger]
            logs.contains(row) ==> tables.runtime_logs.contains(row),
    ensures
        consistent(with_only(tables, traces, logs)),
{
    let after = with_only(tables, traces, logs);
    let keep = |event: EventRow<Seq<char>>| event_stays(tables.traces, traces, event);
    lemma_filter_contents(tables.events, keep);
    lemma_payloads_left(tables, traces, logs);
    assert forall|i: int|
        #![trigger after.events[i]]
        0 <= i < after.events.len() implies {
            let event = after.events[i];
            &&& has_trace(after.traces, event.trace_id)
            &&& event.payload_id matches Some(id) ==> has_payload(after.payloads, id)
            &&& event.event_id <= after.last_event_id
        } by {
        let event = after.events[i];
        assert(after.events.contains(event));
        let at = tables.events.index_of(event);
        assert(tables.events[at] == event);
        assert(has_trace(tables.traces, event.trace_id));
        if event.payload_id is Some {
            let id = event.payload_id->0;
            let k = choose|k: int|
                0 <= k < tables.payloads.len() && (#[trigger] tables.payloads[k]).payload_id == id;
            let row = tables.payloads[k];
            assert(in_use(after.events, id));
            assert(tables.payloads.contains(row));
            assert(after.payloads.contains(row));
            let found = after.payloads.index_of(row);
            assert(after.payloads[found].payload_id == id);
        }
    }
    lemma_filter_pairs(
        tables.events,
        keep,
        |one: EventRow<Seq<char>>, other: EventRow<Seq<char>>|
            one.event_id < other.event_id && (one.trace_id == other.trace_id ==> one.sequence
                < other.sequence),
    );
    lemma_filter_pairs(
        tables.payloads,
        |row: PayloadRow<Seq<char>, Seq<u8>>| in_use(after.events, row.payload_id),
        |one: PayloadRow<Seq<char>, Seq<u8>>, other: PayloadRow<Seq<char>, Seq<u8>>|
            one.payload_id < other.payload_id,
    );
    assert forall|i: int| 0 <= i < after.payloads.len() implies (
    #[trigger] after.payloads[i]).payload_id <= after.last_payload_id
        && after.payloads[i].stored_bytes == after.payloads[i].body.len() as i64 by {
        assert(after.payloads.contains(after.payloads[i]));
        let at = tables.payloads.index_of(after.payloads[i]);
        assert(tables.payloads[at] == after.payloads[i]);
    }
    assert forall|i: int| 0 <= i < after.runtime_logs.len() implies (
    #[trigger] after.runtime_logs[i]).log_id <= after.last_log_id by {
        assert(logs.contains(logs[i]));
        let at = tables.runtime_logs.index_of(logs[i]);
        assert(tables.runtime_logs[at] == logs[i]);
    }
}

/// Requests among which nothing comes twice stay so when only some of them do.
proof fn lemma_recent_distinct(tables: Tables, cutoff: int)
    requires
        consistent(tables),
    ensures
        distinct_traces(traces_since(tables.traces, cutoff)),
        distinct_logs(logs_since(tables.runtime_logs, cutoff)),
{
    lemma_filter_pairs(
        tables.traces,
        |row: TraceRow<Seq<char>>| row.started_at >= cutoff,
        |one: TraceRow<Seq<char>>, other: TraceRow<Seq<char>>| one.trace_id != other.trace_id,
    );
    lemma_filter_pairs(
        tables.runtime_logs,
        |row: RuntimeRow<Seq<char>>| row.occurred_at >= cutoff,
        |one: RuntimeRow<Seq<char>>, other: RuntimeRow<Seq<char>>| one.log_id != other.log_id,
    );
}

/// Maintenance leaves a consistent log consistent.
pub proof fn law_maintenance_keeps_consistency(
    before: Tables,
    now: int,
    after: Tables,
    result: Result<(), StoreError>,
)
    requires
        consistent(before),
        maintains(before, now, after, result),
    ensures
        consistent(after),
{
    if result is Ok {
        let cutoff = now - RETENTION_MILLIS;
        lemma_recent_distinct(before, cutoff);
        lemma_trimmed_traces(traces_since(before.traces, cutoff), after.traces);
        lemma_trimmed_logs(logs_since(before.runtime_logs, cutoff), after.runtime_logs);
        law_maintenance_drops_the_oldest(before, now, after);
        lemma_with_only_keeps(before, after.traces, after.runtime_logs);
    }
}

/// The first payload of an identifier is the same where only others were dropped.
proof fn lemma_payload_stays(
    payloads: Seq<PayloadRow<Seq<char>, Seq<u8>>>,
    keep: spec_fn(PayloadRow<Seq<char>, Seq<u8>>) -> bool,
    id: i64,
)
    requires
        forall|row: PayloadRow<Seq<char>, Seq<u8>>|
            row.payload_id == id ==> #[trigger] keep(row),
    ensures
        payload_of(payloads.filter(keep), Some(id)) == payload_of(payloads, Some(id)),
    decreases payloads.len(),
{
    reveal(Seq::filter);
    if payloads.len() > 0 {
        let first = seq![payloads[0]];
        let rest = payloads.drop_first();
        assert(payloads == first + rest);
        Seq::filter_distributes_over_add(first, rest, keep);
        lemma_payload_stays(rest, keep, id);
        assert(first.drop_last() == Seq::<PayloadRow<Seq<char>, Seq<u8>>>::empty());
        if keep(payloads[0]) {
            lemma_filter_all(first, keep);
            assert(payloads.filter(keep)[0] == payloads[0]);
            assert(payloads.filter(keep).drop_first() =~= rest.filter(keep));
        } else {
            lemma_filter_none(first, keep);
            assert(payloads.filter(keep) =~= rest.filter(keep));
        }
    }
}

/// The steps of a request take as many bytes where only others were dropped.
proof fn lemma_bytes_stay(
    events: Seq<EventRow<Seq<char>>>,
    keep: spec_fn(EventRow<Seq<char>>) -> bool,
    payloads: Seq<PayloadRow<Seq<char>, Seq<u8>>>,
    fewer: Seq<PayloadRow<Seq<char>, Seq<u8>>>,
    id: Seq<char>,
)
    requires
        forall|event: EventRow<Seq<char>>| event.trace_id == id ==> #[trigger] keep(event),
        forall|i: int|
            0 <= i < events.len() && (#[trigger] events[i]).trace_id == id ==> payload_of(
                fewer,
                events[i].payload_id,
            ) == payload_of(payloads, events[i].payload_id),
    ensures
        trace_bytes(events.filter(keep), fewer, id) == trace_bytes(events, payloads, id),
    decreases events.len(),
{
    reveal(Seq::filter);
    if events.len() > 0 {
        let before = events.drop_last();
        let last = events.last();
        assert forall|i: int|
            0 <= i < before.len() && (#[trigger] before[i]).trace_id == id implies payload_of(
            fewer,
            before[i].payload_id,
        ) == payload_of(payloads, before[i].payload_id) by {
            assert(before[i] == events[i]);
        }
        lemma_bytes_stay(before, keep, payloads, fewer, id);
        assert(events == before.push(last));
        assert(events[events.len() - 1] == last);
        before.lemma_filter_push(last, keep);
        if keep(last) {
            assert(events.filter(keep).drop_last() == before.filter(keep));
            assert(events.filter(keep).last() == last);
        }
    }
}

/// The bytes stored for the requests that are left are still those that their steps take.
proof fn lemma_with_only_accounted(
    tables: Tables,
    traces: Seq<TraceRow<Seq<char>>>,
    logs: Seq<RuntimeRow<Seq<char>>>,
)
    requires
        accounted(tables),
        forall|row: TraceRow<Seq<char>>| #[trigger]
            traces.contains(row) ==> tables.traces.contains(row),
    ensures
        accounted(with_only(tables, traces, logs)),
{
    let after = with_only(tables, traces, logs);
    let keep = |event: EventRow<Seq<char>>| event_stays(tables.traces, traces, event);
    let used = |row: PayloadRow<Seq<char>, Seq<u8>>| in_use(after.events, row.payload_id);
    lemma_filter_contents(tables.events, keep);
    assert forall|k: int| 0 <= k < after.traces.len() implies (
    #[trigger] after.traces[k]).stored_bytes == trace_bytes(
        after.events,
        after.payloads,
        after.traces[k].trace_id,
    ) by {
        let row = after.traces[k];
        let id = row.trace_id;
        assert(traces.contains(row));
        let at = tables.traces.index_of(row);
        assert(tables.traces[at] == row);
        assert(has_trace(traces, id));
        assert forall|i: int|
            0 <= i < tables.events.len() && (#[trigger] tables.events[i]).trace_id
                == id implies payload_of(after.payloads, tables.events[i].payload_id) == payload_of(
            tables.payloads,
            tables.events[i].payload_id,
        ) by {
            let event = tables.events[i];
            if event.payload_id is Some {
                assert(tables.events.contains(event) && keep(event));
                assert(after.events.contains(event));
                let found = after.events.index_of(event);
                assert(after.events[found].payload_id == event.payload_id);
                assert(in_use(after.events, event.payload_id->0));
                lemma_payload_stays(tables.payloads, used, event.payload_id->0);
            }
        }
        lemma_bytes_stay(tables.events, keep, tables.payloads, after.payloads, id);
    }
}

/// The bytes stored for a request stay those that its steps take when maintenance is done.
pub proof fn law_maintenance_keeps_accounts(
    before: Tables,
    now: int,
    after: Tables,
    result: Result<(), StoreError>,
)
    requires
        accounted(before),
        maintains(before, now, after, result),
    ensures
        accounted(after),
{
    if result is Ok {
        law_maintenance_drops_the_oldest(before, now, after);
        lemma_with_only_accounted(before, after.traces, after.runtime_logs);
    }
}

/// All steps and payloads stay where all requests do and no payload is loose.
proof fn lemma_with_all(tables: Tables, logs: Seq<RuntimeRow<Seq<char>>>)
    requires
        no_loose_payloads(tables),
    ensures
        with_only(tables, tables.traces, logs) == (Tables { runtime_logs: logs, ..tables }),
{
    let keep = |event: EventRow<Seq<char>>| event_stays(tables.traces, tables.traces, event);
    lemma_filter_all(tables.events, keep);
    lemma_filter_all(
        tables.payloads,
        |row: PayloadRow<Seq<char>, Seq<u8>>| in_use(tables.events, row.payload_id),
    );
}

/// Maintenance changes nothing where nothing is too old, nothing takes more than its limit and
/// no payload is loose.
pub proof fn law_idle_maintenance_changes_nothing(
    before: Tables,
    now: int,
    after: Tables,
    result: Result<(), StoreError>,
)
    requires
        forall|i: int|
            0 <= i < before.traces.len() ==> (#[trigger] before.traces[i]).started_at >= now
                - RETENTION_MILLIS,
        forall|i: int|
            0 <= i < before.runtime_logs.len() ==> (#[trigger] before.runtime_logs[i]).occurred_at
                >= now - RETENTION_MILLIS,
        i64::MIN <= total(trace_sizes(before.traces)) <= REQUEST_LOG_LIMIT_BYTES,
        i64::MIN <= total(log_sizes(before.runtime_logs)) <= RUNTIME_LOG_LIMIT_BYTES,
        no_loose_payloads(before),
        maintains(before, now, after, result),
    ensures
        result is Ok,
        after == before,
{
    let cutoff = now - RETENTION_MILLIS;
    lemma_filter_all(before.traces, |row: TraceRow<Seq<char>>| row.started_at >= cutoff);
    lemma_filter_all(before.runtime_logs, |row: RuntimeRow<Seq<char>>| row.occurred_at >= cutoff);
    let (traces, logs) = choose|
        traces: Result<Seq<TraceRow<Seq<char>>>, StoreError>,
        logs: Result<Seq<RuntimeRow<Seq<char>>>, StoreError>,
    |
        {
            &&& #[trigger] trims_traces(
                traces_since(before.traces, now - RETENTION_MILLIS),
                traces,
            )
            &&& #[trigger] trims_logs(logs_since(before.runtime_logs, now - RETENTION_MILLIS), logs)
            &&& match (traces, logs) {
                (Ok(kept_traces), Ok(kept_logs)) => result is Ok && after == with_only(
                    before,
                    kept_traces,
                    kept_logs,
                ),
                (Ok(_), Err(error)) => result == Err::<(), StoreError>(error) && after == before,
                (Err(error), _) => result == Err::<(), StoreError>(error) && after == before,
            }
        };
    assert(traces is Ok) by {
        let ordered = choose|ordered: Seq<TraceRow<Seq<char>>>| #[trigger]
            newest_traces(before.traces, ordered) && match room(
                trace_sizes(ordered),
                    REQUEST_LOG_LIMIT_BYTES as int,
            ) {
                Ok(number) => traces is Ok,
                Err(error) => traces is Err,
            };
        lemma_traces_total(before.traces, ordered);
    }
    assert(logs is Ok) by {
        let ordered = choose|ordered: Seq<RuntimeRow<Seq<char>>>| #[trigger]
            newest_logs(before.runtime_logs, ordered) && match room(
                log_sizes(ordered),
                    RUNTIME_LOG_LIMIT_BYTES as int,
            ) {
                Ok(number) => logs is Ok,
                Err(error) => logs is Err,
            };
        lemma_logs_total(before.runtime_logs, ordered);
    }
    lemma_trimmed_traces(before.traces, traces->Ok_0);
    lemma_trimmed_logs(before.runtime_logs, logs->Ok_0);
    lemma_with_all(before, before.runtime_logs);
}

/// Clearing the requests leaves no request, step or payload, and all messages.
pub proof fn law_clearing_requests(tables: Tables)
    requires
        consistent(tables),
    ensures
        cleared(tables, "requests"@) == Some(
            Tables {
                traces: Seq::empty(),
                events: Seq::empty(),
                payloads: Seq::empty(),
                ..tables
            },
        ),
{
    lemma_without_requests(tables, tables.runtime_logs);
}

/// Without requests there are no steps and no payloads.
proof fn lemma_without_requests(tables: Tables, logs: Seq<RuntimeRow<Seq<char>>>)
    requires
        consistent(tables),
    ensures
        with_only(tables, Seq::empty(), logs) == (Tables {
            traces: Seq::empty(),
            events: Seq::empty(),
            payloads: Seq::empty(),
            runtime_logs: logs,
            ..tables
        }),
{
    let none = Seq::<TraceRow<Seq<char>>>::empty();
    let keep = |event: EventRow<Seq<char>>| event_stays(tables.traces, none, event);
    assert forall|i: int| 0 <= i < tables.events.len() implies !keep(
        #[trigger] tables.events[i],
    ) by {
        assert(has_trace(tables.traces, tables.events[i].trace_id));
    }
    lemma_filter_none(tables.events, keep);
    let events = tables.events.filter(keep);
    assert forall|i: int| 0 <= i < tables.payloads.len() implies !in_use(
        events,
        (#[trigger] tables.payloads[i]).payload_id,
    ) by {}
    lemma_filter_none(
        tables.payloads,
        |row: PayloadRow<Seq<char>, Seq<u8>>| in_use(events, row.payload_id),
    );
}

/// Clearing the messages leaves none, and all requests, steps and payloads.
pub proof fn law_clearing_messages(tables: Tables)
    requires
        no_loose_payloads(tables),
    ensures
        cleared(tables, "runtime"@) == Some(Tables { runtime_logs: Seq::empty(), ..tables }),
{
    reveal_strlit("requests");
    reveal_strlit("runtime");
    assert("requests"@.len() != "runtime"@.len());
    lemma_with_all(tables, Seq::empty());
}

/// Clearing everything leaves nothing but which identifiers were given.
pub proof fn law_clearing_everything(tables: Tables)
    requires
        consistent(tables),
    ensures
        cleared(tables, "all"@) == Some(
            Tables {
                traces: Seq::empty(),
                events: Seq::empty(),
                payloads: Seq::empty(),
                runtime_logs: Seq::empty(),
                ..tables
            },
        ),
{
    reveal_strlit("requests");
    reveal_strlit("runtime");
    reveal_strlit("all");
    assert("all"@.len() == 3 && "requests"@.len() == 8 && "runtime"@.len() == 7);
    lemma_without_requests(tables, Seq::empty());
}

/// Clearing leaves a consistent log consistent.
pub proof fn law_clearing_keeps_consistency(tables: Tables, kind: Seq<char>)
    requires
        consistent(tables),
        cleared(tables, kind) is Some,
    ensures
        consistent(cleared(tables, kind)->0),
{
    let none = Seq::<TraceRow<Seq<char>>>::empty();
    lemma_with_only_keeps(tables, none, tables.runtime_logs);
    lemma_with_only_keeps(tables, tables.traces, Seq::empty());
    lemma_with_only_keeps(tables, none, Seq::empty());
}

/// Clearing leaves the bytes stored for a request those that its steps take.
pub proof fn law_clearing_keeps_accounts(tables: Tables, kind: Seq<char>)
    requires
        accounted(tables),
        cleared(tables, kind) is Some,
    ensures
        accounted(cleared(tables, kind)->0),
{
    let none = Seq::<TraceRow<Seq<char>>>::empty();
    lemma_with_only_accounted(tables, none, tables.runtime_logs);
    lemma_with_only_accounted(tables, tables.traces, Seq::empty());
    lemma_with_only_accounted(tables, none, Seq::empty());
}

/// Maintenance leaves requests marked as incomplete exactly where steps of them were dropped.
pub proof fn law_maintenance_keeps_marks(
    before: Tables,
    now: int,
    after: Tables,
    result: Result<(), StoreError>,
)
    requires
        marked(before.traces),
        maintains(before, now, after, result),
    ensures
        marked(after.traces),
{
    if result is Ok {
        law_maintenance_drops_the_oldest(before, now, after);
        assert forall|i: int|
            #![trigger after.traces[i]]
            0 <= i < after.traces.len() implies before.traces.contains(after.traces[i]) by {
            assert(after.traces.contains(after.traces[i]));
        }
        assert forall|i: int|
            #![trigger after.traces[i]]
            0 <= i < after.traces.len() implies after.traces[i].dropped_event_count >= 0
            && after.traces[i].partial == if (after.traces[i].dropped_event_count > 0) {
            1int
        } else {
            0int
        } by {
            let at = before.traces.index_of(after.traces[i]);
            assert(before.traces[at] == after.traces[i]);
        }
    }
}

/// A payload that a step refers to is still referred to when there are more steps.
proof fn lemma_in_use_appended(
    events: Seq<EventRow<Seq<char>>>,
    event: EventRow<Seq<char>>,
    id: i64,
)
    ensures
        in_use(events, id) || event.payload_id == Some(id) ==> in_use(events.push(event), id),
{
    if in_use(events, id) {
        let i = choose|i: int|
            0 <= i < events.len() && (#[trigger] events[i]).payload_id == Some(id);
        assert(events.push(event)[i].payload_id == Some(id));
    }
    if event.payload_id == Some(id) {
        assert(events.push(event)[events.len() as int].payload_id == Some(id));
    }
}

proof fn lemma_step_leaves_none_loose(tables: Tables, event: StepView, reply: Reply, at: i64)
    requires
        no_loose_payloads(tables),
        with_step(tables, event, reply, at) is Ok,
    ensures
        no_loose_payloads(with_step(tables, event, reply, at)->Ok_0),
{
    let after = with_step(tables, event, reply, at)->Ok_0;
    if has_trace(tables.traces, event.trace_id) {
        let new = after.events.last();
        assert(after.events == tables.events.push(new));
        assert forall|i: int| 0 <= i < after.payloads.len() implies in_use(
            after.events,
            (#[trigger] after.payloads[i]).payload_id,
        ) by {
            let id = after.payloads[i].payload_id;
            lemma_in_use_appended(tables.events, new, id);
            if i < tables.payloads.len() {
                assert(after.payloads[i] == tables.payloads[i]);
            }
        }
    }
}

/// A command stores no payload without a step that refers to it.
pub proof fn law_command_leaves_no_loose_payload(
    tables: Tables,
    command: CommandView,
    outcome: OutcomeView,
)
    requires
        no_loose_payloads(tables),
        with_command(tables, command, outcome) is Ok,
    ensures
        no_loose_payloads(with_command(tables, command, outcome)->Ok_0),
{
    match command {
        WriteCommand::Begin { trace_id, input } => {
            lemma_step_leaves_none_loose(
                with_trace(tables, begin_row(trace_id, input, outcome.at)),
                begin_step(trace_id, input),
                outcome.reply,
                outcome.event_at,
            );
        },
        WriteCommand::Event(event) => {
            lemma_step_leaves_none_loose(tables, event, outcome.reply, outcome.event_at);
        },
        WriteCommand::Complete(complete) => {
            lemma_step_leaves_none_loose(tables, complete_step(complete), None, outcome.event_at);
        },
        WriteCommand::Runtime(_) => {},
    }
}

/// A batch stores no payload without a step that refers to it.
pub proof fn law_batch_leaves_no_loose_payload(
    tables: Tables,
    commands: Seq<CommandView>,
    outcomes: Seq<OutcomeView>,
)
    requires
        no_loose_payloads(tables),
        with_commands(tables, commands, outcomes) is Ok,
    ensures
        no_loose_payloads(with_commands(tables, commands, outcomes)->Ok_0),
    decreases commands.len(),
{
    if commands.len() > 0 {
        law_batch_leaves_no_loose_payload(tables, commands.drop_last(), outcomes.drop_last());
        law_command_leaves_no_loose_payload(
            with_commands(tables, commands.drop_last(), outcomes.drop_last())->Ok_0,
            commands.last(),
            outcomes.last(),
        );
    }
}

/// Where no two rows have the same identifier, the rows that are left are those whose identifier
/// is not missing.
proof fn lemma_missing<R, I>(before: Seq<R>, after: Seq<R>, id: spec_fn(R) -> I)
    requires
        forall|i: int, j: int|
            0 <= i < j < before.len() ==> id(#[trigger] before[i]) != id(#[trigger] before[j]),
        forall|row: R| #[trigger] after.contains(row) ==> before.contains(row),
    ensures
        forall|row: R| #[trigger]
            after.contains(row) <==> before.contains(row) && !missing(
                before.map_values(id),
                after.map_values(id),
            ).contains(id(row)),
{
    let (all, left) = (before.map_values(id), after.map_values(id));
    lemma_filter_contents(all, |item: I| !left.contains(item));
    assert forall|row: R| #[trigger] after.contains(row) <==> before.contains(row) && !missing(
        all,
        left,
    ).contains(id(row)) by {
        if after.contains(row) {
            let at = after.index_of(row);
            assert(left[at] == id(row));
            assert(left.contains(id(row)));
        }
        if before.contains(row) && !missing(all, left).contains(id(row)) {
            let at = before.index_of(row);
            assert(all[at] == id(row));
            assert(all.contains(id(row)));
            assert(left.contains(id(row)));
            let found = left.index_of(id(row));
            let other = after[found];
            assert(after.contains(other));
            let origin = before.index_of(other);
            assert(id(before[origin]) == id(before[at]));
            assert(other == row);
        }
    }
}

/// Where maintenance was done, taking the rows with the identifiers that are missing out of the
/// log leaves the rows that maintenance left.
pub proof fn law_taking_out_what_is_missing(before: Tables, now: int, after: Tables)
    requires
        consistent(before),
        maintains(before, now, after, Ok(())),
    ensures
        forall|row: TraceRow<Seq<char>>| #[trigger]
            after.traces.contains(row) <==> before.traces.contains(row) && !missing(
                trace_ids(before.traces),
                trace_ids(after.traces),
            ).contains(row.trace_id),
        forall|row: EventRow<Seq<char>>| #[trigger]
            after.events.contains(row) <==> before.events.contains(row) && !missing(
                event_ids(before.events),
                event_ids(after.events),
            ).contains(row.event_id),
        forall|row: PayloadRow<Seq<char>, Seq<u8>>| #[trigger]
            after.payloads.contains(row) <==> before.payloads.contains(row) && !missing(
                payload_ids(before.payloads),
                payload_ids(after.payloads),
            ).contains(row.payload_id),
        forall|row: RuntimeRow<Seq<char>>| #[trigger]
            after.runtime_logs.contains(row) <==> before.runtime_logs.contains(row) && !missing(
                log_ids(before.runtime_logs),
                log_ids(after.runtime_logs),
            ).contains(row.log_id),
{
    law_maintenance_drops_the_oldest(before, now, after);
    lemma_payloads_left(before, after.traces, after.runtime_logs);
    lemma_filter_contents(
        before.events,
        |event: EventRow<Seq<char>>| event_stays(before.traces, after.traces, event),
    );
    lemma_missing(before.traces, after.traces, |row: TraceRow<Seq<char>>| row.trace_id);
    lemma_missing(before.events, after.events, |row: EventRow<Seq<char>>| row.event_id);
    lemma_missing(
        before.payloads,
        after.payloads,
        |row: PayloadRow<Seq<char>, Seq<u8>>| row.payload_id,
    );
    lemma_missing(before.runtime_logs, after.runtime_logs, |row: RuntimeRow<Seq<char>>| row.log_id);
}

} // verus!
