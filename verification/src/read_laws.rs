//! What reading the log promises.
use crate::json::{json_bytes, reads_back, JsonView};
use crate::payload::kept_note;
use crate::query::{
    earlier_step, lists_logs, lists_traces, log_behind, log_of, log_wanted, newer_log, newer_trace,
    orders_events, orders_logs, orders_traces, page, page_size, page_start, payload_of, shows_event,
    shows_events, shows_trace, step_of, trace_behind, trace_of, trace_wanted, DEFAULT_LOGS,
    DEFAULT_TRACES, MAX_LOGS, MAX_TRACES,
};
use crate::records::{
    BeginTrace, DetailView, RequestTraceSummary, RuntimeLogInput, RuntimeLogQuery, RuntimeLogRecord,
    TraceCursor, TraceQuery, WriteCommand,
};
use crate::redact::redacted;
use crate::sequences::{
    lemma_distinct_multisets, lemma_filter_contents, lemma_filter_none, lemma_filter_pairs,
    lemma_insert_multiset, lemma_map_multiset, lemma_one_order, lemma_same_contents,
    lemma_same_no_duplicates,
};
use crate::store::{
    begin_payload, begin_row, begin_step, bumped, bumped_rows, fields_fit, has_trace, last_sequence,
    next_sequence, payload_row, reply_fits, summary_bytes, with_command, with_runtime, with_step,
    with_trace, OutcomeView, Reply, StepView,
};
use crate::store_laws::{
    consistent, distinct_traces, lemma_last_sequence, lemma_payload_appended, lemma_payload_new,
    lemma_trace_keeps,
};
use crate::tables::{count, summary_of, EventRow, RuntimeRow, Tables, TraceRow};
use crate::text::{
    lemma_no_later_antisymmetric, lemma_no_later_total, lemma_no_later_transitive, no_later,
};
use vstd::prelude::*;
use vstd::utf8::*;

verus! {

/// A list of requests is never longer than was asked for, nor than the largest page.
pub proof fn law_trace_lists_are_bounded(
    tables: Tables,
    query: TraceQuery,
    listed: Seq<RequestTraceSummary<Seq<char>>>,
)
    requires
        lists_traces(tables, query, listed),
    ensures
        listed.len() <= page_size(query.limit, DEFAULT_TRACES, MAX_TRACES) <= MAX_TRACES,
{
}

/// A list of messages is never longer than was asked for, nor than the largest page.
pub proof fn law_log_lists_are_bounded(
    tables: Tables,
    query: RuntimeLogQuery,
    listed: Seq<RuntimeLogRecord<Seq<char>, JsonView>>,
)
    requires
        lists_logs(tables, query, listed),
    ensures
        listed.len() <= page_size(query.limit, DEFAULT_LOGS, MAX_LOGS) <= MAX_LOGS,
{
}

/// There is one order in which the requests that a query asks for may stand.
pub proof fn lemma_one_trace_order(
    traces: Seq<TraceRow<Seq<char>>>,
    query: TraceQuery,
    one: Seq<TraceRow<Seq<char>>>,
    other: Seq<TraceRow<Seq<char>>>,
)
    requires
        distinct_traces(traces),
        orders_traces(traces, query, one),
        orders_traces(traces, query, other),
    ensures
        one == other,
{
    let keep = |row: TraceRow<Seq<char>>| trace_wanted(row, query);
    let before = |a: TraceRow<Seq<char>>, b: TraceRow<Seq<char>>| newer_trace(a, b);
    let wanted = traces.filter(keep);
    lemma_filter_contents(traces, keep);
    lemma_same_contents(one, wanted);
    assert forall|a: TraceRow<Seq<char>>, b: TraceRow<Seq<char>>|
        #![trigger before(a, b), before(b, a)]
        one.contains(a) && one.contains(b) && before(a, b) && before(b, a) implies a == b by {
        lemma_no_later_antisymmetric(encode_utf8(a.trace_id), encode_utf8(b.trace_id));
        encode_utf8_decode_utf8(a.trace_id);
        encode_utf8_decode_utf8(b.trace_id);
        assert(wanted.contains(a) && wanted.contains(b));
        let (i, j) = (traces.index_of(a), traces.index_of(b));
        assert(traces[i] == a && traces[j] == b);
    }
    lemma_one_order(one, other, before);
}

/// What is listed for a query is determined by the log.
pub proof fn law_trace_list_is_determined(
    tables: Tables,
    query: TraceQuery,
    one: Seq<RequestTraceSummary<Seq<char>>>,
    other: Seq<RequestTraceSummary<Seq<char>>>,
)
    requires
        consistent(tables),
        lists_traces(tables, query, one),
        lists_traces(tables, query, other),
    ensures
        one == other,
{
    let (offset, size) = (
        page_start(query.offset) as int,
        page_size(query.limit, DEFAULT_TRACES, MAX_TRACES) as int,
    );
    let summary = |row: TraceRow<Seq<char>>| summary_of(row);
    let first = choose|ordered: Seq<TraceRow<Seq<char>>>| #[trigger]
        orders_traces(tables.traces, query, ordered) && one == page(
            ordered,
            offset,
            size,
        ).map_values(summary);
    let second = choose|ordered: Seq<TraceRow<Seq<char>>>| #[trigger]
        orders_traces(tables.traces, query, ordered) && other == page(
            ordered,
            offset,
            size,
        ).map_values(summary);
    lemma_one_trace_order(tables.traces, query, first, second);
}

/// One page and the next are one page of twice the size: nothing is listed twice, and nothing in
/// between is left out.
pub proof fn law_trace_pages_join(
    tables: Tables,
    query: TraceQuery,
    next: TraceQuery,
    one: Seq<RequestTraceSummary<Seq<char>>>,
    other: Seq<RequestTraceSummary<Seq<char>>>,
)
    requires
        consistent(tables),
        page_start(query.offset) + page_size(query.limit, DEFAULT_TRACES, MAX_TRACES) <= u32::MAX,
        next == (TraceQuery {
            offset: Some(
                (page_start(query.offset) + page_size(
                    query.limit,
                    DEFAULT_TRACES,
                    MAX_TRACES,
                )) as u32,
            ),
            ..query
        }),
        lists_traces(tables, query, one),
        lists_traces(tables, next, other),
    ensures
        exists|ordered: Seq<TraceRow<Seq<char>>>| #[trigger]
            orders_traces(tables.traces, query, ordered) && one + other == page(
                ordered,
                page_start(query.offset) as int,
                2 * page_size(query.limit, DEFAULT_TRACES, MAX_TRACES),
            ).map_values(|row: TraceRow<Seq<char>>| summary_of(row)),
{
    let (offset, size) = (
        page_start(query.offset) as int,
        page_size(query.limit, DEFAULT_TRACES, MAX_TRACES) as int,
    );
    let summary = |row: TraceRow<Seq<char>>| summary_of(row);
    let first = choose|ordered: Seq<TraceRow<Seq<char>>>| #[trigger]
        orders_traces(tables.traces, query, ordered) && one == page(
            ordered,
            offset,
            size,
        ).map_values(summary);
    let second = choose|ordered: Seq<TraceRow<Seq<char>>>| #[trigger]
        orders_traces(tables.traces, next, ordered) && other == page(
            ordered,
            offset + size,
            size,
        ).map_values(summary);
    assert((|row: TraceRow<Seq<char>>| trace_wanted(row, query)) =~= (|row: TraceRow<Seq<char>>|
        trace_wanted(row, next)));
    assert(orders_traces(tables.traces, query, second));
    lemma_one_trace_order(tables.traces, query, first, second);
    assert(one + other =~= page(first, offset, 2 * size).map_values(summary));
}

/// No request comes twice among those that a query asks for.
proof fn lemma_ordered_traces(
    traces: Seq<TraceRow<Seq<char>>>,
    query: TraceQuery,
    ordered: Seq<TraceRow<Seq<char>>>,
)
    requires
        distinct_traces(traces),
        orders_traces(traces, query, ordered),
    ensures
        ordered.no_duplicates(),
        forall|row: TraceRow<Seq<char>>| #[trigger]
            ordered.contains(row) == (traces.contains(row) && trace_wanted(row, query)),
        forall|i: int, j: int|
            0 <= i < j < ordered.len() ==> (#[trigger] ordered[i]).trace_id != (
            #[trigger] ordered[j]).trace_id,
{
    let keep = |row: TraceRow<Seq<char>>| trace_wanted(row, query);
    let differ = |a: TraceRow<Seq<char>>, b: TraceRow<Seq<char>>| a.trace_id != b.trace_id;
    let wanted = traces.filter(keep);
    lemma_filter_contents(traces, keep);
    lemma_filter_pairs(traces, keep, differ);
    assert(wanted.no_duplicates()) by {
        assert forall|i: int, j: int| 0 <= i < j < wanted.len() implies wanted[i] != wanted[j] by {
            assert(differ(wanted[i], wanted[j]));
        }
    }
    lemma_same_no_duplicates(wanted, ordered);
    lemma_same_contents(ordered, wanted);
    assert forall|row: TraceRow<Seq<char>>| #[trigger]
        ordered.contains(row) == (traces.contains(row) && trace_wanted(row, query)) by {
        assert(ordered.contains(row) == wanted.contains(row));
    }
    assert forall|i: int, j: int| 0 <= i < j < ordered.len() implies (
    #[trigger] ordered[i]).trace_id != (#[trigger] ordered[j]).trace_id by {
        assert(ordered.contains(ordered[i]) && ordered.contains(ordered[j]));
        assert(traces.contains(ordered[i]) && traces.contains(ordered[j]));
        let (a, b) = (traces.index_of(ordered[i]), traces.index_of(ordered[j]));
        assert(traces[a] == ordered[i] && traces[b] == ordered[j]);
        assert(ordered[i] != ordered[j]);
    }
}

/// What stands behind a request in a list that stands behind a place stands behind that place.
proof fn lemma_behind_behind(
    row: TraceRow<Seq<char>>,
    middle: TraceCursor,
    first: TraceCursor,
    held: TraceRow<Seq<char>>,
)
    requires
        middle.started_at == held.started_at,
        middle.trace_id@ == held.trace_id,
        trace_behind(held, first),
        trace_behind(row, middle),
    ensures
        trace_behind(row, first),
{
    let (a, b, c) = (
        encode_utf8(first.trace_id@),
        encode_utf8(held.trace_id),
        encode_utf8(row.trace_id),
    );
    lemma_no_later_total(b, c);
    lemma_no_later_total(a, b);
    if no_later(a, c) && no_later(c, b) {
        lemma_no_later_transitive(a, c, b);
    }
}

/// Paging by the last entry of a full page is stable: whatever newer requests were recorded in
/// between, the next page begins right behind that entry, and the two pages are one of twice the
/// size of the log as it was. No request is listed twice, and none is left out.
pub proof fn law_trace_cursors_are_stable(
    before: Tables,
    added: Seq<TraceRow<Seq<char>>>,
    after: Tables,
    query: TraceQuery,
    next: TraceQuery,
    one: Seq<RequestTraceSummary<Seq<char>>>,
    other: Seq<RequestTraceSummary<Seq<char>>>,
)
    requires
        consistent(before),
        consistent(after),
        after.traces == before.traces + added,
        lists_traces(before, query, one),
        one.len() == page_size(query.limit, DEFAULT_TRACES, MAX_TRACES),
        next.cursor matches Some(cursor) && cursor.started_at == one.last().started_at
            && cursor.trace_id@ == one.last().trace_id,
        page_start(next.offset) == 0,
        next == (TraceQuery { cursor: next.cursor, offset: next.offset, ..query }),
        forall|i: int|
            0 <= i < added.len() ==> !trace_behind(#[trigger] added[i], next.cursor->0),
        lists_traces(after, next, other),
    ensures
        exists|ordered: Seq<TraceRow<Seq<char>>>| #[trigger]
            orders_traces(before.traces, query, ordered) && one + other == page(
                ordered,
                page_start(query.offset) as int,
                2 * page_size(query.limit, DEFAULT_TRACES, MAX_TRACES),
            ).map_values(|row: TraceRow<Seq<char>>| summary_of(row)),
{
    let (offset, size) = (
        page_start(query.offset) as int,
        page_size(query.limit, DEFAULT_TRACES, MAX_TRACES) as int,
    );
    let cursor = next.cursor->0;
    let summary = |row: TraceRow<Seq<char>>| summary_of(row);
    let first = choose|ordered: Seq<TraceRow<Seq<char>>>| #[trigger]
        orders_traces(before.traces, query, ordered) && one == page(
            ordered,
            offset,
            size,
        ).map_values(summary);
    let second = choose|ordered: Seq<TraceRow<Seq<char>>>| #[trigger]
        orders_traces(after.traces, next, ordered) && other == page(
            ordered,
            0,
            size,
        ).map_values(summary);
    lemma_ordered_traces(before.traces, query, first);
    lemma_ordered_traces(after.traces, next, second);
    let at = offset + size - 1;
    let last = first[at];
    assert(one.last() == summary_of(last));
    let rest = first.skip(at + 1);
    assert(first.contains(last));
    assert forall|row: TraceRow<Seq<char>>| #[trigger]
        second.contains(row) == rest.contains(row) by {
        if rest.contains(row) {
            let i = rest.index_of(row);
            assert(first[at + 1 + i] == row);
            assert(first.contains(row));
            assert(newer_trace(first[at], first[at + 1 + i]));
            if row.started_at == last.started_at && no_later(
                encode_utf8(last.trace_id),
                encode_utf8(row.trace_id),
            ) {
                lemma_no_later_antisymmetric(
                    encode_utf8(last.trace_id),
                    encode_utf8(row.trace_id),
                );
                encode_utf8_decode_utf8(last.trace_id);
                encode_utf8_decode_utf8(row.trace_id);
                assert(first[at].trace_id != first[at + 1 + i].trace_id);
            }
            assert(trace_behind(row, cursor));
            let origin = before.traces.index_of(row);
            assert(after.traces[origin] == row);
            assert(trace_wanted(row, next));
        }
        if second.contains(row) {
            assert(trace_wanted(row, next));
            assert(trace_behind(row, cursor));
            if query.cursor is Some {
                lemma_behind_behind(row, cursor, query.cursor->0, last);
            }
            assert(trace_wanted(row, query));
            let origin = after.traces.index_of(row);
            assert(after.traces[origin] == row);
            if origin >= before.traces.len() {
                assert(added[origin - before.traces.len()] == row);
            }
            assert(before.traces[origin] == row);
            assert(before.traces.contains(row));
            assert(first.contains(row));
            let i = first.index_of(row);
            if i < at {
                assert(newer_trace(first[i], first[at]));
            } else if i == at {
                lemma_no_later_total(encode_utf8(row.trace_id), encode_utf8(row.trace_id));
            }
            assert(rest[i - at - 1] == row);
        }
    }
    assert(rest.no_duplicates());
    lemma_distinct_multisets(second, rest);
    assert forall|i: int, j: int| 0 <= i < j < rest.len() implies newer_trace(
        #[trigger] rest[i],
        #[trigger] rest[j],
    ) by {
        assert(newer_trace(first[at + 1 + i], first[at + 1 + j]));
    }
    assert(orders_traces(after.traces, next, rest));
    lemma_one_trace_order(after.traces, next, rest, second);
    assert(one + other =~= page(first, offset, 2 * size).map_values(summary));
}

/// Whether this is what is shown of a request that a query asks for.
pub open spec fn shows_wanted_trace(
    tables: Tables,
    query: TraceQuery,
    summary: RequestTraceSummary<Seq<char>>,
) -> bool {
    exists|row: TraceRow<Seq<char>>| #[trigger]
        tables.traces.contains(row) && trace_wanted(row, query) && summary == summary_of(row)
}

/// Everything that is listed is asked for, and the newest comes first.
pub proof fn law_listed_traces_are_wanted(
    tables: Tables,
    query: TraceQuery,
    listed: Seq<RequestTraceSummary<Seq<char>>>,
)
    requires
        lists_traces(tables, query, listed),
    ensures
        forall|i: int|
            0 <= i < listed.len() ==> shows_wanted_trace(tables, query, #[trigger] listed[i]),
        forall|i: int, j: int|
            0 <= i < j < listed.len() ==> (#[trigger] listed[i]).started_at >= (
            #[trigger] listed[j]).started_at,
{
    let (offset, size) = (
        page_start(query.offset) as int,
        page_size(query.limit, DEFAULT_TRACES, MAX_TRACES) as int,
    );
    let keep = |row: TraceRow<Seq<char>>| trace_wanted(row, query);
    let ordered = choose|ordered: Seq<TraceRow<Seq<char>>>| #[trigger]
        orders_traces(tables.traces, query, ordered) && listed == page(
            ordered,
            offset,
            size,
        ).map_values(|row: TraceRow<Seq<char>>| summary_of(row));
    lemma_filter_contents(tables.traces, keep);
    lemma_same_contents(ordered, tables.traces.filter(keep));
    assert forall|i: int| 0 <= i < listed.len() implies shows_wanted_trace(
        tables,
        query,
        #[trigger] listed[i],
    ) by {
        let row = ordered[offset + i];
        assert(listed[i] == summary_of(row));
        assert(ordered.contains(row));
        assert(tables.traces.filter(keep).contains(row));
        assert(tables.traces.contains(row));
    }
    assert forall|i: int, j: int| 0 <= i < j < listed.len() implies (
    #[trigger] listed[i]).started_at >= (#[trigger] listed[j]).started_at by {
        assert(newer_trace(ordered[offset + i], ordered[offset + j]));
    }
}

/// Where all that is asked for fits on the first page, all of it is listed.
pub proof fn law_short_trace_lists_are_complete(
    tables: Tables,
    query: TraceQuery,
    listed: Seq<RequestTraceSummary<Seq<char>>>,
)
    requires
        lists_traces(tables, query, listed),
        page_start(query.offset) == 0,
        tables.traces.filter(|row: TraceRow<Seq<char>>| trace_wanted(row, query)).len()
            <= page_size(query.limit, DEFAULT_TRACES, MAX_TRACES),
    ensures
        listed.to_multiset() == tables.traces.filter(
            |row: TraceRow<Seq<char>>| trace_wanted(row, query),
        ).map_values(|row: TraceRow<Seq<char>>| summary_of(row)).to_multiset(),
{
    let wanted = tables.traces.filter(|row: TraceRow<Seq<char>>| trace_wanted(row, query));
    let size = page_size(query.limit, DEFAULT_TRACES, MAX_TRACES) as int;
    let summary = |row: TraceRow<Seq<char>>| summary_of(row);
    let ordered = choose|ordered: Seq<TraceRow<Seq<char>>>| #[trigger]
        orders_traces(tables.traces, query, ordered) && listed == page(
            ordered,
            0,
            size,
        ).map_values(summary);
    lemma_same_contents(ordered, wanted);
    assert(page(ordered, 0, size) =~= ordered);
    lemma_map_multiset(ordered, wanted, summary);
}

/// There is one order in which the messages that a query asks for may stand.
pub proof fn lemma_one_log_order(
    tables: Tables,
    query: RuntimeLogQuery,
    one: Seq<RuntimeRow<Seq<char>>>,
    other: Seq<RuntimeRow<Seq<char>>>,
)
    requires
        consistent(tables),
        orders_logs(tables.runtime_logs, query, one),
        orders_logs(tables.runtime_logs, query, other),
    ensures
        one == other,
{
    let logs = tables.runtime_logs;
    let keep = |row: RuntimeRow<Seq<char>>| log_wanted(row, query);
    let before = |a: RuntimeRow<Seq<char>>, b: RuntimeRow<Seq<char>>| newer_log(a, b);
    let wanted = logs.filter(keep);
    lemma_filter_contents(logs, keep);
    lemma_same_contents(one, wanted);
    assert forall|a: RuntimeRow<Seq<char>>, b: RuntimeRow<Seq<char>>|
        #![trigger before(a, b), before(b, a)]
        one.contains(a) && one.contains(b) && before(a, b) && before(b, a) implies a == b by {
        assert(wanted.contains(a) && wanted.contains(b));
        let (i, j) = (logs.index_of(a), logs.index_of(b));
        assert(logs[i] == a && logs[j] == b);
    }
    lemma_one_order(one, other, before);
}

/// What is listed for a query is determined by the log.
pub proof fn law_log_list_is_determined(
    tables: Tables,
    query: RuntimeLogQuery,
    one: Seq<RuntimeLogRecord<Seq<char>, JsonView>>,
    other: Seq<RuntimeLogRecord<Seq<char>, JsonView>>,
)
    requires
        consistent(tables),
        lists_logs(tables, query, one),
        lists_logs(tables, query, other),
    ensures
        one == other,
{
    let (offset, size) = (
        page_start(query.offset) as int,
        page_size(query.limit, DEFAULT_LOGS, MAX_LOGS) as int,
    );
    let record = |row: RuntimeRow<Seq<char>>| log_of(row);
    let first = choose|ordered: Seq<RuntimeRow<Seq<char>>>| #[trigger]
        orders_logs(tables.runtime_logs, query, ordered) && one == page(
            ordered,
            offset,
            size,
        ).map_values(record);
    let second = choose|ordered: Seq<RuntimeRow<Seq<char>>>| #[trigger]
        orders_logs(tables.runtime_logs, query, ordered) && other == page(
            ordered,
            offset,
            size,
        ).map_values(record);
    lemma_one_log_order(tables, query, first, second);
}

/// One page and the next are one page of twice the size: nothing is listed twice, and nothing in
/// between is left out.
pub proof fn law_log_pages_join(
    tables: Tables,
    query: RuntimeLogQuery,
    next: RuntimeLogQuery,
    one: Seq<RuntimeLogRecord<Seq<char>, JsonView>>,
    other: Seq<RuntimeLogRecord<Seq<char>, JsonView>>,
)
    requires
        consistent(tables),
        page_start(query.offset) + page_size(query.limit, DEFAULT_LOGS, MAX_LOGS) <= u32::MAX,
        next == (RuntimeLogQuery {
            offset: Some(
                (page_start(query.offset) + page_size(query.limit, DEFAULT_LOGS, MAX_LOGS)) as u32,
            ),
            ..query
        }),
        lists_logs(tables, query, one),
        lists_logs(tables, next, other),
    ensures
        exists|ordered: Seq<RuntimeRow<Seq<char>>>| #[trigger]
            orders_logs(tables.runtime_logs, query, ordered) && one + other == page(
                ordered,
                page_start(query.offset) as int,
                2 * page_size(query.limit, DEFAULT_LOGS, MAX_LOGS),
            ).map_values(|row: RuntimeRow<Seq<char>>| log_of(row)),
{
    let (offset, size) = (
        page_start(query.offset) as int,
        page_size(query.limit, DEFAULT_LOGS, MAX_LOGS) as int,
    );
    let record = |row: RuntimeRow<Seq<char>>| log_of(row);
    let first = choose|ordered: Seq<RuntimeRow<Seq<char>>>| #[trigger]
        orders_logs(tables.runtime_logs, query, ordered) && one == page(
            ordered,
            offset,
            size,
        ).map_values(record);
    let second = choose|ordered: Seq<RuntimeRow<Seq<char>>>| #[trigger]
        orders_logs(tables.runtime_logs, next, ordered) && other == page(
            ordered,
            offset + size,
            size,
        ).map_values(record);
    assert((|row: RuntimeRow<Seq<char>>| log_wanted(row, query)) =~= (|row: RuntimeRow<Seq<char>>|
        log_wanted(row, next)));
    assert(orders_logs(tables.runtime_logs, query, second));
    lemma_one_log_order(tables, query, first, second);
    assert(one + other =~= page(first, offset, 2 * size).map_values(record));
}

/// No message comes twice among those that a query asks for.
proof fn lemma_ordered_logs(
    tables: Tables,
    query: RuntimeLogQuery,
    ordered: Seq<RuntimeRow<Seq<char>>>,
)
    requires
        consistent(tables),
        orders_logs(tables.runtime_logs, query, ordered),
    ensures
        ordered.no_duplicates(),
        forall|row: RuntimeRow<Seq<char>>| #[trigger]
            ordered.contains(row) == (tables.runtime_logs.contains(row) && log_wanted(row, query)),
        forall|i: int, j: int|
            0 <= i < j < ordered.len() ==> (#[trigger] ordered[i]).log_id != (
            #[trigger] ordered[j]).log_id,
{
    let logs = tables.runtime_logs;
    let keep = |row: RuntimeRow<Seq<char>>| log_wanted(row, query);
    let differ = |a: RuntimeRow<Seq<char>>, b: RuntimeRow<Seq<char>>| a.log_id != b.log_id;
    let wanted = logs.filter(keep);
    lemma_filter_contents(logs, keep);
    lemma_filter_pairs(logs, keep, differ);
    assert(wanted.no_duplicates()) by {
        assert forall|i: int, j: int| 0 <= i < j < wanted.len() implies wanted[i] != wanted[j] by {
            assert(differ(wanted[i], wanted[j]));
        }
    }
    lemma_same_no_duplicates(wanted, ordered);
    lemma_same_contents(ordered, wanted);
    assert forall|row: RuntimeRow<Seq<char>>| #[trigger]
        ordered.contains(row) == (logs.contains(row) && log_wanted(row, query)) by {
        assert(ordered.contains(row) == wanted.contains(row));
    }
    assert forall|i: int, j: int| 0 <= i < j < ordered.len() implies (
    #[trigger] ordered[i]).log_id != (#[trigger] ordered[j]).log_id by {
        assert(ordered.contains(ordered[i]) && ordered.contains(ordered[j]));
        assert(logs.contains(ordered[i]) && logs.contains(ordered[j]));
        let (a, b) = (logs.index_of(ordered[i]), logs.index_of(ordered[j]));
        assert(logs[a] == ordered[i] && logs[b] == ordered[j]);
        assert(ordered[i] != ordered[j]);
    }
}

/// Paging by the last entry of a full page is stable: whatever newer messages were recorded in
/// between, the next page begins right behind that entry, and the two pages are one of twice the
/// size of the log as it was. No message is listed twice, and none is left out.
pub proof fn law_log_cursors_are_stable(
    before: Tables,
    added: Seq<RuntimeRow<Seq<char>>>,
    after: Tables,
    query: RuntimeLogQuery,
    next: RuntimeLogQuery,
    one: Seq<RuntimeLogRecord<Seq<char>, JsonView>>,
    other: Seq<RuntimeLogRecord<Seq<char>, JsonView>>,
)
    requires
        consistent(before),
        consistent(after),
        after.runtime_logs == before.runtime_logs + added,
        lists_logs(before, query, one),
        one.len() == page_size(query.limit, DEFAULT_LOGS, MAX_LOGS),
        next.cursor matches Some(cursor) && cursor.occurred_at == one.last().occurred_at
            && cursor.log_id == one.last().log_id,
        page_start(next.offset) == 0,
        next == (RuntimeLogQuery { cursor: next.cursor, offset: next.offset, ..query }),
        forall|i: int| 0 <= i < added.len() ==> !log_behind(#[trigger] added[i], next.cursor->0),
        lists_logs(after, next, other),
    ensures
        exists|ordered: Seq<RuntimeRow<Seq<char>>>| #[trigger]
            orders_logs(before.runtime_logs, query, ordered) && one + other == page(
                ordered,
                page_start(query.offset) as int,
                2 * page_size(query.limit, DEFAULT_LOGS, MAX_LOGS),
            ).map_values(|row: RuntimeRow<Seq<char>>| log_of(row)),
{
    let (offset, size) = (
        page_start(query.offset) as int,
        page_size(query.limit, DEFAULT_LOGS, MAX_LOGS) as int,
    );
    let cursor = next.cursor->0;
    let record = |row: RuntimeRow<Seq<char>>| log_of(row);
    let first = choose|ordered: Seq<RuntimeRow<Seq<char>>>| #[trigger]
        orders_logs(before.runtime_logs, query, ordered) && one == page(
            ordered,
            offset,
            size,
        ).map_values(record);
    let second = choose|ordered: Seq<RuntimeRow<Seq<char>>>| #[trigger]
        orders_logs(after.runtime_logs, next, ordered) && other == page(
            ordered,
            0,
            size,
        ).map_values(record);
    lemma_ordered_logs(before, query, first);
    lemma_ordered_logs(after, next, second);
    let at = offset + size - 1;
    let last = first[at];
    assert(one.last() == log_of(last));
    let rest = first.skip(at + 1);
    assert(first.contains(last));
    assert forall|row: RuntimeRow<Seq<char>>| #[trigger]
        second.contains(row) == rest.contains(row) by {
        if rest.contains(row) {
            let i = rest.index_of(row);
            assert(first[at + 1 + i] == row);
            assert(first.contains(row));
            assert(newer_log(first[at], first[at + 1 + i]));
            assert(first[at].log_id != first[at + 1 + i].log_id);
            assert(log_behind(row, cursor));
            let origin = before.runtime_logs.index_of(row);
            assert(after.runtime_logs[origin] == row);
            assert(log_wanted(row, next));
        }
        if second.contains(row) {
            assert(log_wanted(row, next));
            assert(log_behind(row, cursor));
            assert(log_wanted(row, query));
            let origin = after.runtime_logs.index_of(row);
            assert(after.runtime_logs[origin] == row);
            if origin >= before.runtime_logs.len() {
                assert(added[origin - before.runtime_logs.len()] == row);
            }
            assert(before.runtime_logs[origin] == row);
            assert(before.runtime_logs.contains(row));
            assert(first.contains(row));
            let i = first.index_of(row);
            if i < at {
                assert(newer_log(first[i], first[at]));
            }
            assert(rest[i - at - 1] == row);
        }
    }
    assert(rest.no_duplicates());
    lemma_distinct_multisets(second, rest);
    assert forall|i: int, j: int| 0 <= i < j < rest.len() implies newer_log(
        #[trigger] rest[i],
        #[trigger] rest[j],
    ) by {
        assert(newer_log(first[at + 1 + i], first[at + 1 + j]));
    }
    assert(orders_logs(after.runtime_logs, next, rest));
    lemma_one_log_order(after, next, rest, second);
    assert(one + other =~= page(first, offset, 2 * size).map_values(record));
}

/// Whether this is what is shown of a message that a query asks for.
pub open spec fn shows_wanted_log(
    tables: Tables,
    query: RuntimeLogQuery,
    record: RuntimeLogRecord<Seq<char>, JsonView>,
) -> bool {
    exists|row: RuntimeRow<Seq<char>>| #[trigger]
        tables.runtime_logs.contains(row) && log_wanted(row, query) && record == log_of(row)
}

/// Everything that is listed is asked for, and the newest comes first.
pub proof fn law_listed_logs_are_wanted(
    tables: Tables,
    query: RuntimeLogQuery,
    listed: Seq<RuntimeLogRecord<Seq<char>, JsonView>>,
)
    requires
        lists_logs(tables, query, listed),
    ensures
        forall|i: int|
            0 <= i < listed.len() ==> shows_wanted_log(tables, query, #[trigger] listed[i]),
        forall|i: int, j: int|
            0 <= i < j < listed.len() ==> (#[trigger] listed[i]).occurred_at >= (
            #[trigger] listed[j]).occurred_at,
{
    let (offset, size) = (
        page_start(query.offset) as int,
        page_size(query.limit, DEFAULT_LOGS, MAX_LOGS) as int,
    );
    let keep = |row: RuntimeRow<Seq<char>>| log_wanted(row, query);
    let ordered = choose|ordered: Seq<RuntimeRow<Seq<char>>>| #[trigger]
        orders_logs(tables.runtime_logs, query, ordered) && listed == page(
            ordered,
            offset,
            size,
        ).map_values(|row: RuntimeRow<Seq<char>>| log_of(row));
    lemma_filter_contents(tables.runtime_logs, keep);
    lemma_same_contents(ordered, tables.runtime_logs.filter(keep));
    assert forall|i: int| 0 <= i < listed.len() implies shows_wanted_log(
        tables,
        query,
        #[trigger] listed[i],
    ) by {
        let row = ordered[offset + i];
        assert(listed[i] == log_of(row));
        assert(ordered.contains(row));
        assert(tables.runtime_logs.filter(keep).contains(row));
        assert(tables.runtime_logs.contains(row));
    }
    assert forall|i: int, j: int| 0 <= i < j < listed.len() implies (
    #[trigger] listed[i]).occurred_at >= (#[trigger] listed[j]).occurred_at by {
        assert(newer_log(ordered[offset + i], ordered[offset + j]));
    }
}

/// The request of an identifier is found where it is there.
proof fn lemma_trace_found(traces: Seq<TraceRow<Seq<char>>>, id: Seq<char>)
    ensures
        trace_of(traces, id) is Some == has_trace(traces, id),
    decreases traces.len(),
{
    if traces.len() > 0 {
        let rest = traces.drop_first();
        lemma_trace_found(rest, id);
        if traces[0].trace_id != id {
            if has_trace(traces, id) {
                let i = choose|i: int|
                    0 <= i < traces.len() && (#[trigger] traces[i]).trace_id == id;
                assert(rest[i - 1].trace_id == id);
            }
            if has_trace(rest, id) {
                let i = choose|i: int| 0 <= i < rest.len() && (#[trigger] rest[i]).trace_id == id;
                assert(traces[i + 1].trace_id == id);
            }
        }
    }
}

/// A request is shown where the log has it, and only there.
pub proof fn law_a_request_is_shown_where_it_is(
    tables: Tables,
    id: Seq<char>,
    shown: Option<DetailView>,
)
    requires
        shows_trace(tables, id, shown),
    ensures
        shown is Some == has_trace(tables.traces, id),
{
    lemma_trace_found(tables.traces, id);
}

/// There is one order in which the steps of a request may stand: that in which they were
/// recorded, and no two have the same number.
pub proof fn lemma_step_order(tables: Tables, id: Seq<char>, ordered: Seq<EventRow<Seq<char>>>)
    requires
        consistent(tables),
        orders_events(tables.events, id, ordered),
    ensures
        ordered == tables.events.filter(|row: EventRow<Seq<char>>| step_of(row, id)),
        forall|i: int, j: int|
            0 <= i < j < ordered.len() ==> (#[trigger] ordered[i]).sequence < (
            #[trigger] ordered[j]).sequence,
{
    let events = tables.events;
    let keep = |row: EventRow<Seq<char>>| step_of(row, id);
    let rising = |a: EventRow<Seq<char>>, b: EventRow<Seq<char>>|
        a.trace_id == b.trace_id ==> a.sequence < b.sequence;
    let before = |a: EventRow<Seq<char>>, b: EventRow<Seq<char>>| earlier_step(a, b);
    let steps = events.filter(keep);
    lemma_filter_contents(events, keep);
    lemma_filter_pairs(events, keep, rising);
    assert forall|i: int, j: int| 0 <= i < j < steps.len() implies (
    #[trigger] steps[i]).sequence < (#[trigger] steps[j]).sequence by {
        assert(rising(steps[i], steps[j]));
        assert(steps.contains(steps[i]) && steps.contains(steps[j]));
    }
    assert forall|i: int, j: int| 0 <= i < j < steps.len() implies before(
        #[trigger] steps[i],
        #[trigger] steps[j],
    ) by {
        assert(steps[i].sequence < steps[j].sequence);
    }
    lemma_same_contents(ordered, steps);
    assert forall|a: EventRow<Seq<char>>, b: EventRow<Seq<char>>|
        #![trigger before(a, b), before(b, a)]
        ordered.contains(a) && ordered.contains(b) && before(a, b) && before(b, a) implies a == b by {
        assert(steps.contains(a) && steps.contains(b));
        let (i, j) = (steps.index_of(a), steps.index_of(b));
        assert(steps[i] == a && steps[j] == b);
    }
    lemma_one_order(ordered, steps, before);
}

/// The steps of a request are shown in the order of their numbers, of which no two are the same.
pub proof fn law_steps_are_shown_in_order(tables: Tables, id: Seq<char>, shown: DetailView)
    requires
        consistent(tables),
        shows_trace(tables, id, Some(shown)),
    ensures
        forall|i: int, j: int|
            0 <= i < j < shown.events.len() ==> (#[trigger] shown.events[i]).sequence < (
            #[trigger] shown.events[j]).sequence,
{
    let ordered = choose|ordered: Seq<EventRow<Seq<char>>>| #[trigger]
        orders_events(tables.events, id, ordered) && shows_events(
            tables.payloads,
            ordered,
            shown.events,
        );
    lemma_step_order(tables, id, ordered);
    assert forall|i: int, j: int| 0 <= i < j < shown.events.len() implies (
    #[trigger] shown.events[i]).sequence < (#[trigger] shown.events[j]).sequence by {
        assert(shows_event(tables.payloads, ordered[i], shown.events[i]));
        assert(shows_event(tables.payloads, ordered[j], shown.events[j]));
        assert(ordered[i].sequence < ordered[j].sequence);
    }
}

/// The steps that are recorded of a request come last when it is shown.
proof fn lemma_new_step_is_last(
    before: Seq<EventRow<Seq<char>>>,
    new: EventRow<Seq<char>>,
    ordered: Seq<EventRow<Seq<char>>>,
)
    requires
        orders_events(before.push(new), new.trace_id, ordered),
        forall|i: int|
            0 <= i < before.len() && (#[trigger] before[i]).trace_id == new.trace_id
                ==> before[i].sequence < new.sequence,
    ensures
        ordered.len() > 0,
        ordered.last() == new,
        orders_events(before, new.trace_id, ordered.drop_last()),
{
    let id = new.trace_id;
    let keep = |row: EventRow<Seq<char>>| step_of(row, id);
    let old = before.filter(keep);
    before.lemma_filter_push(new, keep);
    lemma_filter_contents(before, keep);
    lemma_same_contents(ordered, old.push(new));
    assert(old.push(new)[old.len() as int] == new);
    assert(old.push(new).contains(new));
    let at = ordered.index_of(new);
    let last = ordered.last();
    assert(ordered.contains(last));
    assert(old.push(new).contains(last));
    if last != new {
        let found = old.push(new).index_of(last);
        assert(old[found] == last);
        assert(old.contains(last));
        let origin = before.index_of(last);
        assert(before[origin].sequence < new.sequence);
        assert(earlier_step(ordered[at], ordered[ordered.len() - 1]));
    }
    let rest = ordered.drop_last();
    assert(ordered == rest.insert(rest.len() as int, new));
    assert(old.push(new) == old.insert(old.len() as int, new));
    lemma_insert_multiset(rest, rest.len() as int, new);
    lemma_insert_multiset(old, old.len() as int, new);
    assert(rest.to_multiset() =~= old.to_multiset()) by {
        assert(ordered.to_multiset().remove(new) =~= rest.to_multiset());
        assert(old.push(new).to_multiset().remove(new) =~= old.to_multiset());
    }
    assert forall|i: int, j: int| 0 <= i < j < rest.len() implies earlier_step(
        #[trigger] rest[i],
        #[trigger] rest[j],
    ) by {
        assert(earlier_step(ordered[i], ordered[j]));
    }
}

/// The row of a request that got one more step is that row with the step counted in.
proof fn lemma_bumped_trace(
    traces: Seq<TraceRow<Seq<char>>>,
    id: Seq<char>,
    bytes: int,
    attempt_no: Option<u32>,
)
    requires
        trace_of(traces, id) is Some,
    ensures
        trace_of(bumped_rows(traces, id, bytes, attempt_no), id) == Some(
            bumped(trace_of(traces, id)->0, bytes, attempt_no),
        ),
    decreases traces.len(),
{
    if traces[0].trace_id != id {
        assert(bumped_rows(traces, id, bytes, attempt_no).drop_first() =~= bumped_rows(
            traces.drop_first(),
            id,
            bytes,
            attempt_no,
        ));
        lemma_bumped_trace(traces.drop_first(), id, bytes, attempt_no);
    }
}

/// An offset that is out of a column's range is held as a negative number.
proof fn lemma_held_offset(offset: u64)
    ensures
        count(offset as i64) as u64 == if offset <= i64::MAX {
            offset
        } else {
            0
        },
{
    assert(offset > 0x7fff_ffff_ffff_ffff ==> (offset as i64) < 0) by (bit_vector);
}

/// How many bytes a step takes, given what became of its payload.
pub open spec fn recorded_bytes(event: StepView, reply: Reply) -> int {
    summary_bytes(event.summary) + match reply {
        Some(Some(stored)) => stored.stored_bytes as int,
        _ => 0,
    }
}

/// A step that is recorded is shown: it comes last, as it was recorded, and the steps before it
/// are shown as they were; an offset beyond the range of a column is shown as none. Its payload
/// is the redacted one, where it was not cut and its text reads back, or the note on it where it
/// was cut, unless decompressing it fails. The request shows the attempts and the bytes of the
/// step, and is otherwise shown as it was.
pub proof fn law_recorded_step_is_shown(
    tables: Tables,
    event: StepView,
    reply: Reply,
    at: i64,
    shown: DetailView,
)
    requires
        consistent(tables),
        has_trace(tables.traces, event.trace_id),
        reply_fits(event.payload, reply),
        with_step(tables, event, reply, at) is Ok,
        shows_trace(with_step(tables, event, reply, at)->Ok_0, event.trace_id, Some(shown)),
    ensures
        shown.events.len() > 0,
        ({
            let last = shown.events.last();
            &&& last.sequence == next_sequence(tables.events, event.trace_id)
            &&& last.occurred_at == at
            &&& last.offset_ms == if event.offset_ms <= i64::MAX {
                event.offset_ms
            } else {
                0
            }
            &&& last.stage == event.stage
            &&& last.kind == event.kind
            &&& last.attempt_no == event.attempt_no
            &&& last.provider_id == event.provider_id
            &&& last.status_code == event.status_code
            &&& last.summary == event.summary
            &&& event.payload is None ==> last.payload is None && !last.truncated
            &&& reply matches Some(Some(stored)) ==> {
                &&& last.truncated == stored.truncated
                &&& !stored.truncated && reads_back(redacted(event.payload->0)) ==> {
                    ||| last.payload == Some(redacted(event.payload->0))
                    ||| last.payload is None && stored.encoding == "zstd"@
                }
                &&& stored.truncated ==> {
                    ||| last.payload == kept_note(json_bytes(redacted(event.payload->0))->0)
                    ||| last.payload is None && stored.encoding == "zstd"@
                }
            }
        }),
        trace_of(tables.traces, event.trace_id) matches Some(row) && shown.trace == summary_of(
            bumped(row, recorded_bytes(event, reply), event.attempt_no),
        ),
        exists|ordered: Seq<EventRow<Seq<char>>>| #[trigger]
            orders_events(tables.events, event.trace_id, ordered) && shows_events(
                tables.payloads,
                ordered,
                shown.events.drop_last(),
            ),
{
    let after = with_step(tables, event, reply, at)->Ok_0;
    let id = event.trace_id;
    let row = after.events.last();
    assert(after.events == tables.events.push(row));
    lemma_last_sequence(tables.events, id);
    lemma_held_offset(event.offset_ms);
    lemma_trace_found(tables.traces, id);
    lemma_bumped_trace(tables.traces, id, recorded_bytes(event, reply), event.attempt_no);
    assert(trace_of(after.traces, id) is Some) by {
        if trace_of(after.traces, id) is None {
            assert(!shows_trace(after, id, Some(shown)));
        }
    }
    let ordered = choose|ordered: Seq<EventRow<Seq<char>>>| #[trigger]
        orders_events(after.events, id, ordered) && shows_events(
            after.payloads,
            ordered,
            shown.events,
        );
    lemma_new_step_is_last(tables.events, row, ordered);
    let last = shown.events.last();
    let end = shown.events.len() - 1;
    assert(shows_event(after.payloads, ordered[end], shown.events[end]));
    assert(shows_event(after.payloads, row, last));
    if reply is Some {
        let stored = reply->0->0;
        let held = payload_row(stored, (tables.last_payload_id + 1) as i64);
        lemma_payload_new(tables.payloads, held);
        assert(payload_of(after.payloads, row.payload_id) == Some(held));
    }
    let rest = ordered.drop_last();
    let earlier = shown.events.drop_last();
    assert(shows_events(tables.payloads, rest, earlier)) by {
        lemma_filter_contents(tables.events, |row: EventRow<Seq<char>>| step_of(row, id));
        lemma_same_contents(
            rest,
            tables.events.filter(|row: EventRow<Seq<char>>| step_of(row, id)),
        );
        assert forall|i: int| 0 <= i < earlier.len() implies shows_event(
            tables.payloads,
            rest[i],
            #[trigger] earlier[i],
        ) by {
            assert(shows_event(after.payloads, ordered[i], shown.events[i]));
            assert(rest.contains(rest[i]));
            assert(tables.events.contains(rest[i]));
            let origin = tables.events.index_of(rest[i]);
            assert(tables.events[origin] == rest[i]);
            if reply is Some {
                lemma_payload_appended(
                    tables.payloads,
                    payload_row(reply->0->0, (tables.last_payload_id + 1) as i64),
                    rest[i].payload_id,
                );
            }
        }
    }
}

/// A message that is recorded is shown as it was recorded; its fields, where their text reads
/// back, are the same.
pub proof fn law_recorded_message_is_shown(
    tables: Tables,
    input: RuntimeLogInput<Seq<char>, JsonView>,
    fields: Option<Seq<char>>,
)
    requires
        fields_fit(input.fields, fields),
        with_runtime(tables, input, fields) is Ok,
    ensures
        ({
            let after = with_runtime(tables, input, fields)->Ok_0;
            let record = log_of(after.runtime_logs.last());
            &&& after.runtime_logs.drop_last() == tables.runtime_logs
            &&& record.log_id == tables.last_log_id + 1
            &&& record.occurred_at == input.occurred_at
            &&& record.level == input.level
            &&& record.target == input.target
            &&& record.message == input.message
            &&& input.fields is None ==> record.fields is None
            &&& fields is Some && reads_back(input.fields->0) ==> record.fields == input.fields
        }),
{
    let after = with_runtime(tables, input, fields)->Ok_0;
    assert(after.runtime_logs.drop_last() =~= tables.runtime_logs);
}

/// A request that has begun is shown in progress, with the request that the client sent as its
/// only step.
pub proof fn law_begun_request_is_shown(
    tables: Tables,
    trace_id: Seq<char>,
    input: BeginTrace<Seq<char>, JsonView>,
    outcome: OutcomeView,
    shown: DetailView,
)
    requires
        consistent(tables),
        !has_trace(tables.traces, trace_id),
        reply_fits(Some(begin_payload(input)), outcome.reply),
        with_command(tables, (WriteCommand::Begin { trace_id, input }), outcome) is Ok,
        shows_trace(
            with_command(tables, (WriteCommand::Begin { trace_id, input }), outcome)->Ok_0,
            trace_id,
            Some(shown),
        ),
    ensures
        shown.trace.trace_id == trace_id,
        shown.trace.app_type == input.app_type,
        shown.trace.method == input.method,
        shown.trace.path == input.path,
        shown.trace.request_model == input.request_model,
        shown.trace.final_provider_id == input.provider_id,
        shown.trace.is_streaming == input.is_streaming,
        shown.trace.started_at == outcome.at,
        shown.trace.outcome == "in_progress"@,
        !shown.trace.partial,
        shown.events.len() == 1,
        shown.events[0].sequence == 1,
        shown.events[0].stage == "client_request"@,
{
    let row = begin_row(trace_id, input, outcome.at);
    let begun = with_trace(tables, row);
    let step = begin_step(trace_id, input);
    lemma_trace_keeps(tables, row);
    law_recorded_step_is_shown(begun, step, outcome.reply, outcome.event_at, shown);
    let ordered = choose|ordered: Seq<EventRow<Seq<char>>>| #[trigger]
        orders_events(begun.events, trace_id, ordered) && shows_events(
            begun.payloads,
            ordered,
            shown.events.drop_last(),
        );
    let keep = |row: EventRow<Seq<char>>| step_of(row, trace_id);
    assert forall|i: int| 0 <= i < tables.events.len() implies !keep(
        #[trigger] tables.events[i],
    ) by {
        assert(has_trace(tables.traces, tables.events[i].trace_id));
    }
    lemma_filter_none(tables.events, keep);
    lemma_same_contents(ordered, Seq::<EventRow<Seq<char>>>::empty());
    lemma_no_sequence(tables.events, trace_id);
    let after = with_step(begun, step, outcome.reply, outcome.event_at)->Ok_0;
    lemma_trace_is(after.traces, trace_id, tables.traces.len() as int);
}

/// A request without steps has no last number.
proof fn lemma_no_sequence(events: Seq<EventRow<Seq<char>>>, id: Seq<char>)
    requires
        forall|i: int| 0 <= i < events.len() ==> !step_of(#[trigger] events[i], id),
    ensures
        last_sequence(events, id) is None,
    decreases events.len(),
{
    if events.len() > 0 {
        let before = events.drop_last();
        assert forall|i: int| 0 <= i < before.len() implies !step_of(#[trigger] before[i], id) by {
            assert(before[i] == events[i]);
        }
        lemma_no_sequence(before, id);
        assert(!step_of(events[events.len() - 1], id));
    }
}

/// The request of an identifier is the one at its place, where there is no other of it.
proof fn lemma_trace_is(traces: Seq<TraceRow<Seq<char>>>, id: Seq<char>, at: int)
    requires
        0 <= at < traces.len(),
        traces[at].trace_id == id,
        forall|i: int| 0 <= i < at ==> (#[trigger] traces[i]).trace_id != id,
    ensures
        trace_of(traces, id) == Some(traces[at]),
    decreases at,
{
    if at > 0 {
        let rest = traces.drop_first();
        assert(traces[0].trace_id != id);
        assert forall|i: int| 0 <= i < at - 1 implies (#[trigger] rest[i]).trace_id != id by {
            assert(rest[i] == traces[i + 1]);
        }
        lemma_trace_is(rest, id, at - 1);
    }
}

} // verus!
