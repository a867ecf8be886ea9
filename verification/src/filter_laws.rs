//! Which requests and messages are listed for a query, and in what order.
use crate::json::JsonView;
use crate::query::{
    lists_logs, lists_traces, log_of, log_wanted, logs_view, newer_log, newer_trace, orders_logs,
    orders_traces, page, page_size, page_start, summaries_view, trace_allowed, trace_wanted,
    DEFAULT_LOGS, DEFAULT_TRACES, MAX_LOGS, MAX_TRACES,
};
use crate::read_laws::{lemma_one_log_order, lemma_one_trace_order};
use crate::records::{
    optional_text, RequestTraceSummary, RuntimeLogQuery, RuntimeLogRecord, TraceQuery,
};
use crate::sequences::{lemma_filter_contents, lemma_same_contents};
use crate::service::DiagnosticLogService;
use crate::shown_laws::{shows_message, shows_request};
use crate::store_laws::consistent;
use crate::tables::{summary_of, LogStore, RuntimeRow, Tables, TraceRow};
use crate::text::no_later;
use vstd::prelude::*;
use vstd::string::*;
use vstd::utf8::*;

verus! {

/// Whether bytes come before others: they are alike up to some place, and there the first have
/// ended and the others have not, or have the smaller byte.
pub open spec fn comes_before(one: Seq<u8>, other: Seq<u8>) -> bool {
    exists|k: int| #[trigger] differs_at(one, other, k)
}

/// Whether bytes are like others up to a place, and come before them there.
pub open spec fn differs_at(one: Seq<u8>, other: Seq<u8>, k: int) -> bool {
    &&& 0 <= k <= one.len()
    &&& k < other.len()
    &&& forall|i: int| 0 <= i < k ==> one[i] == other[i]
    &&& k == one.len() || one[k] < other[k]
}

/// Bytes come no later than others where those do not come before them.
pub proof fn lemma_comes_before(one: Seq<u8>, other: Seq<u8>)
    ensures
        no_later(one, other) == !comes_before(other, one),
    decreases one.len(),
{
    if one.len() == 0 {
        assert(!comes_before(other, one));
    } else if other.len() == 0 {
        assert(differs_at(other, one, 0));
    } else if one[0] < other[0] {
        if comes_before(other, one) {
            let k = choose|k: int| #[trigger] differs_at(other, one, k);
            assert(k == 0);
        }
    } else if one[0] > other[0] {
        assert(differs_at(other, one, 0));
    } else {
        let (first, second) = (one.drop_first(), other.drop_first());
        lemma_comes_before(first, second);
        if comes_before(second, first) {
            let k = choose|k: int| #[trigger] differs_at(second, first, k);
            assert forall|i: int| 0 <= i < k + 1 implies other[i] == one[i] by {
                if i > 0 {
                    assert(second[i - 1] == first[i - 1]);
                }
            }
            assert(differs_at(other, one, k + 1));
        }
        if comes_before(other, one) {
            let k = choose|k: int| #[trigger] differs_at(other, one, k);
            assert(k > 0);
            assert forall|i: int| 0 <= i < k - 1 implies second[i] == first[i] by {
                assert(other[i + 1] == one[i + 1]);
            }
            assert(differs_at(second, first, k - 1));
        }
    }
}

/// Whether a request has what a query asks for, its search left aside; what the query leaves open
/// may be anything.
pub open spec fn has_what_is_asked(row: TraceRow<Seq<char>>, query: TraceQuery) -> bool {
    &&& query.app_type matches Some(app) ==> row.app_type == app@
    &&& query.provider_id matches Some(id) ==> row.final_provider_id == Some(id@)
    &&& query.status_code matches Some(code) ==> row.status_code is Some && row.status_code->0
        == code
    &&& query.streaming matches Some(streaming) ==> row.is_streaming == if streaming {
        1int
    } else {
        0int
    }
    &&& query.cursor matches Some(cursor) ==> row.started_at < cursor.started_at || (row.started_at
        == cursor.started_at && comes_before(
        encode_utf8(row.trace_id),
        encode_utf8(cursor.trace_id@),
    ))
}

/// A query allows the requests that have what it asks for, its search left aside.
pub proof fn lemma_wanted(row: TraceRow<Seq<char>>, query: TraceQuery)
    ensures
        has_what_is_asked(row, query) == trace_allowed(row, query),
{
    if query.cursor is Some {
        lemma_comes_before(encode_utf8(query.cursor->0.trace_id@), encode_utf8(row.trace_id));
    }
}

/// The request in a place of a list is one of those that the query asks for, in their order.
pub proof fn lemma_listed(
    tables: Tables,
    query: TraceQuery,
    listed: Seq<RequestTraceSummary<Seq<char>>>,
) -> (ordered: Seq<TraceRow<Seq<char>>>)
    requires
        lists_traces(tables, query, listed),
    ensures
        orders_traces(tables.traces, query, ordered),
        listed == page(
            ordered,
            page_start(query.offset) as int,
            page_size(query.limit, DEFAULT_TRACES, MAX_TRACES) as int,
        ).map_values(|row: TraceRow<Seq<char>>| summary_of(row)),
        forall|row: TraceRow<Seq<char>>| #[trigger]
            ordered.contains(row) <==> tables.traces.contains(row) && trace_wanted(row, query),
        forall|i: int|
            0 <= i < listed.len() ==> page_start(query.offset) + i < ordered.len()
                && #[trigger] listed[i] == summary_of(ordered[page_start(query.offset) + i]),
{
    let (offset, size) = (
        page_start(query.offset) as int,
        page_size(query.limit, DEFAULT_TRACES, MAX_TRACES) as int,
    );
    let keep = |row: TraceRow<Seq<char>>| trace_wanted(row, query);
    let ordered = choose|ordered: Seq<TraceRow<Seq<char>>>| #[trigger]
        orders_traces(tables.traces, query, ordered) && listed == page(
            ordered,
            offset,
            size,
        ).map_values(|row: TraceRow<Seq<char>>| summary_of(row));
    lemma_filter_contents(tables.traces, keep);
    lemma_same_contents(ordered, tables.traces.filter(keep));
    assert forall|row: TraceRow<Seq<char>>| #[trigger]
        ordered.contains(row) <==> tables.traces.contains(row) && trace_wanted(row, query) by {
        assert(ordered.contains(row) == tables.traces.filter(keep).contains(row));
    }
    ordered
}

/// Every request that is listed shows the application, the provider, the status and the way of
/// answering that the query asks for, and stands behind the place that the query gives. It is one
/// of the log, shown as it is stored.
pub proof fn law_listed_requests_are_as_asked(
    service: &DiagnosticLogService,
    log: &LogStore,
    query: TraceQuery,
    listed: Vec<RequestTraceSummary>,
    i: int,
)
    requires
        call_ensures(DiagnosticLogService::list_traces, (service, log, &query), Ok(listed)),
        0 <= i < listed.len(),
    ensures
        query.app_type matches Some(app) ==> listed@[i].app_type@ == app@,
        query.provider_id matches Some(id) ==> listed@[i].final_provider_id is Some
            && listed@[i].final_provider_id->0@ == id@,
        query.status_code matches Some(code) ==> listed@[i].status_code == Some(code),
        query.streaming matches Some(streaming) ==> listed@[i].is_streaming == streaming,
        query.cursor matches Some(cursor) ==> listed@[i].started_at < cursor.started_at || (
        listed@[i].started_at == cursor.started_at && comes_before(
            encode_utf8(listed@[i].trace_id@),
            encode_utf8(cursor.trace_id@),
        )),
        exists|j: int|
            0 <= j < log@.traces.len() && shows_request(
                #[trigger] log@.traces[j],
                listed@[i]@,
            ),
{
    let shown = summaries_view(listed@);
    let ordered = lemma_listed(log@, query, shown);
    assert(shown[i] == listed@[i]@);
    let row = ordered[page_start(query.offset) + i];
    assert(ordered.contains(row));
    lemma_wanted(row, query);
    let j = log@.traces.index_of(row);
    assert(log@.traces[j] == row);
    assert(shows_request(log@.traces[j], listed@[i]@));
    assert(listed@[i]@.final_provider_id == optional_text(listed@[i].final_provider_id));
    assert(listed@[i]@.app_type == listed@[i].app_type@);
}

/// A list has at most as many requests as are asked for, a hundred where no number is asked for,
/// but never more than two hundred; a number below one asks for one. The newest request comes
/// first, and of those that started at the same time the one with the later identifier.
pub proof fn law_requests_are_listed_newest_first(
    service: &DiagnosticLogService,
    log: &LogStore,
    query: TraceQuery,
    listed: Vec<RequestTraceSummary>,
)
    requires
        call_ensures(DiagnosticLogService::list_traces, (service, log, &query), Ok(listed)),
    ensures
        query.limit is None ==> listed.len() <= 100,
        query.limit matches Some(limit) ==> listed.len() <= 200 && (limit == 0 ==> listed.len()
            <= 1) && (limit > 0 ==> listed.len() <= limit),
        forall|i: int, j: int|
            0 <= i < j < listed.len() ==> (#[trigger] listed@[i]).started_at > (
            #[trigger] listed@[j]).started_at || (listed@[i].started_at == listed@[j].started_at
                && !comes_before(
                encode_utf8(listed@[i].trace_id@),
                encode_utf8(listed@[j].trace_id@),
            )),
{
    let shown = summaries_view(listed@);
    let ordered = lemma_listed(log@, query, shown);
    let offset = page_start(query.offset) as int;
    assert(shown.len() == listed.len());
    assert forall|i: int, j: int| 0 <= i < j < listed.len() implies (
    #[trigger] listed@[i]).started_at > (#[trigger] listed@[j]).started_at || (
    listed@[i].started_at == listed@[j].started_at && !comes_before(
        encode_utf8(listed@[i].trace_id@),
        encode_utf8(listed@[j].trace_id@),
    )) by {
        assert(shown[i] == listed@[i]@ && shown[j] == listed@[j]@);
        assert(newer_trace(ordered[offset + i], ordered[offset + j]));
        lemma_comes_before(
            encode_utf8(ordered[offset + j].trace_id),
            encode_utf8(ordered[offset + i].trace_id),
        );
    }
}

/// How many requests a query asks for at most.
pub open spec fn asked_traces(limit: Option<u32>) -> int {
    match limit {
        None => 100,
        Some(number) => if number == 0 {
            1
        } else if number > 200 {
            200
        } else {
            number as int
        },
    }
}

/// Whether a request is one of those that are listed.
pub open spec fn request_is_listed(
    row: TraceRow<Seq<char>>,
    listed: Seq<RequestTraceSummary>,
) -> bool {
    exists|i: int| 0 <= i < listed.len() && shows_request(row, (#[trigger] listed[i])@)
}

/// A request that has what a query without a search asks for is listed, unless the list is as long
/// as was asked for with requests that stand no later than it.
pub proof fn law_requests_that_are_asked_for_are_listed(
    service: &DiagnosticLogService,
    log: &LogStore,
    query: TraceQuery,
    listed: Vec<RequestTraceSummary>,
    k: int,
)
    requires
        call_ensures(DiagnosticLogService::list_traces, (service, log, &query), Ok(listed)),
        query.query is None,
        query.offset is None || query.offset == Some(0u32),
        0 <= k < log@.traces.len(),
        has_what_is_asked(log@.traces[k], query),
    ensures
        request_is_listed(log@.traces[k], listed@) || (listed.len() == asked_traces(query.limit)
            && forall|i: int|
            0 <= i < listed.len() ==> (#[trigger] listed@[i]).started_at
                > log@.traces[k].started_at || (listed@[i].started_at == log@.traces[k].started_at
                && !comes_before(
                encode_utf8(listed@[i].trace_id@),
                encode_utf8(log@.traces[k].trace_id),
            ))),
{
    lemma_wanted(log@.traces[k], query);
    lemma_wanted_is_listed(log@, query, listed, k);
}

/// A request that a query asks for is listed, unless the list is full of requests that stand no
/// later.
pub proof fn lemma_wanted_is_listed(
    tables: Tables,
    query: TraceQuery,
    listed: Vec<RequestTraceSummary>,
    k: int,
)
    requires
        lists_traces(tables, query, summaries_view(listed@)),
        query.offset is None || query.offset == Some(0u32),
        0 <= k < tables.traces.len(),
        trace_wanted(tables.traces[k], query),
    ensures
        request_is_listed(tables.traces[k], listed@) || (listed.len() == asked_traces(query.limit)
            && forall|i: int|
            0 <= i < listed.len() ==> (#[trigger] listed@[i]).started_at
                > tables.traces[k].started_at || (listed@[i].started_at
                == tables.traces[k].started_at && !comes_before(
                encode_utf8(listed@[i].trace_id@),
                encode_utf8(tables.traces[k].trace_id),
            ))),
{
    let shown = summaries_view(listed@);
    let ordered = lemma_listed(tables, query, shown);
    let row = tables.traces[k];
    assert(shown.len() == listed.len());
    assert(tables.traces.contains(row));
    assert(ordered.contains(row));
    let at = ordered.index_of(row);
    if at < listed.len() {
        assert(shown[at] == listed@[at]@);
        assert(shown[at] == summary_of(row));
        assert(shows_request(row, listed@[at]@));
    } else {
        assert forall|i: int| 0 <= i < listed.len() implies (#[trigger] listed@[i]).started_at
            > row.started_at || (listed@[i].started_at == row.started_at && !comes_before(
            encode_utf8(listed@[i].trace_id@),
            encode_utf8(row.trace_id),
        )) by {
            assert(shown[i] == listed@[i]@);
            assert(newer_trace(ordered[i], ordered[at]));
            lemma_comes_before(encode_utf8(row.trace_id), encode_utf8(ordered[i].trace_id));
        }
    }
}

/// An offset leaves out so many requests at the beginning of the list and no other: what stands in
/// a place of the list stands so many places later in the list without an offset.
pub proof fn law_offsets_leave_out_the_first(
    service: &DiagnosticLogService,
    log: &LogStore,
    query: TraceQuery,
    listed: Vec<RequestTraceSummary>,
    whole: TraceQuery,
    all: Vec<RequestTraceSummary>,
    offset: u32,
    i: int,
)
    requires
        call_ensures(DiagnosticLogService::list_traces, (service, log, &query), Ok(listed)),
        call_ensures(DiagnosticLogService::list_traces, (service, log, &whole), Ok(all)),
        consistent(log@),
        query.offset == Some(offset),
        whole == (TraceQuery { offset: None, limit: whole.limit, ..query }),
        0 <= i < asked_traces(query.limit),
    ensures
        offset + i < all.len() ==> i < listed.len() && listed@[i]@ == all@[offset + i]@,
        all.len() < asked_traces(whole.limit) && offset + i >= all.len() ==> i >= listed.len(),
{
    let (shown, every) = (summaries_view(listed@), summaries_view(all@));
    let ordered = lemma_listed(log@, query, shown);
    let others = lemma_listed(log@, whole, every);
    assert((|row: TraceRow<Seq<char>>| trace_wanted(row, query)) =~= (|row: TraceRow<Seq<char>>|
        trace_wanted(row, whole)));
    assert(orders_traces(log@.traces, query, others));
    lemma_one_trace_order(log@.traces, query, ordered, others);
    assert(shown.len() == listed.len() && every.len() == all.len());
    if offset + i < all.len() {
        assert(every[offset + i] == all@[offset + i]@);
        assert(i < listed.len());
        assert(shown[i] == listed@[i]@);
    }
}

/// Whether a message has what a query asks for, its searches left aside; what the query leaves open
/// may be anything.
pub open spec fn message_has_what_is_asked(
    row: RuntimeRow<Seq<char>>,
    query: RuntimeLogQuery,
) -> bool {
    &&& query.level matches Some(level) ==> row.level == level@
    &&& query.cursor matches Some(cursor) ==> row.occurred_at < cursor.occurred_at || (
    row.occurred_at == cursor.occurred_at && row.log_id < cursor.log_id)
}

/// The message in a place of a list is one of those that the query asks for, in their order.
pub proof fn lemma_listed_logs(
    tables: Tables,
    query: RuntimeLogQuery,
    listed: Seq<RuntimeLogRecord<Seq<char>, JsonView>>,
) -> (ordered: Seq<RuntimeRow<Seq<char>>>)
    requires
        lists_logs(tables, query, listed),
    ensures
        orders_logs(tables.runtime_logs, query, ordered),
        listed == page(
            ordered,
            page_start(query.offset) as int,
            page_size(query.limit, DEFAULT_LOGS, MAX_LOGS) as int,
        ).map_values(|row: RuntimeRow<Seq<char>>| log_of(row)),
        forall|row: RuntimeRow<Seq<char>>| #[trigger]
            ordered.contains(row) <==> tables.runtime_logs.contains(row) && log_wanted(row, query),
        forall|i: int|
            0 <= i < listed.len() ==> page_start(query.offset) + i < ordered.len()
                && #[trigger] listed[i] == log_of(ordered[page_start(query.offset) + i]),
{
    let (offset, size) = (
        page_start(query.offset) as int,
        page_size(query.limit, DEFAULT_LOGS, MAX_LOGS) as int,
    );
    let keep = |row: RuntimeRow<Seq<char>>| log_wanted(row, query);
    let ordered = choose|ordered: Seq<RuntimeRow<Seq<char>>>| #[trigger]
        orders_logs(tables.runtime_logs, query, ordered) && listed == page(
            ordered,
            offset,
            size,
        ).map_values(|row: RuntimeRow<Seq<char>>| log_of(row));
    lemma_filter_contents(tables.runtime_logs, keep);
    lemma_same_contents(ordered, tables.runtime_logs.filter(keep));
    assert forall|row: RuntimeRow<Seq<char>>| #[trigger]
        ordered.contains(row) <==> tables.runtime_logs.contains(row) && log_wanted(row, query) by {
        assert(ordered.contains(row) == tables.runtime_logs.filter(keep).contains(row));
    }
    ordered
}

/// Every message that is listed has the level that the query asks for, and stands behind the place
/// that the query gives. It is one of the log, shown as it is stored.
pub proof fn law_listed_messages_are_as_asked(
    service: &DiagnosticLogService,
    log: &LogStore,
    query: RuntimeLogQuery,
    listed: Vec<RuntimeLogRecord>,
    i: int,
)
    requires
        call_ensures(DiagnosticLogService::list_runtime_logs, (service, log, &query), Ok(listed)),
        0 <= i < listed.len(),
    ensures
        query.level matches Some(level) ==> listed@[i].level@ == level@,
        query.cursor matches Some(cursor) ==> listed@[i].occurred_at < cursor.occurred_at || (
        listed@[i].occurred_at == cursor.occurred_at && listed@[i].log_id < cursor.log_id),
        exists|j: int|
            0 <= j < log@.runtime_logs.len() && shows_message(
                #[trigger] log@.runtime_logs[j],
                listed@[i]@,
            ),
{
    let shown = logs_view(listed@);
    let ordered = lemma_listed_logs(log@, query, shown);
    assert(shown[i] == listed@[i]@);
    let row = ordered[page_start(query.offset) + i];
    assert(ordered.contains(row));
    let j = log@.runtime_logs.index_of(row);
    assert(log@.runtime_logs[j] == row);
    assert(shows_message(log@.runtime_logs[j], listed@[i]@));
    assert(listed@[i]@.level == listed@[i].level@);
}

/// A list has at most as many messages as are asked for, two hundred where no number is asked for,
/// but never more than five hundred; a number below one asks for one. The newest message comes
/// first, and of those that occurred at the same time the one that was stored later.
pub proof fn law_messages_are_listed_newest_first(
    service: &DiagnosticLogService,
    log: &LogStore,
    query: RuntimeLogQuery,
    listed: Vec<RuntimeLogRecord>,
)
    requires
        call_ensures(DiagnosticLogService::list_runtime_logs, (service, log, &query), Ok(listed)),
    ensures
        query.limit is None ==> listed.len() <= 200,
        query.limit matches Some(limit) ==> listed.len() <= 500 && (limit == 0 ==> listed.len()
            <= 1) && (limit > 0 ==> listed.len() <= limit),
        forall|i: int, j: int|
            0 <= i < j < listed.len() ==> (#[trigger] listed@[i]).occurred_at > (
            #[trigger] listed@[j]).occurred_at || (listed@[i].occurred_at == listed@[j].occurred_at
                && listed@[i].log_id >= listed@[j].log_id),
{
    let shown = logs_view(listed@);
    let ordered = lemma_listed_logs(log@, query, shown);
    let offset = page_start(query.offset) as int;
    assert(shown.len() == listed.len());
    assert forall|i: int, j: int| 0 <= i < j < listed.len() implies (
    #[trigger] listed@[i]).occurred_at > (#[trigger] listed@[j]).occurred_at || (
    listed@[i].occurred_at == listed@[j].occurred_at && listed@[i].log_id >= listed@[j].log_id) by {
        assert(shown[i] == listed@[i]@ && shown[j] == listed@[j]@);
        assert(newer_log(ordered[offset + i], ordered[offset + j]));
    }
}

/// How many messages a query asks for at most.
pub open spec fn asked_logs(limit: Option<u32>) -> int {
    match limit {
        None => 200,
        Some(number) => if number == 0 {
            1
        } else if number > 500 {
            500
        } else {
            number as int
        },
    }
}

/// Whether a message is one of those that are listed.
pub open spec fn message_is_listed(
    row: RuntimeRow<Seq<char>>,
    listed: Seq<RuntimeLogRecord>,
) -> bool {
    exists|i: int| 0 <= i < listed.len() && shows_message(row, (#[trigger] listed[i])@)
}

/// A message that has what a query without searches asks for is listed, unless the list is as long
/// as was asked for with messages that stand no later than it.
pub proof fn law_messages_that_are_asked_for_are_listed(
    service: &DiagnosticLogService,
    log: &LogStore,
    query: RuntimeLogQuery,
    listed: Vec<RuntimeLogRecord>,
    k: int,
)
    requires
        call_ensures(DiagnosticLogService::list_runtime_logs, (service, log, &query), Ok(listed)),
        query.query is None,
        query.target is None,
        query.offset is None || query.offset == Some(0u32),
        0 <= k < log@.runtime_logs.len(),
        message_has_what_is_asked(log@.runtime_logs[k], query),
    ensures
        message_is_listed(log@.runtime_logs[k], listed@) || (listed.len() == asked_logs(query.limit)
            && forall|i: int|
            0 <= i < listed.len() ==> (#[trigger] listed@[i]).occurred_at
                > log@.runtime_logs[k].occurred_at || (listed@[i].occurred_at
                == log@.runtime_logs[k].occurred_at && listed@[i].log_id
                >= log@.runtime_logs[k].log_id)),
{
    lemma_wanted_log_is_listed(log@, query, listed, k);
}

pub proof fn lemma_wanted_log_is_listed(
    tables: Tables,
    query: RuntimeLogQuery,
    listed: Vec<RuntimeLogRecord>,
    k: int,
)
    requires
        lists_logs(tables, query, logs_view(listed@)),
        query.offset is None || query.offset == Some(0u32),
        0 <= k < tables.runtime_logs.len(),
        log_wanted(tables.runtime_logs[k], query),
    ensures
        message_is_listed(tables.runtime_logs[k], listed@) || (listed.len() == asked_logs(
            query.limit,
        ) && forall|i: int|
            0 <= i < listed.len() ==> (#[trigger] listed@[i]).occurred_at
                > tables.runtime_logs[k].occurred_at || (listed@[i].occurred_at
                == tables.runtime_logs[k].occurred_at && listed@[i].log_id
                >= tables.runtime_logs[k].log_id)),
{
    let shown = logs_view(listed@);
    let ordered = lemma_listed_logs(tables, query, shown);
    let row = tables.runtime_logs[k];
    assert(shown.len() == listed.len());
    assert(tables.runtime_logs.contains(row));
    assert(ordered.contains(row));
    let at = ordered.index_of(row);
    if at < listed.len() {
        assert(shown[at] == listed@[at]@);
        assert(shown[at] == log_of(row));
        assert(shows_message(row, listed@[at]@));
    } else {
        assert forall|i: int| 0 <= i < listed.len() implies (#[trigger] listed@[i]).occurred_at
            > row.occurred_at || (listed@[i].occurred_at == row.occurred_at && listed@[i].log_id
            >= row.log_id) by {
            assert(shown[i] == listed@[i]@);
            assert(newer_log(ordered[i], ordered[at]));
        }
    }
}

/// An offset leaves out so many messages at the beginning of the list and no other.
pub proof fn law_offsets_leave_out_the_first_messages(
    service: &DiagnosticLogService,
    log: &LogStore,
    query: RuntimeLogQuery,
    listed: Vec<RuntimeLogRecord>,
    whole: RuntimeLogQuery,
    all: Vec<RuntimeLogRecord>,
    offset: u32,
    i: int,
)
    requires
        call_ensures(DiagnosticLogService::list_runtime_logs, (service, log, &query), Ok(listed)),
        call_ensures(DiagnosticLogService::list_runtime_logs, (service, log, &whole), Ok(all)),
        consistent(log@),
        query.offset == Some(offset),
        whole == (RuntimeLogQuery { offset: None, limit: whole.limit, ..query }),
        0 <= i < asked_logs(query.limit),
    ensures
        offset + i < all.len() ==> i < listed.len() && listed@[i]@ == all@[offset + i]@,
        all.len() < asked_logs(whole.limit) && offset + i >= all.len() ==> i >= listed.len(),
{
    let (shown, every) = (logs_view(listed@), logs_view(all@));
    let ordered = lemma_listed_logs(log@, query, shown);
    let others = lemma_listed_logs(log@, whole, every);
    assert((|row: RuntimeRow<Seq<char>>| log_wanted(row, query)) =~= (|row: RuntimeRow<Seq<char>>|
        log_wanted(row, whole)));
    assert(orders_logs(log@.runtime_logs, query, others));
    lemma_one_log_order(log@, query, ordered, others);
    assert(shown.len() == listed.len() && every.len() == all.len());
    if offset + i < all.len() {
        assert(every[offset + i] == all@[offset + i]@);
        assert(i < listed.len());
        assert(shown[i] == listed@[i]@);
    }
}

} // verus!
