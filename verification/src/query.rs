//! How the log is read.
use crate::json::{json_parse, optional_json, Json, JsonView};
use crate::like::{before_nul, cut_at_nul, finds, is_found, is_too_long, like, MAX_PATTERN_BYTES};
use crate::payload::{decode_payload, may_decode};
use crate::records::{
    optional_text, records_view, DetailView, LogCursor, RequestTraceDetail, RequestTraceSummary,
    RuntimeLogQuery, RuntimeLogRecord, TraceCursor, TraceEventRecord, TraceQuery,
};
use crate::sequences::lemma_map_multiset;
use crate::sort::{held, sort_rows, Ranked};
use crate::tables::{
    at_least_zero, bool_to_i64, copy_text, count, event_rows, flag, map_trace_summary, runtime_rows,
    status_of, summary_of, trace_rows, EventRow, LogStore, PayloadRow, RuntimeRow, Tables, TraceRow,
};
use crate::text::{
    byte_len, is_no_later, lemma_no_later_total, lemma_no_later_transitive, no_later, same_text,
    trim, trimmed,
};
use vstd::prelude::*;
use vstd::string::*;
use vstd::utf8::encode_utf8;

verus! {

/// Whether a request may stand before another in a list: it started later, or at the same time
/// and its identifier comes no earlier.
pub open spec fn newer_trace(one: TraceRow<Seq<char>>, other: TraceRow<Seq<char>>) -> bool {
    one.started_at > other.started_at || (one.started_at == other.started_at && no_later(
        encode_utf8(other.trace_id),
        encode_utf8(one.trace_id),
    ))
}

impl Ranked for TraceRow {
    open spec fn may_precede(self, other: Self) -> bool {
        newer_trace(self@, other@)
    }

    proof fn total(one: Self, other: Self) {
        lemma_no_later_total(encode_utf8(one.trace_id@), encode_utf8(other.trace_id@));
    }

    proof fn transitive(first: Self, second: Self, third: Self) {
        if first.started_at == second.started_at && second.started_at == third.started_at {
            lemma_no_later_transitive(
                encode_utf8(third.trace_id@),
                encode_utf8(second.trace_id@),
                encode_utf8(first.trace_id@),
            );
        }
    }

    fn precedes(&self, other: &Self) -> (may: bool) {
        self.started_at > other.started_at || (self.started_at == other.started_at && is_no_later(
            other.trace_id.as_str(),
            self.trace_id.as_str(),
        ))
    }
}

/// Whether a step comes no later than another.
pub open spec fn earlier_step(one: EventRow<Seq<char>>, other: EventRow<Seq<char>>) -> bool {
    one.sequence <= other.sequence
}

impl Ranked for EventRow {
    open spec fn may_precede(self, other: Self) -> bool {
        earlier_step(self@, other@)
    }

    proof fn total(one: Self, other: Self) {
    }

    proof fn transitive(first: Self, second: Self, third: Self) {
    }

    fn precedes(&self, other: &Self) -> (may: bool) {
        self.sequence <= other.sequence
    }
}

/// Whether a message may stand before another in a list: it occurred later, or at the same time
/// and was stored no earlier.
pub open spec fn newer_log(one: RuntimeRow<Seq<char>>, other: RuntimeRow<Seq<char>>) -> bool {
    one.occurred_at > other.occurred_at || (one.occurred_at == other.occurred_at && one.log_id
        >= other.log_id)
}

impl Ranked for RuntimeRow {
    open spec fn may_precede(self, other: Self) -> bool {
        newer_log(self@, other@)
    }

    proof fn total(one: Self, other: Self) {
    }

    proof fn transitive(first: Self, second: Self, third: Self) {
    }

    fn precedes(&self, other: &Self) -> (may: bool) {
        self.occurred_at > other.occurred_at || (self.occurred_at == other.occurred_at
            && self.log_id >= other.log_id)
    }
}

/// The pattern of a search: the text without white space at its ends, anywhere.
pub open spec fn search_pattern(text: Seq<char>) -> Seq<char> {
    seq!['%'] + trimmed(text) + seq!['%']
}

/// Whether a search has a pattern that is too long.
pub open spec fn too_complex(text: Option<String>) -> bool {
    text matches Some(held) && byte_len(search_pattern(held@)) > MAX_PATTERN_BYTES
}

/// The pattern of a search, ready to be used: cut at NUL, with a mark whether it is too long.
struct Pattern {
    chars: Vec<char>,
    too_long: bool,
}

/// Whether this is the pattern of a search.
spec fn pattern_of(pattern: Option<Pattern>, text: Option<String>) -> bool {
    match pattern {
        Some(made) => text is Some && made.chars@ == before_nul(search_pattern(text->0@))
            && made.too_long == too_complex(text),
        None => text is None,
    }
}

/// Makes the pattern of a search.
fn make_pattern(text: &Option<String>) -> (pattern: Option<Pattern>)
    ensures
        pattern_of(pattern, *text),
{
    match text {
        Some(held) => {
            let inner = trim(held.as_str());
            let mut chars: Vec<char> = Vec::new();
            chars.push('%');
            for i in 0..inner.len()
                invariant
                    chars@ == seq!['%'] + inner@.take(i as int),
            {
                chars.push(inner[i]);
                assert(inner@.take(i + 1) == inner@.take(i as int).push(inner@[i as int]));
            }
            assert(inner@.take(inner.len() as int) == inner@);
            chars.push('%');
            assert(chars@ =~= search_pattern(held@));
            Some(Pattern { chars: cut_at_nul(&chars), too_long: is_too_long(&chars) })
        },
        None => None,
    }
}

/// Tells whether a pattern is too long.
fn is_too_complex(pattern: &Option<Pattern>) -> (is: bool)
    ensures
        is == (pattern matches Some(made) && made.too_long),
{
    match pattern {
        Some(made) => made.too_long,
        None => false,
    }
}

/// Whether a column, if it holds anything, matches a pattern.
pub open spec fn column_found(column: Option<Seq<char>>, pattern: Seq<char>) -> bool {
    column matches Some(text) && finds(pattern, text)
}

fn is_column_found(column: &Option<String>, pattern: &Vec<char>) -> (is: bool)
    ensures
        is == (optional_text(*column) matches Some(text) && like(pattern@, before_nul(text))),
{
    match column {
        Some(text) => is_found(pattern, text.as_str()),
        None => false,
    }
}

/// Whether a search finds a request: in its identifier, its models, its path or its provider.
pub open spec fn trace_found(row: TraceRow<Seq<char>>, pattern: Seq<char>) -> bool {
    ||| finds(pattern, row.trace_id)
    ||| column_found(row.request_model, pattern)
    ||| column_found(row.response_model, pattern)
    ||| finds(pattern, row.path)
    ||| column_found(row.final_provider_id, pattern)
}

/// Whether a request stands behind a place in a list.
pub open spec fn trace_behind(row: TraceRow<Seq<char>>, cursor: TraceCursor) -> bool {
    row.started_at < cursor.started_at || (row.started_at == cursor.started_at && !no_later(
        encode_utf8(cursor.trace_id@),
        encode_utf8(row.trace_id),
    ))
}

/// Whether a query allows a request, its search left aside. What the query leaves open may be
/// anything.
pub open spec fn trace_allowed(row: TraceRow<Seq<char>>, query: TraceQuery) -> bool {
    &&& query.app_type matches Some(app) ==> row.app_type == app@
    &&& query.provider_id matches Some(provider) ==> row.final_provider_id == Some(provider@)
    &&& query.status_code matches Some(code) ==> row.status_code == Some(code as i64)
    &&& query.streaming matches Some(streaming) ==> row.is_streaming == flag(streaming)
    &&& query.cursor matches Some(cursor) ==> trace_behind(row, cursor)
}

/// Whether a query asks for a request.
pub open spec fn trace_wanted(row: TraceRow<Seq<char>>, query: TraceQuery) -> bool {
    &&& trace_allowed(row, query)
    &&& query.query matches Some(text) ==> trace_found(row, search_pattern(text@))
}

/// Tells whether a query allows a request, its search left aside.
fn is_trace_allowed(row: &TraceRow, query: &TraceQuery) -> (is: bool)
    ensures
        is == trace_allowed(row@, *query),
{
    let app = match &query.app_type {
        Some(app) => same_text(row.app_type.as_str(), app.as_str()),
        None => true,
    };
    let provider = match &query.provider_id {
        Some(provider) => match &row.final_provider_id {
            Some(held) => same_text(held.as_str(), provider.as_str()),
            None => false,
        },
        None => true,
    };
    let status = match query.status_code {
        Some(code) => match row.status_code {
            Some(held) => held == code as i64,
            None => false,
        },
        None => true,
    };
    let streaming = match query.streaming {
        Some(streaming) => row.is_streaming == bool_to_i64(streaming),
        None => true,
    };
    let behind = match &query.cursor {
        Some(cursor) => row.started_at < cursor.started_at || (row.started_at == cursor.started_at
            && !is_no_later(cursor.trace_id.as_str(), row.trace_id.as_str())),
        None => true,
    };
    app && provider && status && streaming && behind
}

/// Tells whether a query asks for a request, given the pattern of its search.
fn is_trace_wanted(row: &TraceRow, query: &TraceQuery, search: &Option<Pattern>) -> (is: bool)
    requires
        pattern_of(*search, query.query),
    ensures
        is == trace_wanted(row@, *query),
{
    let found = match search {
        Some(made) => {
            let pattern = &made.chars;
            is_found(pattern, row.trace_id.as_str()) || is_column_found(
                &row.request_model,
                pattern,
            ) || is_column_found(&row.response_model, pattern) || is_found(
                pattern,
                row.path.as_str(),
            ) || is_column_found(&row.final_provider_id, pattern)
        },
        None => true,
    };
    found && is_trace_allowed(row, query)
}

/// The number of entries that a list has at most: what is asked for, or a default, but at least
/// one and at most so many.
pub open spec fn page_size(asked: Option<u32>, default: u32, most: u32) -> u32 {
    let size = match asked {
        Some(number) => number,
        None => default,
    };
    if size < 1 {
        1
    } else if size > most {
        most
    } else {
        size
    }
}

fn size_page(asked: Option<u32>, default: u32, most: u32) -> (size: u32)
    ensures
        size == page_size(asked, default, most),
{
    let size = match asked {
        Some(number) => number,
        None => default,
    };
    if size < 1 {
        1
    } else if size > most {
        most
    } else {
        size
    }
}

/// The number of entries that a list leaves out at its start.
pub open spec fn page_start(asked: Option<u32>) -> u32 {
    match asked {
        Some(number) => number,
        None => 0,
    }
}

/// The part of a sequence from an offset on, as long as there is more, but at most so many.
pub open spec fn page<A>(items: Seq<A>, offset: int, size: int) -> Seq<A> {
    if offset >= items.len() {
        Seq::empty()
    } else if offset + size >= items.len() {
        items.skip(offset)
    } else {
        items.subrange(offset, offset + size)
    }
}

/// The bounds of a page.
fn bound_page(len: usize, offset: u32, size: u32) -> (bounds: (usize, usize))
    ensures
        bounds.0 <= bounds.1 <= len,
        bounds.0 == if offset >= len {
            len as int
        } else {
            offset as int
        },
        bounds.1 == if offset + size >= len {
            len as int
        } else {
            offset + size
        },
{
    let start = offset as u64;
    let end: u64 = start + size as u64;
    let all = len as u64;
    let from = if start >= all {
        len
    } else {
        start as usize
    };
    let to = if end >= all {
        len
    } else {
        end as usize
    };
    (from, to)
}

/// How many requests a list has where no number is asked for.
pub const DEFAULT_TRACES: u32 = 100;

/// How many requests a list has at most.
pub const MAX_TRACES: u32 = 200;

/// How many messages a list has where no number is asked for.
pub const DEFAULT_LOGS: u32 = 200;

/// How many messages a list has at most.
pub const MAX_LOGS: u32 = 500;

/// Whether these are the requests that a query asks for, the newest first.
pub open spec fn orders_traces(
    traces: Seq<TraceRow<Seq<char>>>,
    query: TraceQuery,
    ordered: Seq<TraceRow<Seq<char>>>,
) -> bool {
    &&& ordered.to_multiset() == traces.filter(
        |row: TraceRow<Seq<char>>| trace_wanted(row, query),
    ).to_multiset()
    &&& forall|i: int, j: int|
        0 <= i < j < ordered.len() ==> newer_trace(#[trigger] ordered[i], #[trigger] ordered[j])
}

/// Whether this is what is listed for a query: one page of the requests that it asks for.
pub open spec fn lists_traces(
    tables: Tables,
    query: TraceQuery,
    listed: Seq<RequestTraceSummary<Seq<char>>>,
) -> bool {
    exists|ordered: Seq<TraceRow<Seq<char>>>| #[trigger]
        orders_traces(tables.traces, query, ordered) && listed == page(
            ordered,
            page_start(query.offset) as int,
            page_size(query.limit, DEFAULT_TRACES, MAX_TRACES) as int,
        ).map_values(|row: TraceRow<Seq<char>>| summary_of(row))
}

/// Whether the search of a query fails: its pattern is too long, and there is a request to which
/// it would be applied.
pub open spec fn trace_search_fails(tables: Tables, query: TraceQuery) -> bool {
    too_complex(query.query) && exists|i: int|
        0 <= i < tables.traces.len() && trace_allowed(#[trigger] tables.traces[i], query)
}

/// Whether this is the answer to a query: what is listed for it, or an error where its search
/// fails.
pub open spec fn answers_traces(
    tables: Tables,
    query: TraceQuery,
    answer: Result<Vec<RequestTraceSummary>, String>,
) -> bool {
    match answer {
        Ok(listed) => !trace_search_fails(tables, query) && lists_traces(
            tables,
            query,
            summaries_view(listed@),
        ),
        Err(error) => trace_search_fails(tables, query) && error@
            == "LIKE or GLOB pattern too complex"@,
    }
}

/// What listed requests are.
pub open spec fn summaries_view(listed: Seq<RequestTraceSummary>) -> Seq<
    RequestTraceSummary<Seq<char>>,
> {
    listed.map_values(|summary: RequestTraceSummary| summary@)
}

impl LogStore {
    /// The requests that a query asks for.
    fn pick_traces(&self, query: &TraceQuery, search: &Option<Pattern>) -> (picked: Vec<&TraceRow>)
        requires
            pattern_of(*search, query.query),
        ensures
            trace_rows(held(picked@)) == self@.traces.filter(
                |row: TraceRow<Seq<char>>| trace_wanted(row, *query),
            ),
    {
        let ghost keep = |row: TraceRow<Seq<char>>| trace_wanted(row, *query);
        let mut picked: Vec<&TraceRow> = Vec::new();
        proof {
            reveal(Seq::filter);
        }
        assert(trace_rows(held(picked@)) =~= self@.traces.take(0).filter(keep));
        for i in 0..self.traces.len()
            invariant
                keep == (|row: TraceRow<Seq<char>>| trace_wanted(row, *query)),
                pattern_of(*search, query.query),
                trace_rows(held(picked@)) == self@.traces.take(i as int).filter(keep),
        {
            let ghost before = picked@;
            let ghost row = self.traces@[i as int];
            proof {
                self@.traces.take(i as int).lemma_filter_push(row@, keep);
                assert(self@.traces.take(i + 1) == self@.traces.take(i as int).push(row@));
            }
            if is_trace_wanted(&self.traces[i], query, search) {
                picked.push(&self.traces[i]);
                assert(trace_rows(held(picked@)) =~= trace_rows(held(before)).push(row@));
            }
        }
        assert(self@.traces.take(self.traces.len() as int) == self@.traces);
        picked
    }

    /// Tells whether a query allows a request, its search left aside.
    fn allows_trace(&self, query: &TraceQuery) -> (allows: bool)
        ensures
            allows == exists|i: int|
                0 <= i < self@.traces.len() && trace_allowed(#[trigger] self@.traces[i], *query),
    {
        for i in 0..self.traces.len()
            invariant
                forall|j: int|
                    0 <= j < i ==> !trace_allowed(#[trigger] self@.traces[j], *query),
        {
            let allowed = is_trace_allowed(&self.traces[i], query);
            assert(self@.traces[i as int] == self.traces@[i as int]@);
            if allowed {
                return true;
            }
        }
        false
    }

    /// Lists the requests that a query asks for.
    pub(crate) fn select_traces(&self, query: &TraceQuery) -> (answer: Result<
        Vec<RequestTraceSummary>,
        String,
    >)
        ensures
            answers_traces(self@, *query, answer),
    {
        let search = make_pattern(&query.query);
        if is_too_complex(&search) && self.allows_trace(query) {
            return Err("LIKE or GLOB pattern too complex".to_owned());
        }
        let picked = self.pick_traces(query, &search);
        let ghost found = held(picked@);
        let ordered = sort_rows(picked);
        let ghost rows = trace_rows(held(ordered@));
        proof {
            let view = |row: TraceRow| row@;
            lemma_map_multiset(held(ordered@), found, view);
            assert forall|i: int, j: int| 0 <= i < j < rows.len() implies newer_trace(
                #[trigger] rows[i],
                #[trigger] rows[j],
            ) by {
                assert(held(ordered@)[i].may_precede(held(ordered@)[j]));
            }
            assert(orders_traces(self@.traces, *query, rows));
        }
        let size = size_page(query.limit, DEFAULT_TRACES, MAX_TRACES);
        let offset = match query.offset {
            Some(number) => number,
            None => 0,
        };
        let (from, to) = bound_page(ordered.len(), offset, size);
        let mut listed: Vec<RequestTraceSummary> = Vec::new();
        for i in from..to
            invariant
                from <= to <= ordered.len(),
                rows == trace_rows(held(ordered@)),
                summaries_view(listed@) == rows.subrange(from as int, i as int).map_values(
                    |row: TraceRow<Seq<char>>| summary_of(row),
                ),
        {
            let ghost before = listed@;
            let summary = map_trace_summary(ordered[i]);
            let ghost new = summary@;
            listed.push(summary);
            assert(summaries_view(listed@) =~= summaries_view(before).push(new));
            assert(rows.subrange(from as int, i + 1) == rows.subrange(from as int, i as int).push(
                rows[i as int],
            ));
            assert(summaries_view(listed@) =~= rows.subrange(from as int, i + 1).map_values(
                |row: TraceRow<Seq<char>>| summary_of(row),
            ));
        }
        assert(rows.subrange(from as int, to as int) =~= page(rows, offset as int, size as int));
        Ok(listed)
    }
}

/// The first request of that identifier, if there is one.
pub open spec fn trace_of(traces: Seq<TraceRow<Seq<char>>>, id: Seq<char>) -> Option<
    TraceRow<Seq<char>>,
>
    decreases traces.len(),
{
    if traces.len() == 0 {
        None
    } else if traces[0].trace_id == id {
        Some(traces[0])
    } else {
        trace_of(traces.drop_first(), id)
    }
}

/// The first payload of that identifier, if there is one.
pub open spec fn payload_of(
    payloads: Seq<PayloadRow<Seq<char>, Seq<u8>>>,
    id: Option<i64>,
) -> Option<PayloadRow<Seq<char>, Seq<u8>>>
    decreases payloads.len(),
{
    if payloads.len() == 0 || id is None {
        None
    } else if payloads[0].payload_id == id->0 {
        Some(payloads[0])
    } else {
        payload_of(payloads.drop_first(), id)
    }
}

/// What is shown of a step, given its payload as read and whether that was cut.
pub open spec fn record_of(
    row: EventRow<Seq<char>>,
    payload: Option<JsonView>,
    truncated: bool,
) -> TraceEventRecord<Seq<char>, JsonView> {
    TraceEventRecord {
        event_id: row.event_id,
        sequence: row.sequence,
        occurred_at: row.occurred_at,
        offset_ms: count(row.offset_ms) as u64,
        stage: row.stage,
        kind: row.kind,
        attempt_no: match row.attempt_no {
            Some(number) => Some(count(number) as u32),
            None => None,
        },
        provider_id: row.provider_id,
        status_code: status_of(row.status_code),
        summary: row.summary,
        payload,
        truncated,
    }
}

/// Shows a step, given its payload as read and whether that was cut.
pub fn show_event(row: &EventRow, payload: Option<Json>, truncated: bool) -> (record:
    TraceEventRecord)
    ensures
        record@ == record_of(row@, optional_json(payload), truncated),
{
    TraceEventRecord {
        event_id: row.event_id,
        sequence: row.sequence,
        occurred_at: row.occurred_at,
        offset_ms: at_least_zero(row.offset_ms) as u64,
        stage: row.stage.clone(),
        kind: row.kind.clone(),
        attempt_no: match row.attempt_no {
            Some(number) => Some(at_least_zero(number) as u32),
            None => None,
        },
        provider_id: copy_text(&row.provider_id),
        status_code: match row.status_code {
            Some(code) => Some(code as u16),
            None => None,
        },
        summary: copy_text(&row.summary),
        payload,
        truncated,
    }
}

/// Whether reading a payload may give that: what it stands for, or nothing where it is
/// compressed and decompressing failed.
pub open spec fn may_read(
    payload: Option<PayloadRow<Seq<char>, Seq<u8>>>,
    read: Option<JsonView>,
) -> bool {
    match payload {
        Some(row) => may_decode(row.encoding, row.body, read),
        None => read is None,
    }
}

/// Whether this is what is shown of a step.
pub open spec fn shows_event(
    payloads: Seq<PayloadRow<Seq<char>, Seq<u8>>>,
    row: EventRow<Seq<char>>,
    record: TraceEventRecord<Seq<char>, JsonView>,
) -> bool {
    let payload = payload_of(payloads, row.payload_id);
    &&& may_read(payload, record.payload)
    &&& record == record_of(
        row,
        record.payload,
        payload matches Some(stored) && stored.truncated != 0,
    )
}

/// Whether a step is one of a request.
pub open spec fn step_of(row: EventRow<Seq<char>>, id: Seq<char>) -> bool {
    row.trace_id == id
}

/// Whether these are the steps of a request, in order.
pub open spec fn orders_events(
    events: Seq<EventRow<Seq<char>>>,
    id: Seq<char>,
    ordered: Seq<EventRow<Seq<char>>>,
) -> bool {
    &&& ordered.to_multiset() == events.filter(
        |row: EventRow<Seq<char>>| step_of(row, id),
    ).to_multiset()
    &&& forall|i: int, j: int|
        0 <= i < j < ordered.len() ==> earlier_step(#[trigger] ordered[i], #[trigger] ordered[j])
}

/// Whether these are what is shown of steps, each of one.
pub open spec fn shows_events(
    payloads: Seq<PayloadRow<Seq<char>, Seq<u8>>>,
    ordered: Seq<EventRow<Seq<char>>>,
    records: Seq<TraceEventRecord<Seq<char>, JsonView>>,
) -> bool {
    &&& records.len() == ordered.len()
    &&& forall|i: int|
        0 <= i < records.len() ==> shows_event(payloads, ordered[i], #[trigger] records[i])
}

/// Whether this is what is shown of the request of that identifier: its row and its steps in
/// order, or nothing where there is none.
pub open spec fn shows_trace(tables: Tables, id: Seq<char>, shown: Option<DetailView>) -> bool {
    match trace_of(tables.traces, id) {
        Some(row) => {
            &&& shown is Some
            &&& shown->0.trace == summary_of(row)
            &&& exists|ordered: Seq<EventRow<Seq<char>>>| #[trigger]
                orders_events(tables.events, id, ordered) && shows_events(
                    tables.payloads,
                    ordered,
                    shown->0.events,
                )
        },
        None => shown is None,
    }
}

/// What an optional request with its steps is.
pub open spec fn optional_detail(detail: Option<RequestTraceDetail>) -> Option<DetailView> {
    match detail {
        Some(held) => Some(held@),
        None => None,
    }
}

impl LogStore {
    /// The first request of that identifier, if there is one.
    fn find_trace(&self, id: &str) -> (found: Option<&TraceRow>)
        ensures
            match found {
                Some(row) => trace_of(self@.traces, id@) == Some(row@),
                None => trace_of(self@.traces, id@) is None,
            },
    {
        assert(self@.traces.skip(0) == self@.traces);
        for i in 0..self.traces.len()
            invariant
                trace_of(self@.traces, id@) == trace_of(self@.traces.skip(i as int), id@),
        {
            assert(self@.traces.skip(i as int)[0] == self.traces@[i as int]@);
            assert(self@.traces.skip(i as int).drop_first() == self@.traces.skip(i + 1));
            if same_text(self.traces[i].trace_id.as_str(), id) {
                return Some(&self.traces[i]);
            }
        }
        None
    }

    /// The first payload of that identifier, if there is one.
    fn find_payload(&self, id: Option<i64>) -> (found: Option<&PayloadRow>)
        ensures
            match found {
                Some(row) => payload_of(self@.payloads, id) == Some(row@),
                None => payload_of(self@.payloads, id) is None,
            },
    {
        let wanted = match id {
            Some(number) => number,
            None => {
                return None;
            },
        };
        assert(self@.payloads.skip(0) == self@.payloads);
        for i in 0..self.payloads.len()
            invariant
                id == Some(wanted),
                payload_of(self@.payloads, id) == payload_of(self@.payloads.skip(i as int), id),
        {
            assert(self@.payloads.skip(i as int)[0] == self.payloads@[i as int]@);
            assert(self@.payloads.skip(i as int).drop_first() == self@.payloads.skip(i + 1));
            if self.payloads[i].payload_id == wanted {
                return Some(&self.payloads[i]);
            }
        }
        None
    }

    /// Reads a step with its payload.
    fn read_event(&self, row: &EventRow) -> (record: TraceEventRecord)
        ensures
            shows_event(self@.payloads, row@, record@),
    {
        match self.find_payload(row.payload_id) {
            Some(stored) => {
                let payload = decode_payload(stored.encoding.as_str(), &stored.body);
                show_event(row, payload, stored.truncated != 0)
            },
            None => show_event(row, None, false),
        }
    }

    /// The steps of a request.
    fn pick_events(&self, id: &str) -> (picked: Vec<&EventRow>)
        ensures
            event_rows(held(picked@)) == self@.events.filter(
                |row: EventRow<Seq<char>>| step_of(row, id@),
            ),
    {
        let ghost keep = |row: EventRow<Seq<char>>| step_of(row, id@);
        let mut picked: Vec<&EventRow> = Vec::new();
        proof {
            reveal(Seq::filter);
        }
        assert(event_rows(held(picked@)) =~= self@.events.take(0).filter(keep));
        for i in 0..self.events.len()
            invariant
                keep == (|row: EventRow<Seq<char>>| step_of(row, id@)),
                event_rows(held(picked@)) == self@.events.take(i as int).filter(keep),
        {
            let ghost before = picked@;
            let ghost row = self.events@[i as int];
            proof {
                self@.events.take(i as int).lemma_filter_push(row@, keep);
                assert(self@.events.take(i + 1) == self@.events.take(i as int).push(row@));
            }
            if same_text(self.events[i].trace_id.as_str(), id) {
                picked.push(&self.events[i]);
                assert(event_rows(held(picked@)) =~= event_rows(held(before)).push(row@));
            }
        }
        assert(self@.events.take(self.events.len() as int) == self@.events);
        picked
    }

    /// Shows the request of that identifier with its steps, if there is one.
    pub(crate) fn select_trace(&self, trace_id: &str) -> (shown: Option<RequestTraceDetail>)
        ensures
            shows_trace(self@, trace_id@, optional_detail(shown)),
    {
        let trace = match self.find_trace(trace_id) {
            Some(row) => map_trace_summary(row),
            None => {
                return None;
            },
        };
        let picked = self.pick_events(trace_id);
        let ghost found = held(picked@);
        let ordered = sort_rows(picked);
        let ghost rows = event_rows(held(ordered@));
        proof {
            let view = |row: EventRow| row@;
            lemma_map_multiset(held(ordered@), found, view);
            assert forall|i: int, j: int| 0 <= i < j < rows.len() implies earlier_step(
                #[trigger] rows[i],
                #[trigger] rows[j],
            ) by {
                assert(held(ordered@)[i].may_precede(held(ordered@)[j]));
            }
            assert(orders_events(self@.events, trace_id@, rows));
        }
        let mut events: Vec<TraceEventRecord> = Vec::new();
        for i in 0..ordered.len()
            invariant
                rows == event_rows(held(ordered@)),
                events.len() == i,
                forall|j: int|
                    0 <= j < i ==> shows_event(self@.payloads, rows[j], (#[trigger] events@[j])@),
        {
            assert(rows[i as int] == ordered@[i as int]@);
            events.push(self.read_event(ordered[i]));
        }
        proof {
            let records = records_view(events@);
            assert forall|i: int| 0 <= i < records.len() implies shows_event(
                self@.payloads,
                rows[i],
                #[trigger] records[i],
            ) by {
                assert(records[i] == events@[i]@);
            }
            assert(shows_events(self@.payloads, rows, records));
        }
        Some(RequestTraceDetail { trace, events })
    }
}

/// Whether a message stands behind a place in a list.
pub open spec fn log_behind(row: RuntimeRow<Seq<char>>, cursor: LogCursor) -> bool {
    row.occurred_at < cursor.occurred_at || (row.occurred_at == cursor.occurred_at && row.log_id
        < cursor.log_id)
}

/// Whether a query allows a message, its searches left aside. What the query leaves open may be
/// anything.
pub open spec fn log_allowed(row: RuntimeRow<Seq<char>>, query: RuntimeLogQuery) -> bool {
    &&& query.level matches Some(level) ==> row.level == level@
    &&& query.cursor matches Some(cursor) ==> log_behind(row, cursor)
}

/// Whether a message has the target that a query asks for.
pub open spec fn log_targeted(row: RuntimeRow<Seq<char>>, query: RuntimeLogQuery) -> bool {
    query.target matches Some(target) ==> finds(search_pattern(target@), row.target)
}

/// Whether a query asks for a message.
pub open spec fn log_wanted(row: RuntimeRow<Seq<char>>, query: RuntimeLogQuery) -> bool {
    &&& log_allowed(row, query)
    &&& log_targeted(row, query)
    &&& query.query matches Some(text) ==> finds(search_pattern(text@), row.message) || finds(
        search_pattern(text@),
        row.target,
    )
}

/// Tells whether a query allows a message, its searches left aside.
fn is_log_allowed(row: &RuntimeRow, query: &RuntimeLogQuery) -> (is: bool)
    ensures
        is == log_allowed(row@, *query),
{
    let level = match &query.level {
        Some(level) => same_text(row.level.as_str(), level.as_str()),
        None => true,
    };
    let behind = match query.cursor {
        Some(cursor) => row.occurred_at < cursor.occurred_at || (row.occurred_at
            == cursor.occurred_at && row.log_id < cursor.log_id),
        None => true,
    };
    level && behind
}

/// Tells whether a message has the target that a query asks for, given the pattern of that.
fn is_log_targeted(row: &RuntimeRow, query: &RuntimeLogQuery, target: &Option<Pattern>) -> (is:
    bool)
    requires
        pattern_of(*target, query.target),
    ensures
        is == log_targeted(row@, *query),
{
    match target {
        Some(made) => is_found(&made.chars, row.target.as_str()),
        None => true,
    }
}

/// Tells whether a query asks for a message, given the patterns of its searches.
fn is_log_wanted(
    row: &RuntimeRow,
    query: &RuntimeLogQuery,
    target: &Option<Pattern>,
    search: &Option<Pattern>,
) -> (is: bool)
    requires
        pattern_of(*target, query.target),
        pattern_of(*search, query.query),
    ensures
        is == log_wanted(row@, *query),
{
    let found = match search {
        Some(made) => is_found(&made.chars, row.message.as_str()) || is_found(
            &made.chars,
            row.target.as_str(),
        ),
        None => true,
    };
    found && is_log_allowed(row, query) && is_log_targeted(row, query, target)
}

/// What is shown of a message.
pub open spec fn log_of(row: RuntimeRow<Seq<char>>) -> RuntimeLogRecord<Seq<char>, JsonView> {
    RuntimeLogRecord {
        log_id: row.log_id,
        occurred_at: row.occurred_at,
        level: row.level,
        target: row.target,
        message: row.message,
        fields: match row.fields_json {
            Some(text) => json_parse(encode_utf8(text)),
            None => None,
        },
    }
}

/// Reads a message.
fn read_log(row: &RuntimeRow) -> (record: RuntimeLogRecord)
    ensures
        record@ == log_of(row@),
{
    RuntimeLogRecord {
        log_id: row.log_id,
        occurred_at: row.occurred_at,
        level: row.level.clone(),
        target: row.target.clone(),
        message: row.message.clone(),
        fields: match &row.fields_json {
            Some(text) => Json::parse_text(text.as_str()),
            None => None,
        },
    }
}

/// Whether these are the messages that a query asks for, the newest first.
pub open spec fn orders_logs(
    logs: Seq<RuntimeRow<Seq<char>>>,
    query: RuntimeLogQuery,
    ordered: Seq<RuntimeRow<Seq<char>>>,
) -> bool {
    &&& ordered.to_multiset() == logs.filter(
        |row: RuntimeRow<Seq<char>>| log_wanted(row, query),
    ).to_multiset()
    &&& forall|i: int, j: int|
        0 <= i < j < ordered.len() ==> newer_log(#[trigger] ordered[i], #[trigger] ordered[j])
}

/// Whether this is what is listed for a query: one page of the messages that it asks for.
pub open spec fn lists_logs(
    tables: Tables,
    query: RuntimeLogQuery,
    listed: Seq<RuntimeLogRecord<Seq<char>, JsonView>>,
) -> bool {
    exists|ordered: Seq<RuntimeRow<Seq<char>>>| #[trigger]
        orders_logs(tables.runtime_logs, query, ordered) && listed == page(
            ordered,
            page_start(query.offset) as int,
            page_size(query.limit, DEFAULT_LOGS, MAX_LOGS) as int,
        ).map_values(|row: RuntimeRow<Seq<char>>| log_of(row))
}

/// Whether a search of a query fails: its pattern is too long, and there is a message to which it
/// would be applied. The text is searched for only in messages that have the target.
pub open spec fn log_search_fails(tables: Tables, query: RuntimeLogQuery) -> bool {
    let logs = tables.runtime_logs;
    ||| too_complex(query.target) && exists|i: int|
        0 <= i < logs.len() && log_allowed(#[trigger] logs[i], query)
    ||| too_complex(query.query) && exists|i: int|
        0 <= i < logs.len() && log_allowed(#[trigger] logs[i], query) && log_targeted(
            logs[i],
            query,
        )
}

/// Whether this is the answer to a query: what is listed for it, or an error where a search
/// fails.
pub open spec fn answers_logs(
    tables: Tables,
    query: RuntimeLogQuery,
    answer: Result<Vec<RuntimeLogRecord>, String>,
) -> bool {
    match answer {
        Ok(listed) => !log_search_fails(tables, query) && lists_logs(
            tables,
            query,
            logs_view(listed@),
        ),
        Err(error) => log_search_fails(tables, query) && error@
            == "LIKE or GLOB pattern too complex"@,
    }
}

/// What listed messages are.
pub open spec fn logs_view(listed: Seq<RuntimeLogRecord>) -> Seq<
    RuntimeLogRecord<Seq<char>, JsonView>,
> {
    listed.map_values(|record: RuntimeLogRecord| record@)
}

impl LogStore {
    /// The messages that a query asks for.
    fn pick_logs(
        &self,
        query: &RuntimeLogQuery,
        target: &Option<Pattern>,
        search: &Option<Pattern>,
    ) -> (picked: Vec<&RuntimeRow>)
        requires
            pattern_of(*target, query.target),
            pattern_of(*search, query.query),
        ensures
            runtime_rows(held(picked@)) == self@.runtime_logs.filter(
                |row: RuntimeRow<Seq<char>>| log_wanted(row, *query),
            ),
    {
        let ghost keep = |row: RuntimeRow<Seq<char>>| log_wanted(row, *query);
        let mut picked: Vec<&RuntimeRow> = Vec::new();
        proof {
            reveal(Seq::filter);
        }
        assert(runtime_rows(held(picked@)) =~= self@.runtime_logs.take(0).filter(keep));
        for i in 0..self.runtime_logs.len()
            invariant
                keep == (|row: RuntimeRow<Seq<char>>| log_wanted(row, *query)),
                pattern_of(*target, query.target),
                pattern_of(*search, query.query),
                runtime_rows(held(picked@)) == self@.runtime_logs.take(i as int).filter(keep),
        {
            let ghost before = picked@;
            let ghost row = self.runtime_logs@[i as int];
            proof {
                self@.runtime_logs.take(i as int).lemma_filter_push(row@, keep);
                assert(self@.runtime_logs.take(i + 1) == self@.runtime_logs.take(i as int).push(
                    row@,
                ));
            }
            if is_log_wanted(&self.runtime_logs[i], query, target, search) {
                picked.push(&self.runtime_logs[i]);
                assert(runtime_rows(held(picked@)) =~= runtime_rows(held(before)).push(row@));
            }
        }
        assert(self@.runtime_logs.take(self.runtime_logs.len() as int) == self@.runtime_logs);
        picked
    }

    /// Tells whether a search of a query fails, given the patterns.
    fn fails_on_logs(
        &self,
        query: &RuntimeLogQuery,
        target: &Option<Pattern>,
        search: &Option<Pattern>,
    ) -> (fails: bool)
        requires
            pattern_of(*target, query.target),
            pattern_of(*search, query.query),
        ensures
            fails == log_search_fails(self@, *query),
    {
        let long_target = is_too_complex(target);
        let long_search = is_too_complex(search);
        if !long_target && !long_search {
            return false;
        }
        let ghost logs = self@.runtime_logs;
        for i in 0..self.runtime_logs.len()
            invariant
                pattern_of(*target, query.target),
                logs == self@.runtime_logs,
                long_target == too_complex(query.target),
                long_search == too_complex(query.query),
                long_target ==> forall|j: int|
                    0 <= j < i ==> !log_allowed(#[trigger] logs[j], *query),
                long_search ==> forall|j: int|
                    0 <= j < i ==> !(log_allowed(#[trigger] logs[j], *query) && log_targeted(
                        logs[j],
                        *query,
                    )),
        {
            let row = &self.runtime_logs[i];
            assert(logs[i as int] == row@);
            if is_log_allowed(row, query) && (long_target || (long_search && is_log_targeted(
                row,
                query,
                target,
            ))) {
                return true;
            }
        }
        false
    }

    /// Lists the messages that a query asks for.
    pub(crate) fn select_logs(&self, query: &RuntimeLogQuery) -> (answer: Result<
        Vec<RuntimeLogRecord>,
        String,
    >)
        ensures
            answers_logs(self@, *query, answer),
    {
        let target = make_pattern(&query.target);
        let search = make_pattern(&query.query);
        if self.fails_on_logs(query, &target, &search) {
            return Err("LIKE or GLOB pattern too complex".to_owned());
        }
        let picked = self.pick_logs(query, &target, &search);
        let ghost found = held(picked@);
        let ordered = sort_rows(picked);
        let ghost rows = runtime_rows(held(ordered@));
        proof {
            let view = |row: RuntimeRow| row@;
            lemma_map_multiset(held(ordered@), found, view);
            assert forall|i: int, j: int| 0 <= i < j < rows.len() implies newer_log(
                #[trigger] rows[i],
                #[trigger] rows[j],
            ) by {
                assert(held(ordered@)[i].may_precede(held(ordered@)[j]));
            }
            assert(orders_logs(self@.runtime_logs, *query, rows));
        }
        let size = size_page(query.limit, DEFAULT_LOGS, MAX_LOGS);
        let offset = match query.offset {
            Some(number) => number,
            None => 0,
        };
        let (from, to) = bound_page(ordered.len(), offset, size);
        let mut listed: Vec<RuntimeLogRecord> = Vec::new();
        for i in from..to
            invariant
                from <= to <= ordered.len(),
                rows == runtime_rows(held(ordered@)),
                logs_view(listed@) == rows.subrange(from as int, i as int).map_values(
                    |row: RuntimeRow<Seq<char>>| log_of(row),
                ),
        {
            let ghost before = listed@;
            let record = read_log(ordered[i]);
            let ghost new = record@;
            listed.push(record);
            assert(logs_view(listed@) =~= logs_view(before).push(new));
            assert(rows.subrange(from as int, i + 1) == rows.subrange(from as int, i as int).push(
                rows[i as int],
            ));
            assert(logs_view(listed@) =~= rows.subrange(from as int, i + 1).map_values(
                |row: RuntimeRow<Seq<char>>| log_of(row),
            ));
        }
        assert(rows.subrange(from as int, to as int) =~= page(rows, offset as int, size as int));
        Ok(listed)
    }
}

} // verus!
