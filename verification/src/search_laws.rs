//! What searches find.
use crate::filter_laws::{
    asked_logs, asked_traces, comes_before, has_what_is_asked, lemma_listed, lemma_listed_logs,
    lemma_wanted, lemma_wanted_is_listed, lemma_wanted_log_is_listed, message_has_what_is_asked,
    message_is_listed, request_is_listed,
};
use crate::like::{
    before_nul, begins_alike, finds, is_found, law_search_finds_parts, lemma_before_nul,
    lemma_like_anywhere, like, plain,
};
use crate::query::{
    log_allowed, log_of, logs_view, orders_traces, page_start, search_pattern, summaries_view,
    trace_allowed, trace_found, trace_wanted,
};
use crate::records::{
    optional_text, RequestTraceSummary, RuntimeLogQuery, RuntimeLogRecord, TraceQuery,
};
use crate::sequences::lemma_same_contents;
use crate::service::DiagnosticLogService;
use crate::shown_laws::shows_request;
use crate::store_laws::consistent;
use crate::tables::{summary_of, LogStore, TraceRow};
use crate::text::{lemma_encode_concat, lower, trimmed, trimmed_end, trimmed_start};
use crate::text_laws::{blank, lemma_blank};
use vstd::prelude::*;
use vstd::string::*;
use vstd::utf8::*;

verus! {

/// Whether characters are the same, or one ASCII letter in either case.
pub open spec fn same_letter(one: char, other: char) -> bool {
    ||| one == other
    ||| 'A' <= one <= 'Z' && other as u32 == one as u32 + 32
    ||| 'A' <= other <= 'Z' && one as u32 == other as u32 + 32
}

/// Whether characters stand at a place of a text, ASCII letters in either case.
pub open spec fn stands_at(text: Seq<char>, part: Seq<char>, at: int) -> bool {
    &&& 0 <= at
    &&& at + part.len() <= text.len()
    &&& forall|k: int| 0 <= k < part.len() ==> same_letter(#[trigger] part[k], text[at + k])
}

/// Whether characters stand somewhere in a text, ASCII letters in either case.
pub open spec fn holds_part(text: Seq<char>, part: Seq<char>) -> bool {
    exists|at: int| #[trigger] stands_at(text, part, at)
}

/// Whether characters stand somewhere in an optional text, ASCII letters in either case.
pub open spec fn optional_holds_part(text: Option<Seq<char>>, part: Seq<char>) -> bool {
    text matches Some(held) && holds_part(held, part)
}

/// Whether there is no NUL character in a text.
pub open spec fn without_nul(text: Seq<char>) -> bool {
    forall|i: int| 0 <= i < text.len() ==> #[trigger] text[i] != '\0'
}

/// Whether there is no NUL character in an optional text.
pub open spec fn optional_without_nul(text: Option<Seq<char>>) -> bool {
    text matches Some(held) ==> without_nul(held)
}

/// Whether all characters are white space.
pub open spec fn all_blank(text: Seq<char>) -> bool {
    forall|i: int| 0 <= i < text.len() ==> blank(#[trigger] text[i])
}

/// Whether a text is characters between white space: characters that have no meaning of their own
/// in a pattern, of which the first and the last are visible ASCII.
pub open spec fn asks_for(
    text: Seq<char>,
    part: Seq<char>,
    before: Seq<char>,
    behind: Seq<char>,
) -> bool {
    &&& all_blank(before)
    &&& all_blank(behind)
    &&& text == before + part + behind
    &&& part.len() > 0
    &&& '!' <= part[0] <= '~'
    &&& '!' <= part.last() <= '~'
    &&& forall|i: int|
        0 <= i < part.len() ==> #[trigger] part[i] != '%' && part[i] != '_' && part[i] != '\0'
}

proof fn lemma_same_letter(one: char, other: char)
    ensures
        same_letter(one, other) == (lower(one) == lower(other)),
{
}

/// The white space before a text is taken off.
proof fn lemma_trimmed_start(spaces: Seq<char>, text: Seq<char>)
    requires
        all_blank(spaces),
        text.len() > 0,
        '!' <= text[0] <= '~',
    ensures
        trimmed_start(spaces + text) == text,
    decreases spaces.len(),
{
    let padded = spaces + text;
    if spaces.len() == 0 {
        assert(padded =~= text);
    } else {
        let rest = spaces.drop_first();
        assert(padded.drop_first() =~= rest + text);
        assert(blank(spaces[0]));
        lemma_blank(padded[0]);
        assert forall|i: int| 0 <= i < rest.len() implies blank(#[trigger] rest[i]) by {
            assert(rest[i] == spaces[i + 1]);
        }
        lemma_trimmed_start(rest, text);
    }
}

/// The white space behind a text is taken off.
proof fn lemma_trimmed_end(text: Seq<char>, spaces: Seq<char>)
    requires
        all_blank(spaces),
        text.len() > 0,
        '!' <= text.last() <= '~',
    ensures
        trimmed_end(text + spaces) == text,
    decreases spaces.len(),
{
    let padded = text + spaces;
    if spaces.len() == 0 {
        assert(padded =~= text);
    } else {
        let rest = spaces.drop_last();
        assert(padded.drop_last() =~= text + rest);
        assert(blank(spaces[spaces.len() - 1]));
        assert(padded.last() == spaces.last());
        lemma_blank(padded.last());
        assert forall|i: int| 0 <= i < rest.len() implies blank(#[trigger] rest[i]) by {
            assert(rest[i] == spaces[i]);
        }
        lemma_trimmed_end(text, rest);
    }
}

/// A search for characters between white space finds the texts in which they stand.
proof fn lemma_finds(asked: Seq<char>, part: Seq<char>, before: Seq<char>, behind: Seq<char>, text: Seq<char>)
    requires
        asks_for(asked, part, before, behind),
        without_nul(text),
    ensures
        finds(search_pattern(asked), text) == holds_part(text, part),
{
    let tail = part + behind;
    assert(asked =~= before + tail);
    lemma_trimmed_start(before, tail);
    lemma_trimmed_end(part, behind);
    assert(trimmed(asked) == part);
    assert(plain(part));
    law_search_finds_parts(part, text);
    lemma_before_nul(text);
    assert forall|at: int| 0 <= at <= text.len() implies begins_alike(
        #[trigger] text.skip(at),
        part,
    ) == stands_at(text, part, at) by {
        let rest = text.skip(at);
        if begins_alike(rest, part) {
            assert forall|k: int| 0 <= k < part.len() implies same_letter(
                #[trigger] part[k],
                text[at + k],
            ) by {
                assert(rest[k] == text[at + k]);
                lemma_same_letter(part[k], text[at + k]);
            }
        }
        if stands_at(text, part, at) {
            assert forall|k: int| 0 <= k < part.len() implies lower(#[trigger] part[k]) == lower(
                rest[k],
            ) by {
                assert(rest[k] == text[at + k]);
                lemma_same_letter(part[k], text[at + k]);
            }
        }
    }
    if holds_part(text, part) {
        let at = choose|at: int| #[trigger] stands_at(text, part, at);
        assert(begins_alike(text.skip(at), part));
    }
    if exists|i: int| 0 <= i <= text.len() && begins_alike(#[trigger] text.skip(i), part) {
        let i = choose|i: int| 0 <= i <= text.len() && begins_alike(#[trigger] text.skip(i), part);
        assert(stands_at(text, part, i));
    }
}

/// Whether no text of a request that is searched has a NUL character.
pub open spec fn searchable(row: TraceRow<Seq<char>>) -> bool {
    &&& without_nul(row.trace_id)
    &&& optional_without_nul(row.request_model)
    &&& optional_without_nul(row.response_model)
    &&& without_nul(row.path)
    &&& optional_without_nul(row.final_provider_id)
}

proof fn lemma_trace_search(
    row: TraceRow<Seq<char>>,
    asked: Seq<char>,
    part: Seq<char>,
    before: Seq<char>,
    behind: Seq<char>,
)
    requires
        asks_for(asked, part, before, behind),
        searchable(row),
    ensures
        trace_found(row, search_pattern(asked)) == (holds_part(row.trace_id, part)
            || optional_holds_part(row.request_model, part) || optional_holds_part(
            row.response_model,
            part,
        ) || holds_part(row.path, part) || optional_holds_part(row.final_provider_id, part)),
{
    lemma_finds(asked, part, before, behind, row.trace_id);
    lemma_finds(asked, part, before, behind, row.path);
    if row.request_model is Some {
        lemma_finds(asked, part, before, behind, row.request_model->0);
    }
    if row.response_model is Some {
        lemma_finds(asked, part, before, behind, row.response_model->0);
    }
    if row.final_provider_id is Some {
        lemma_finds(asked, part, before, behind, row.final_provider_id->0);
    }
}

/// Every request that is listed for a search holds what is searched for in its identifier, one of
/// its models, its path or its provider, ASCII letters in either case; white space around what is
/// searched for makes no difference.
pub proof fn law_listed_requests_hold_the_search(
    service: &DiagnosticLogService,
    log: &LogStore,
    query: TraceQuery,
    listed: Vec<RequestTraceSummary>,
    i: int,
    part: Seq<char>,
    before: Seq<char>,
    behind: Seq<char>,
)
    requires
        call_ensures(DiagnosticLogService::list_traces, (service, log, &query), Ok(listed)),
        0 <= i < listed.len(),
        query.query matches Some(text) && asks_for(text@, part, before, behind),
        without_nul(listed@[i].trace_id@),
        optional_without_nul(optional_text(listed@[i].request_model)),
        optional_without_nul(optional_text(listed@[i].response_model)),
        without_nul(listed@[i].path@),
        optional_without_nul(optional_text(listed@[i].final_provider_id)),
    ensures
        ({
            let shown = listed@[i];
            ||| holds_part(shown.trace_id@, part)
            ||| shown.request_model is Some && holds_part(shown.request_model->0@, part)
            ||| shown.response_model is Some && holds_part(shown.response_model->0@, part)
            ||| holds_part(shown.path@, part)
            ||| shown.final_provider_id is Some && holds_part(shown.final_provider_id->0@, part)
        }),
{
    let shown = summaries_view(listed@);
    let ordered = lemma_listed(log@, query, shown);
    assert(shown[i] == listed@[i]@);
    let row = ordered[page_start(query.offset) + i];
    assert(ordered.contains(row));
    assert(shown[i] == summary_of(row));
    lemma_trace_search(row, query.query->0@, part, before, behind);
}

/// A request that holds what is searched for in its identifier, one of its models, its path or its
/// provider, and has what else the query asks for, is listed, unless the list is as long as was
/// asked for with requests that stand no later than it.
pub proof fn law_requests_that_hold_the_search_are_listed(
    service: &DiagnosticLogService,
    log: &LogStore,
    query: TraceQuery,
    listed: Vec<RequestTraceSummary>,
    k: int,
    part: Seq<char>,
    before: Seq<char>,
    behind: Seq<char>,
)
    requires
        call_ensures(DiagnosticLogService::list_traces, (service, log, &query), Ok(listed)),
        query.query matches Some(text) && asks_for(text@, part, before, behind),
        query.offset is None || query.offset == Some(0u32),
        0 <= k < log@.traces.len(),
        has_what_is_asked(log@.traces[k], query),
        searchable(log@.traces[k]),
        ({
            let row = log@.traces[k];
            ||| holds_part(row.trace_id, part)
            ||| optional_holds_part(row.request_model, part)
            ||| optional_holds_part(row.response_model, part)
            ||| holds_part(row.path, part)
            ||| optional_holds_part(row.final_provider_id, part)
        }),
    ensures
        request_is_listed(log@.traces[k], listed@) || (listed.len() == asked_traces(query.limit)
            && forall|i: int|
            0 <= i < listed.len() ==> (#[trigger] listed@[i]).started_at
                > log@.traces[k].started_at || (listed@[i].started_at == log@.traces[k].started_at
                && !comes_before(
                encode_utf8(listed@[i].trace_id@),
                encode_utf8(log@.traces[k].trace_id),
            ))),
{
    lemma_trace_search(log@.traces[k], query.query->0@, part, before, behind);
    lemma_wanted(log@.traces[k], query);
    lemma_wanted_is_listed(log@, query, listed, k);
}

/// Every message that is listed holds in its target what the query asks for of it, and in its text
/// or its target what is searched for, ASCII letters in either case.
pub proof fn law_listed_messages_hold_the_search(
    service: &DiagnosticLogService,
    log: &LogStore,
    query: RuntimeLogQuery,
    listed: Vec<RuntimeLogRecord>,
    i: int,
    part: Seq<char>,
    before: Seq<char>,
    behind: Seq<char>,
)
    requires
        call_ensures(DiagnosticLogService::list_runtime_logs, (service, log, &query), Ok(listed)),
        0 <= i < listed.len(),
        without_nul(listed@[i].message@),
        without_nul(listed@[i].target@),
    ensures
        query.target is Some && asks_for(query.target->0@, part, before, behind) ==> holds_part(
            listed@[i].target@,
            part,
        ),
        query.query is Some && asks_for(query.query->0@, part, before, behind) ==> holds_part(
            listed@[i].message@,
            part,
        ) || holds_part(listed@[i].target@, part),
{
    let shown = logs_view(listed@);
    let ordered = lemma_listed_logs(log@, query, shown);
    assert(shown[i] == listed@[i]@);
    let row = ordered[page_start(query.offset) + i];
    assert(ordered.contains(row));
    assert(shown[i] == log_of(row));
    if query.target is Some && asks_for(query.target->0@, part, before, behind) {
        lemma_finds(query.target->0@, part, before, behind, row.target);
    }
    if query.query is Some && asks_for(query.query->0@, part, before, behind) {
        lemma_finds(query.query->0@, part, before, behind, row.target);
        lemma_finds(query.query->0@, part, before, behind, row.message);
    }
}

/// A message that holds in its target what the query asks for of it, and in its text or its target
/// what is searched for, and has what else the query asks for, is listed, unless the list is as
/// long as was asked for with messages that stand no later than it.
pub proof fn law_messages_that_hold_the_search_are_listed(
    service: &DiagnosticLogService,
    log: &LogStore,
    query: RuntimeLogQuery,
    listed: Vec<RuntimeLogRecord>,
    k: int,
    target: Seq<char>,
    target_before: Seq<char>,
    target_behind: Seq<char>,
    part: Seq<char>,
    before: Seq<char>,
    behind: Seq<char>,
)
    requires
        call_ensures(DiagnosticLogService::list_runtime_logs, (service, log, &query), Ok(listed)),
        query.offset is None || query.offset == Some(0u32),
        0 <= k < log@.runtime_logs.len(),
        message_has_what_is_asked(log@.runtime_logs[k], query),
        without_nul(log@.runtime_logs[k].message),
        without_nul(log@.runtime_logs[k].target),
        query.target matches Some(text) ==> asks_for(text@, target, target_before, target_behind)
            && holds_part(log@.runtime_logs[k].target, target),
        query.query matches Some(text) ==> asks_for(text@, part, before, behind) && (holds_part(
            log@.runtime_logs[k].message,
            part,
        ) || holds_part(log@.runtime_logs[k].target, part)),
    ensures
        message_is_listed(log@.runtime_logs[k], listed@) || (listed.len() == asked_logs(query.limit)
            && forall|i: int|
            0 <= i < listed.len() ==> (#[trigger] listed@[i]).occurred_at
                > log@.runtime_logs[k].occurred_at || (listed@[i].occurred_at
                == log@.runtime_logs[k].occurred_at && listed@[i].log_id
                >= log@.runtime_logs[k].log_id)),
{
    let row = log@.runtime_logs[k];
    if query.target is Some {
        lemma_finds(query.target->0@, target, target_before, target_behind, row.target);
    }
    if query.query is Some {
        lemma_finds(query.query->0@, part, before, behind, row.target);
        lemma_finds(query.query->0@, part, before, behind, row.message);
    }
    lemma_wanted_log_is_listed(log@, query, listed, k);
}

/// What a pattern matches: nothing is matched by an empty text alone; `%` stands for any run of
/// characters, `_` for any one, and any other character for itself, an ASCII letter for itself in
/// either case.
pub proof fn law_patterns(rest: Seq<char>, text: Seq<char>, ch: char)
    ensures
        like(Seq::empty(), text) == (text.len() == 0),
        like(seq!['%'] + rest, text) == exists|i: int|
            0 <= i <= text.len() && like(rest, #[trigger] text.skip(i)),
        like(seq!['_'] + rest, text) == (text.len() > 0 && like(rest, text.drop_first())),
        ch != '%' && ch != '_' ==> like(seq![ch] + rest, text) == (text.len() > 0 && same_letter(
            ch,
            text[0],
        ) && like(rest, text.drop_first())),
{
    lemma_like_anywhere(rest, text);
    assert((seq!['_'] + rest).drop_first() =~= rest);
    assert((seq![ch] + rest).drop_first() =~= rest);
    if text.len() > 0 {
        lemma_same_letter(ch, text[0]);
    }
}

/// Whether a text is characters between white space: any but NUL, of which the first and the last
/// are visible ASCII.
pub open spec fn asks_for_pattern(
    text: Seq<char>,
    part: Seq<char>,
    before: Seq<char>,
    behind: Seq<char>,
) -> bool {
    &&& all_blank(before)
    &&& all_blank(behind)
    &&& text == before + part + behind
    &&& part.len() > 0
    &&& '!' <= part[0] <= '~'
    &&& '!' <= part.last() <= '~'
    &&& without_nul(part)
}

proof fn lemma_search_pattern(asked: Seq<char>, part: Seq<char>, before: Seq<char>, behind: Seq<char>)
    requires
        asks_for_pattern(asked, part, before, behind),
    ensures
        search_pattern(asked) == seq!['%'] + part + seq!['%'],
        before_nul(search_pattern(asked)) == seq!['%'] + part + seq!['%'],
{
    let tail = part + behind;
    assert(asked =~= before + tail);
    lemma_trimmed_start(before, tail);
    lemma_trimmed_end(part, behind);
    let pattern = seq!['%'] + part + seq!['%'];
    assert forall|i: int| 0 <= i < pattern.len() implies #[trigger] pattern[i] != '\0' by {
        if 0 < i <= part.len() {
            assert(pattern[i] == part[i - 1]);
        }
    }
    lemma_before_nul(pattern);
}

/// A search lists a request exactly where what is searched for, as a pattern with anything before
/// and behind it, matches its identifier, one of its models, its path or its provider.
pub proof fn law_searches_are_patterns(
    service: &DiagnosticLogService,
    log: &LogStore,
    query: TraceQuery,
    listed: Vec<RequestTraceSummary>,
    k: int,
    part: Seq<char>,
    before: Seq<char>,
    behind: Seq<char>,
)
    requires
        call_ensures(DiagnosticLogService::list_traces, (service, log, &query), Ok(listed)),
        query.query matches Some(text) && asks_for_pattern(text@, part, before, behind),
        query.offset is None || query.offset == Some(0u32),
        consistent(log@),
        0 <= k < log@.traces.len(),
        log@.traces.len() <= asked_traces(query.limit),
        has_what_is_asked(log@.traces[k], query),
        searchable(log@.traces[k]),
    ensures
        request_is_listed(log@.traces[k], listed@) == ({
            let row = log@.traces[k];
            let pattern = seq!['%'] + part + seq!['%'];
            ||| like(pattern, row.trace_id)
            ||| row.request_model is Some && like(pattern, row.request_model->0)
            ||| row.response_model is Some && like(pattern, row.response_model->0)
            ||| like(pattern, row.path)
            ||| row.final_provider_id is Some && like(pattern, row.final_provider_id->0)
        }),
{
    let row = log@.traces[k];
    lemma_search_pattern(query.query->0@, part, before, behind);
    lemma_before_nul(row.trace_id);
    lemma_before_nul(row.path);
    if row.request_model is Some {
        lemma_before_nul(row.request_model->0);
    }
    if row.response_model is Some {
        lemma_before_nul(row.response_model->0);
    }
    if row.final_provider_id is Some {
        lemma_before_nul(row.final_provider_id->0);
    }
    lemma_wanted(row, query);
    let shown = summaries_view(listed@);
    let ordered = lemma_listed(log@, query, shown);
    assert(shown.len() == listed.len());
    if trace_wanted(row, query) {
        assert(log@.traces.contains(row));
        assert(ordered.contains(row));
        let at = ordered.index_of(row);
        lemma_filter_length(log@.traces, query, ordered);
        assert(at < listed.len());
        assert(shown[at] == listed@[at]@);
        assert(shows_request(row, listed@[at]@));
    } else if request_is_listed(row, listed@) {
        let i = choose|i: int|
            0 <= i < listed.len() && shows_request(row, (#[trigger] listed@[i])@);
        assert(shown[i] == listed@[i]@);
        assert(ordered.contains(ordered[i]));
        let j = log@.traces.index_of(ordered[i]);
        assert(log@.traces[j].trace_id == row.trace_id);
        assert(j == k);
    }
}

/// Not more requests are asked for than there are.
proof fn lemma_filter_length(
    traces: Seq<TraceRow<Seq<char>>>,
    query: TraceQuery,
    ordered: Seq<TraceRow<Seq<char>>>,
)
    requires
        orders_traces(traces, query, ordered),
    ensures
        ordered.len() <= traces.len(),
{
    let keep = |row: TraceRow<Seq<char>>| trace_wanted(row, query);
    lemma_same_contents(ordered, traces.filter(keep));
    traces.lemma_filter_len(keep);
}

/// A search of more than 49998 bytes fails where there is a request that has what else the query
/// asks for; any other query is answered.
pub proof fn law_long_searches_fail(
    service: &DiagnosticLogService,
    log: &LogStore,
    query: TraceQuery,
    answer: Result<Vec<RequestTraceSummary>, String>,
    part: Seq<char>,
    before: Seq<char>,
    behind: Seq<char>,
)
    requires
        call_ensures(DiagnosticLogService::list_traces, (service, log, &query), answer),
        query.query matches Some(text) ==> asks_for_pattern(text@, part, before, behind),
    ensures
        answer is Err <==> query.query is Some && encode_utf8(part).len() > 49_998 && exists|i: int|
            0 <= i < log@.traces.len() && has_what_is_asked(#[trigger] log@.traces[i], query),
        answer matches Err(error) ==> error@ == "LIKE or GLOB pattern too complex"@,
{
    assert forall|i: int| 0 <= i < log@.traces.len() implies has_what_is_asked(
        #[trigger] log@.traces[i],
        query,
    ) == trace_allowed(log@.traces[i], query) by {
        lemma_wanted(log@.traces[i], query);
    }
    if query.query is Some {
        lemma_search_pattern(query.query->0@, part, before, behind);
        lemma_pattern_bytes(part);
    }
}

/// A pattern takes two bytes more than what is searched for.
proof fn lemma_pattern_bytes(part: Seq<char>)
    ensures
        encode_utf8(seq!['%'] + part + seq!['%']).len() == encode_utf8(part).len() + 2,
{
    lemma_encode_concat(seq!['%'] + part, seq!['%']);
    lemma_encode_concat(seq!['%'], part);
    is_ascii_chars_encode_utf8(seq!['%']);
}

/// A search for a target or a text of more than 49998 bytes fails where there is a message to which
/// it would be applied: one that has what else the query asks for, and for the text also the
/// target. Any other query is answered.
pub proof fn law_long_message_searches_fail(
    service: &DiagnosticLogService,
    log: &LogStore,
    query: RuntimeLogQuery,
    answer: Result<Vec<RuntimeLogRecord>, String>,
    part: Seq<char>,
    before: Seq<char>,
    behind: Seq<char>,
)
    requires
        call_ensures(DiagnosticLogService::list_runtime_logs, (service, log, &query), answer),
        query.target is None || query.query is None,
        query.target matches Some(text) ==> asks_for_pattern(text@, part, before, behind),
        query.query matches Some(text) ==> asks_for_pattern(text@, part, before, behind),
    ensures
        answer is Err <==> (query.query is Some || query.target is Some) && encode_utf8(part).len()
            > 49_998 && exists|i: int|
            0 <= i < log@.runtime_logs.len() && message_has_what_is_asked(
                #[trigger] log@.runtime_logs[i],
                query,
            ),
        answer matches Err(error) ==> error@ == "LIKE or GLOB pattern too complex"@,
{
    assert forall|i: int| 0 <= i < log@.runtime_logs.len() implies message_has_what_is_asked(
        #[trigger] log@.runtime_logs[i],
        query,
    ) == log_allowed(log@.runtime_logs[i], query) by {}
    if query.query is Some {
        lemma_search_pattern(query.query->0@, part, before, behind);
    }
    if query.target is Some {
        lemma_search_pattern(query.target->0@, part, before, behind);
    }
    lemma_pattern_bytes(part);
}

/// Of a text with a NUL character only what stands before it is searched.
pub proof fn law_nul_ends_what_is_searched(pattern: Vec<char>, text: &str, found: bool, at: int)
    requires
        call_ensures(is_found, (&pattern, text), found),
        0 <= at <= text@.len(),
        without_nul(text@.take(at)),
        at < text@.len() ==> text@[at] == '\0',
    ensures
        found == like(pattern@, text@.take(at)),
{
    lemma_cut(text@, at);
}

proof fn lemma_cut(text: Seq<char>, at: int)
    requires
        0 <= at <= text.len(),
        without_nul(text.take(at)),
        at < text.len() ==> text[at] == '\0',
    ensures
        before_nul(text) == text.take(at),
    decreases at,
{
    if at == 0 {
        assert(text.take(0) =~= Seq::empty());
    } else {
        let rest = text.drop_first();
        assert(text.take(at)[0] == text[0]);
        assert(rest.take(at - 1) =~= text.take(at).drop_first());
        assert forall|i: int| 0 <= i < at - 1 implies #[trigger] rest.take(at - 1)[i] != '\0' by {
            assert(text.take(at)[i + 1] == rest.take(at - 1)[i]);
        }
        lemma_cut(rest, at - 1);
        assert(before_nul(text) =~= text.take(at));
    }
}

} // verus!
