//! How the log is kept small, and how it is cleared.
use crate::outside::now_millis;
use crate::query::{newer_log, newer_trace};
use crate::sequences::{lemma_map_multiset, lemma_same_contents};
use crate::sort::{
    held, in_order, lemma_same_text_rank, ranks, same_rank, sort_rows, Ranked,
};
use crate::store::{fits, has_trace, StoreError};
use crate::tables::{
    event_rows, payload_rows, runtime_rows, trace_rows, EventRow, LogStore, PayloadRow, RuntimeRow,
    Tables, TraceRow,
};
use crate::text::same_text;
use vstd::prelude::*;
use vstd::string::*;

verus! {

/// How many days requests and messages are kept.
pub const RETENTION_DAYS: i64 = 3;

/// How many milliseconds requests and messages are kept.
pub const RETENTION_MILLIS: i64 = 259_200_000;

/// How many bytes may be stored for requests.
pub const REQUEST_LOG_LIMIT_BYTES: i64 = 314_572_800;

/// How many bytes may be stored for messages.
pub const RUNTIME_LOG_LIMIT_BYTES: i64 = 52_428_800;

/// The sum of numbers.
pub open spec fn total(sizes: Seq<i64>) -> int
    decreases sizes.len(),
{
    if sizes.len() == 0 {
        0
    } else {
        total(sizes.drop_last()) + sizes.last()
    }
}

/// Of rows of these sizes, the newest first, how many stay: as long as they take more than the
/// limit, the oldest one is dropped. A sum that is out of range is an error.
pub open spec fn room(sizes: Seq<i64>, limit: int) -> Result<nat, StoreError>
    decreases sizes.len(),
{
    if !fits(total(sizes)) {
        Err(StoreError::Overflow)
    } else if total(sizes) <= limit || sizes.len() == 0 {
        Ok(sizes.len())
    } else {
        room(sizes.drop_last(), limit)
    }
}

/// A sum of so many numbers is in range of twice as many bits.
proof fn lemma_total_bound(sizes: Seq<i64>)
    ensures
        -0x8000_0000_0000_0000 * sizes.len() <= total(sizes) <= 0x7fff_ffff_ffff_ffff
            * sizes.len(),
    decreases sizes.len(),
{
    if sizes.len() > 0 {
        lemma_total_bound(sizes.drop_last());
    }
}

/// Adds numbers up.
fn sum_up(sizes: &Vec<i64>) -> (sum: i128)
    ensures
        sum == total(sizes@),
{
    let mut sum: i128 = 0;
    for i in 0..sizes.len()
        invariant
            sum == total(sizes@.take(i as int)),
    {
        proof {
            lemma_total_bound(sizes@.take(i as int));
            assert(sizes@.take(i + 1).drop_last() == sizes@.take(i as int));
        }
        sum = sum + sizes[i] as i128;
    }
    assert(sizes@.take(sizes.len() as int) == sizes@);
    sum
}

/// Tells how many rows of these sizes, the newest first, stay.
pub fn count_kept(sizes: &Vec<i64>, limit: i64) -> (kept: Result<usize, StoreError>)
    ensures
        match kept {
            Ok(number) => number <= sizes.len() && room(sizes@, limit as int) == Ok::<
                nat,
                StoreError,
            >(number as nat),
            Err(error) => room(sizes@, limit as int) == Err::<nat, StoreError>(error),
        },
{
    let mut sum = sum_up(sizes);
    let mut kept: usize = sizes.len();
    assert(sizes@.take(kept as int) == sizes@);
    loop
        invariant
            kept <= sizes.len(),
            sum == total(sizes@.take(kept as int)),
            room(sizes@, limit as int) == room(sizes@.take(kept as int), limit as int),
        decreases kept,
    {
        if sum < i64::MIN as i128 || sum > i64::MAX as i128 {
            return Err(StoreError::Overflow);
        }
        if sum <= limit as i128 || kept == 0 {
            return Ok(kept);
        }
        proof {
            assert(sizes@.take(kept as int).drop_last() == sizes@.take(kept - 1));
        }
        kept = kept - 1;
        sum = sum - sizes[kept] as i128;
    }
}

/// The bytes stored for requests.
pub open spec fn trace_sizes(rows: Seq<TraceRow<Seq<char>>>) -> Seq<i64> {
    rows.map_values(|row: TraceRow<Seq<char>>| row.stored_bytes)
}

/// The bytes stored for messages.
pub open spec fn log_sizes(rows: Seq<RuntimeRow<Seq<char>>>) -> Seq<i64> {
    rows.map_values(|row: RuntimeRow<Seq<char>>| row.stored_bytes)
}

/// Whether these are the same requests, the newest first.
pub open spec fn newest_traces(
    rows: Seq<TraceRow<Seq<char>>>,
    ordered: Seq<TraceRow<Seq<char>>>,
) -> bool {
    &&& ordered.to_multiset() == rows.to_multiset()
    &&& forall|i: int, j: int|
        0 <= i < j < ordered.len() ==> newer_trace(#[trigger] ordered[i], #[trigger] ordered[j])
}

/// Whether these are the same messages, the newest first.
pub open spec fn newest_logs(
    rows: Seq<RuntimeRow<Seq<char>>>,
    ordered: Seq<RuntimeRow<Seq<char>>>,
) -> bool {
    &&& ordered.to_multiset() == rows.to_multiset()
    &&& forall|i: int, j: int|
        0 <= i < j < ordered.len() ==> newer_log(#[trigger] ordered[i], #[trigger] ordered[j])
}

/// Whether these requests stay of others when the log is trimmed: all of them where there is
/// room, else the newest that there is room for.
pub open spec fn trims_traces(
    rows: Seq<TraceRow<Seq<char>>>,
    kept: Result<Seq<TraceRow<Seq<char>>>, StoreError>,
) -> bool {
    exists|ordered: Seq<TraceRow<Seq<char>>>| #[trigger]
        newest_traces(rows, ordered) && match room(
            trace_sizes(ordered),
            REQUEST_LOG_LIMIT_BYTES as int,
        ) {
            Ok(number) => kept == Ok::<Seq<TraceRow<Seq<char>>>, StoreError>(
                if number == rows.len() {
                    rows
                } else {
                    ordered.take(number as int)
                },
            ),
            Err(error) => kept == Err::<Seq<TraceRow<Seq<char>>>, StoreError>(error),
        }
}

/// Whether these messages stay of others when the log is trimmed: all of them where there is
/// room, else the newest that there is room for.
pub open spec fn trims_logs(
    rows: Seq<RuntimeRow<Seq<char>>>,
    kept: Result<Seq<RuntimeRow<Seq<char>>>, StoreError>,
) -> bool {
    exists|ordered: Seq<RuntimeRow<Seq<char>>>| #[trigger]
        newest_logs(rows, ordered) && match room(
            log_sizes(ordered),
            RUNTIME_LOG_LIMIT_BYTES as int,
        ) {
            Ok(number) => kept == Ok::<Seq<RuntimeRow<Seq<char>>>, StoreError>(
                if number == rows.len() {
                    rows
                } else {
                    ordered.take(number as int)
                },
            ),
            Err(error) => kept == Err::<Seq<RuntimeRow<Seq<char>>>, StoreError>(error),
        }
}

/// What rows that were kept, or the error in their place, are.
pub open spec fn traces_outcome(kept: Result<Vec<TraceRow>, StoreError>) -> Result<
    Seq<TraceRow<Seq<char>>>,
    StoreError,
> {
    match kept {
        Ok(rows) => Ok(trace_rows(rows@)),
        Err(error) => Err(error),
    }
}

/// What rows that were kept, or the error in their place, are.
pub open spec fn logs_outcome(kept: Result<Vec<RuntimeRow>, StoreError>) -> Result<
    Seq<RuntimeRow<Seq<char>>>,
    StoreError,
> {
    match kept {
        Ok(rows) => Ok(runtime_rows(rows@)),
        Err(error) => Err(error),
    }
}

/// Drops the oldest requests until the rest takes no more than the limit.
pub fn trim_trace_capacity(rows: Vec<TraceRow>) -> (kept: Result<Vec<TraceRow>, StoreError>)
    ensures
        trims_traces(trace_rows(rows@), traces_outcome(kept)),
{
    let mut all: Vec<&TraceRow> = Vec::new();
    for i in 0..rows.len()
        invariant
            held(all@) == rows@.take(i as int),
    {
        let ghost before = all@;
        all.push(&rows[i]);
        assert(held(all@) =~= held(before).push(rows@[i as int]));
        assert(rows@.take(i + 1) == rows@.take(i as int).push(rows@[i as int]));
    }
    assert(rows@.take(rows.len() as int) == rows@);
    let ordered = sort_rows(all);
    let ghost newest = trace_rows(held(ordered@));
    proof {
        let view = |row: TraceRow| row@;
        lemma_map_multiset(held(ordered@), rows@, view);
        assert forall|i: int, j: int| 0 <= i < j < newest.len() implies newer_trace(
            #[trigger] newest[i],
            #[trigger] newest[j],
        ) by {
            assert(held(ordered@)[i].may_precede(held(ordered@)[j]));
        }
        assert(newest_traces(trace_rows(rows@), newest));
        lemma_same_contents(newest, trace_rows(rows@));
    }
    let mut sizes: Vec<i64> = Vec::new();
    for i in 0..ordered.len()
        invariant
            newest == trace_rows(held(ordered@)),
            sizes@ == trace_sizes(newest).take(i as int),
    {
        assert(trace_sizes(newest)[i as int] == ordered@[i as int].stored_bytes);
        sizes.push(ordered[i].stored_bytes);
        assert(trace_sizes(newest).take(i + 1) == trace_sizes(newest).take(i as int).push(
            trace_sizes(newest)[i as int],
        ));
    }
    assert(trace_sizes(newest).take(ordered.len() as int) == trace_sizes(newest));
    match count_kept(&sizes, REQUEST_LOG_LIMIT_BYTES) {
        Ok(number) => {
            if number == rows.len() {
                return Ok(rows);
            }
            let mut kept: Vec<TraceRow> = Vec::new();
            for i in 0..number
                invariant
                    number <= ordered.len(),
                    newest == trace_rows(held(ordered@)),
                    trace_rows(kept@) == newest.take(i as int),
            {
                let ghost before = kept@;
                let row = ordered[i].clone();
                let ghost new = row@;
                kept.push(row);
                assert(trace_rows(kept@) =~= trace_rows(before).push(new));
                assert(newest.take(i + 1) == newest.take(i as int).push(newest[i as int]));
            }
            Ok(kept)
        },
        Err(error) => Err(error),
    }
}

/// Drops the oldest messages until the rest takes no more than the limit.
pub fn trim_runtime_capacity(rows: Vec<RuntimeRow>) -> (kept: Result<Vec<RuntimeRow>, StoreError>)
    ensures
        trims_logs(runtime_rows(rows@), logs_outcome(kept)),
{
    let mut all: Vec<&RuntimeRow> = Vec::new();
    for i in 0..rows.len()
        invariant
            held(all@) == rows@.take(i as int),
    {
        let ghost before = all@;
        all.push(&rows[i]);
        assert(held(all@) =~= held(before).push(rows@[i as int]));
        assert(rows@.take(i + 1) == rows@.take(i as int).push(rows@[i as int]));
    }
    assert(rows@.take(rows.len() as int) == rows@);
    let ordered = sort_rows(all);
    let ghost newest = runtime_rows(held(ordered@));
    proof {
        let view = |row: RuntimeRow| row@;
        lemma_map_multiset(held(ordered@), rows@, view);
        assert forall|i: int, j: int| 0 <= i < j < newest.len() implies newer_log(
            #[trigger] newest[i],
            #[trigger] newest[j],
        ) by {
            assert(held(ordered@)[i].may_precede(held(ordered@)[j]));
        }
        assert(newest_logs(runtime_rows(rows@), newest));
        lemma_same_contents(newest, runtime_rows(rows@));
    }
    let mut sizes: Vec<i64> = Vec::new();
    for i in 0..ordered.len()
        invariant
            newest == runtime_rows(held(ordered@)),
            sizes@ == log_sizes(newest).take(i as int),
    {
        assert(log_sizes(newest)[i as int] == ordered@[i as int].stored_bytes);
        sizes.push(ordered[i].stored_bytes);
        assert(log_sizes(newest).take(i + 1) == log_sizes(newest).take(i as int).push(
            log_sizes(newest)[i as int],
        ));
    }
    assert(log_sizes(newest).take(ordered.len() as int) == log_sizes(newest));
    match count_kept(&sizes, RUNTIME_LOG_LIMIT_BYTES) {
        Ok(number) => {
            if number == rows.len() {
                return Ok(rows);
            }
            let mut kept: Vec<RuntimeRow> = Vec::new();
            for i in 0..number
                invariant
                    number <= ordered.len(),
                    newest == runtime_rows(held(ordered@)),
                    runtime_rows(kept@) == newest.take(i as int),
            {
                let ghost before = kept@;
                let row = ordered[i].clone();
                let ghost new = row@;
                kept.push(row);
                assert(runtime_rows(kept@) =~= runtime_rows(before).push(new));
                assert(newest.take(i + 1) == newest.take(i as int).push(newest[i as int]));
            }
            Ok(kept)
        },
        Err(error) => Err(error),
    }
}

/// Whether a step stays when only some of the requests do: the steps of a request go with it.
pub open spec fn event_stays(
    before: Seq<TraceRow<Seq<char>>>,
    after: Seq<TraceRow<Seq<char>>>,
    event: EventRow<Seq<char>>,
) -> bool {
    has_trace(after, event.trace_id) || !has_trace(before, event.trace_id)
}

/// Whether a step refers to a payload.
pub open spec fn in_use(events: Seq<EventRow<Seq<char>>>, payload_id: i64) -> bool {
    exists|i: int| 0 <= i < events.len() && (#[trigger] events[i]).payload_id == Some(payload_id)
}

/// The log when only these requests and messages are left of it: the steps of the other requests
/// are gone, and so is every payload that no step refers to.
pub open spec fn with_only(
    tables: Tables,
    traces: Seq<TraceRow<Seq<char>>>,
    logs: Seq<RuntimeRow<Seq<char>>>,
) -> Tables {
    let events = tables.events.filter(
        |event: EventRow<Seq<char>>| event_stays(tables.traces, traces, event),
    );
    Tables {
        traces,
        events,
        payloads: tables.payloads.filter(
            |row: PayloadRow<Seq<char>, Seq<u8>>| in_use(events, row.payload_id),
        ),
        runtime_logs: logs,
        ..tables
    }
}

/// The identifiers of requests, in order.
fn sorted_ids<'a>(rows: &'a Vec<TraceRow>) -> (ids: Vec<&'a String>)
    ensures
        in_order(held(ids@)),
        held(ids@).to_multiset() == rows@.map_values(|row: TraceRow| row.trace_id).to_multiset(),
{
    let ghost expected = rows@.map_values(|row: TraceRow| row.trace_id);
    let mut ids: Vec<&'a String> = Vec::new();
    for i in 0..rows.len()
        invariant
            expected == rows@.map_values(|row: TraceRow| row.trace_id),
            held(ids@) == expected.take(i as int),
    {
        let ghost before = ids@;
        ids.push(&rows[i].trace_id);
        assert(held(ids@) =~= held(before).push(expected[i as int]));
        assert(expected.take(i + 1) == expected.take(i as int).push(expected[i as int]));
    }
    assert(expected.take(rows.len() as int) == expected);
    sort_rows(ids)
}

/// Tells whether an identifier is among those of requests, which are in order.
fn is_listed(rows: &Vec<TraceRow>, ids: &Vec<&String>, id: &String) -> (is: bool)
    requires
        in_order(held(ids@)),
        held(ids@).to_multiset() == rows@.map_values(|row: TraceRow| row.trace_id).to_multiset(),
    ensures
        is == has_trace(trace_rows(rows@), id@),
{
    let is = ranks(ids, id);
    proof {
        let listed = held(ids@);
        let known = rows@.map_values(|row: TraceRow| row.trace_id);
        lemma_same_contents(listed, known);
        if is {
            let i = choose|i: int| 0 <= i < ids.len() && same_rank(#[trigger] listed[i], *id);
            lemma_same_text_rank(listed[i], *id);
            assert(listed.contains(listed[i]));
            assert(known.contains(listed[i]));
            let j = choose|j: int| 0 <= j < known.len() && known[j] == listed[i];
            assert(trace_rows(rows@)[j].trace_id == id@);
        }
        if has_trace(trace_rows(rows@), id@) {
            let j = choose|j: int|
                0 <= j < rows@.len() && (#[trigger] trace_rows(rows@)[j]).trace_id == id@;
            assert(known[j] == rows@[j].trace_id);
            assert(known.contains(known[j]));
            assert(listed.contains(known[j]));
            let i = choose|i: int| 0 <= i < listed.len() && listed[i] == known[j];
            lemma_same_text_rank(listed[i], *id);
            assert(same_rank(listed[i], *id));
        }
    }
    is
}

impl LogStore {
    /// The steps that stay when only these requests do.
    fn events_of(&self, traces: &Vec<TraceRow>) -> (kept: Vec<EventRow>)
        ensures
            event_rows(kept@) == self@.events.filter(
                |event: EventRow<Seq<char>>|
                    event_stays(self@.traces, trace_rows(traces@), event),
            ),
    {
        let before = sorted_ids(&self.traces);
        let after = sorted_ids(traces);
        let ghost keep = |event: EventRow<Seq<char>>|
            event_stays(self@.traces, trace_rows(traces@), event);
        let mut kept: Vec<EventRow> = Vec::new();
        proof {
            reveal(Seq::filter);
        }
        assert(event_rows(kept@) =~= self@.events.take(0).filter(keep));
        for i in 0..self.events.len()
            invariant
                in_order(held(before@)),
                held(before@).to_multiset() == self.traces@.map_values(
                    |row: TraceRow| row.trace_id,
                ).to_multiset(),
                in_order(held(after@)),
                held(after@).to_multiset() == traces@.map_values(
                    |row: TraceRow| row.trace_id,
                ).to_multiset(),
                keep == (|event: EventRow<Seq<char>>|
                    event_stays(self@.traces, trace_rows(traces@), event)),
                event_rows(kept@) == self@.events.take(i as int).filter(keep),
        {
            let ghost so_far = kept@;
            let ghost row = self.events@[i as int];
            proof {
                self@.events.take(i as int).lemma_filter_push(row@, keep);
                assert(self@.events.take(i + 1) == self@.events.take(i as int).push(row@));
            }
            let id = &self.events[i].trace_id;
            if is_listed(traces, &after, id) || !is_listed(&self.traces, &before, id) {
                let copy = self.events[i].clone();
                let ghost new = copy@;
                kept.push(copy);
                assert(event_rows(kept@) =~= event_rows(so_far).push(new));
            }
        }
        assert(self@.events.take(self.events.len() as int) == self@.events);
        kept
    }

    /// The payloads that steps refer to.
    fn payloads_of(&self, events: &Vec<EventRow>) -> (kept: Vec<PayloadRow>)
        ensures
            payload_rows(kept@) == self@.payloads.filter(
                |row: PayloadRow<Seq<char>, Seq<u8>>| in_use(event_rows(events@), row.payload_id),
            ),
    {
        let ghost steps = event_rows(events@);
        let mut ids: Vec<i64> = Vec::new();
        for i in 0..events.len()
            invariant
                steps == event_rows(events@),
                forall|id: i64|
                    ids@.contains(id) <==> exists|j: int|
                        0 <= j < i && (#[trigger] steps[j]).payload_id == Some(id),
        {
            let ghost so_far = ids@;
            assert(steps[i as int].payload_id == events@[i as int].payload_id);
            match events[i].payload_id {
                Some(id) => {
                    ids.push(id);
                    assert forall|other: i64| ids@.contains(other) <==> exists|j: int|
                        0 <= j < i + 1 && (#[trigger] steps[j]).payload_id == Some(other) by {
                        assert(ids@[so_far.len() as int] == id);
                        if so_far.contains(other) {
                            let at = so_far.index_of(other);
                            assert(ids@[at] == other);
                        }
                        if ids@.contains(other) && other != id {
                            let at = ids@.index_of(other);
                            assert(so_far[at] == other);
                        }
                    }
                },
                None => {},
            }
        }
        let mut found: Vec<&i64> = Vec::new();
        for i in 0..ids.len()
            invariant
                held(found@) == ids@.take(i as int),
        {
            let ghost so_far = found@;
            found.push(&ids[i]);
            assert(held(found@) =~= held(so_far).push(ids@[i as int]));
            assert(ids@.take(i + 1) == ids@.take(i as int).push(ids@[i as int]));
        }
        assert(ids@.take(ids.len() as int) == ids@);
        let ordered = sort_rows(found);
        let ghost known = held(ordered@);
        proof {
            lemma_same_contents(known, ids@);
            assert forall|id: i64| known.contains(id) <==> #[trigger] in_use(steps, id) by {
                assert(known.contains(id) <==> ids@.contains(id));
            }
        }
        let ghost keep = |row: PayloadRow<Seq<char>, Seq<u8>>| in_use(steps, row.payload_id);
        let mut kept: Vec<PayloadRow> = Vec::new();
        proof {
            reveal(Seq::filter);
        }
        assert(payload_rows(kept@) =~= self@.payloads.take(0).filter(keep));
        for i in 0..self.payloads.len()
            invariant
                known == held(ordered@),
                in_order(known),
                forall|id: i64| known.contains(id) <==> #[trigger] in_use(steps, id),
                keep == (|row: PayloadRow<Seq<char>, Seq<u8>>| in_use(steps, row.payload_id)),
                payload_rows(kept@) == self@.payloads.take(i as int).filter(keep),
        {
            let ghost so_far = kept@;
            let ghost row = self.payloads@[i as int];
            proof {
                self@.payloads.take(i as int).lemma_filter_push(row@, keep);
                assert(self@.payloads.take(i + 1) == self@.payloads.take(i as int).push(row@));
            }
            let used = ranks(&ordered, &self.payloads[i].payload_id);
            proof {
                let id = row.payload_id;
                if known.contains(id) {
                    let at = known.index_of(id);
                    assert(same_rank(known[at], id));
                }
                if used {
                    let at = choose|at: int|
                        0 <= at < ordered.len() && same_rank(#[trigger] known[at], id);
                    assert(known[at] == id);
                    assert(known.contains(id));
                }
                assert(used == in_use(steps, id));
            }
            if used {
                let copy = self.payloads[i].clone();
                let ghost new = copy@;
                kept.push(copy);
                assert(payload_rows(kept@) =~= payload_rows(so_far).push(new));
            }
        }
        assert(self@.payloads.take(self.payloads.len() as int) == self@.payloads);
        kept
    }

    /// Leaves only these requests and messages, and what belongs to them.
    fn keep_only(&mut self, traces: Vec<TraceRow>, logs: Vec<RuntimeRow>)
        ensures
            final(self)@ == with_only(old(self)@, trace_rows(traces@), runtime_rows(logs@)),
    {
        let events = self.events_of(&traces);
        let payloads = self.payloads_of(&events);
        self.traces = traces;
        self.events = events;
        self.payloads = payloads;
        self.runtime_logs = logs;
    }
}

/// The requests that started at a time or later.
pub open spec fn traces_since(rows: Seq<TraceRow<Seq<char>>>, cutoff: int) -> Seq<
    TraceRow<Seq<char>>,
> {
    rows.filter(|row: TraceRow<Seq<char>>| row.started_at >= cutoff)
}

/// The messages that occurred at a time or later.
pub open spec fn logs_since(rows: Seq<RuntimeRow<Seq<char>>>, cutoff: int) -> Seq<
    RuntimeRow<Seq<char>>,
> {
    rows.filter(|row: RuntimeRow<Seq<char>>| row.occurred_at >= cutoff)
}

/// Whether maintenance at that time came out so: requests and messages that are older than the
/// time they are kept for are gone, then the oldest of what takes more than the limits, and what
/// belonged to them; or, on an error, nothing is changed.
pub open spec fn maintains(
    before: Tables,
    now: int,
    after: Tables,
    result: Result<(), StoreError>,
) -> bool {
    exists|
        traces: Result<Seq<TraceRow<Seq<char>>>, StoreError>,
        logs: Result<Seq<RuntimeRow<Seq<char>>>, StoreError>,
    |
        {
            &&& #[trigger] trims_traces(
                traces_since(before.traces, now - RETENTION_MILLIS),
                traces,
            )
            &&& #[trigger] trims_logs(logs_since(before.runtime_logs, now - RETENTION_MILLIS), logs)
            &&& match (traces, logs) {
                (Ok(kept_traces), Ok(kept_logs)) => result is Ok && after == with_only(
                    before,
                    kept_traces,
                    kept_logs,
                ),
                (Ok(_), Err(error)) => result == Err::<(), StoreError>(error) && after == before,
                (Err(error), _) => result == Err::<(), StoreError>(error) && after == before,
            }
        }
}

impl LogStore {
    /// The requests that started at a time or later.
    fn recent_traces(&self, cutoff: i64) -> (kept: Vec<TraceRow>)
        ensures
            trace_rows(kept@) == traces_since(self@.traces, cutoff as int),
    {
        let ghost keep = |row: TraceRow<Seq<char>>| row.started_at >= cutoff as int;
        let mut kept: Vec<TraceRow> = Vec::new();
        proof {
            reveal(Seq::filter);
        }
        assert(trace_rows(kept@) =~= self@.traces.take(0).filter(keep));
        for i in 0..self.traces.len()
            invariant
                keep == (|row: TraceRow<Seq<char>>| row.started_at >= cutoff as int),
                trace_rows(kept@) == self@.traces.take(i as int).filter(keep),
        {
            let ghost so_far = kept@;
            let ghost row = self.traces@[i as int];
            proof {
                self@.traces.take(i as int).lemma_filter_push(row@, keep);
                assert(self@.traces.take(i + 1) == self@.traces.take(i as int).push(row@));
            }
            if self.traces[i].started_at >= cutoff {
                let copy = self.traces[i].clone();
                let ghost new = copy@;
                kept.push(copy);
                assert(trace_rows(kept@) =~= trace_rows(so_far).push(new));
            }
        }
        assert(self@.traces.take(self.traces.len() as int) == self@.traces);
        kept
    }

    /// The messages that occurred at a time or later.
    fn recent_logs(&self, cutoff: i64) -> (kept: Vec<RuntimeRow>)
        ensures
            runtime_rows(kept@) == logs_since(self@.runtime_logs, cutoff as int),
    {
        let ghost keep = |row: RuntimeRow<Seq<char>>| row.occurred_at >= cutoff as int;
        let mut kept: Vec<RuntimeRow> = Vec::new();
        proof {
            reveal(Seq::filter);
        }
        assert(runtime_rows(kept@) =~= self@.runtime_logs.take(0).filter(keep));
        for i in 0..self.runtime_logs.len()
            invariant
                keep == (|row: RuntimeRow<Seq<char>>| row.occurred_at >= cutoff as int),
                runtime_rows(kept@) == self@.runtime_logs.take(i as int).filter(keep),
        {
            let ghost so_far = kept@;
            let ghost row = self.runtime_logs@[i as int];
            proof {
                self@.runtime_logs.take(i as int).lemma_filter_push(row@, keep);
                assert(self@.runtime_logs.take(i + 1) == self@.runtime_logs.take(i as int).push(
                    row@,
                ));
            }
            if self.runtime_logs[i].occurred_at >= cutoff {
                let copy = self.runtime_logs[i].clone();
                let ghost new = copy@;
                kept.push(copy);
                assert(runtime_rows(kept@) =~= runtime_rows(so_far).push(new));
            }
        }
        assert(self@.runtime_logs.take(self.runtime_logs.len() as int) == self@.runtime_logs);
        kept
    }

    /// Does maintenance at that time.
    pub fn maintain_at(&mut self, now: i64) -> (result: Result<(), StoreError>)
        requires
            now - RETENTION_MILLIS >= i64::MIN,
        ensures
            maintains(old(self)@, now as int, final(self)@, result),
    {
        let cutoff = now - RETENTION_MILLIS;
        let traces = trim_trace_capacity(self.recent_traces(cutoff));
        let logs = trim_runtime_capacity(self.recent_logs(cutoff));
        let ghost kept_traces = traces_outcome(traces);
        let ghost kept_logs = logs_outcome(logs);
        assert(trims_traces(traces_since(self@.traces, now - RETENTION_MILLIS), kept_traces));
        assert(trims_logs(logs_since(self@.runtime_logs, now - RETENTION_MILLIS), kept_logs));
        match traces {
            Ok(trace_rows_kept) => match logs {
                Ok(log_rows_kept) => {
                    self.keep_only(trace_rows_kept, log_rows_kept);
                    Ok(())
                },
                Err(error) => Err(error),
            },
            Err(error) => Err(error),
        }
    }

    /// Does maintenance now.
    pub fn run_maintenance(&mut self) -> (result: Result<(), StoreError>)
        ensures
            exists|now: int|
                0 <= now <= i64::MAX && #[trigger] maintains(
                    old(self)@,
                    now,
                    final(self)@,
                    result,
                ),
    {
        let now = now_millis();
        self.maintain_at(now)
    }
}

/// The log when a category is cleared, if there is a category of that name: the requests, the
/// messages, or both.
pub open spec fn cleared(tables: Tables, kind: Seq<char>) -> Option<Tables> {
    if kind == "requests"@ {
        Some(with_only(tables, Seq::empty(), tables.runtime_logs))
    } else if kind == "runtime"@ {
        Some(with_only(tables, tables.traces, Seq::empty()))
    } else if kind == "all"@ {
        Some(with_only(tables, Seq::empty(), Seq::empty()))
    } else {
        None
    }
}

impl LogStore {
    /// Clears a category of the log, and tells whether there is one of that name.
    pub fn clear_category(&mut self, kind: &str) -> (known: bool)
        ensures
            match cleared(old(self)@, kind@) {
                Some(tables) => known && final(self)@ == tables,
                None => !known && final(self)@ == old(self)@,
            },
    {
        proof {
            reveal_strlit("requests");
            reveal_strlit("runtime");
            reveal_strlit("all");
            assert("requests"@.len() == 8 && "runtime"@.len() == 7 && "all"@.len() == 3);
        }
        let requests = same_text(kind, "requests");
        let runtime = same_text(kind, "runtime");
        let all = same_text(kind, "all");
        if !requests && !runtime && !all {
            return false;
        }
        let traces: Vec<TraceRow> = if requests || all {
            Vec::new()
        } else {
            self.traces.clone()
        };
        let logs: Vec<RuntimeRow> = if runtime || all {
            Vec::new()
        } else {
            self.runtime_logs.clone()
        };
        assert(trace_rows(traces@) =~= if requests || all {
            Seq::empty()
        } else {
            self@.traces
        });
        assert(runtime_rows(logs@) =~= if runtime || all {
            Seq::empty()
        } else {
            self@.runtime_logs
        });
        self.keep_only(traces, logs);
        true
    }

    /// The bytes stored for requests and for messages, unless a sum is out of range.
    pub fn stored_totals(&self) -> (totals: Option<(i64, i64)>)
        ensures
            match totals {
                Some((requests, messages)) => requests == total(trace_sizes(self@.traces))
                    && messages == total(log_sizes(self@.runtime_logs)),
                None => !fits(total(trace_sizes(self@.traces))) || !fits(
                    total(log_sizes(self@.runtime_logs)),
                ),
            },
    {
        let mut request_sizes: Vec<i64> = Vec::new();
        for i in 0..self.traces.len()
            invariant
                request_sizes@ == trace_sizes(self@.traces).take(i as int),
        {
            request_sizes.push(self.traces[i].stored_bytes);
            assert(request_sizes@ =~= trace_sizes(self@.traces).take(i + 1));
        }
        assert(request_sizes@ =~= trace_sizes(self@.traces));
        let mut message_sizes: Vec<i64> = Vec::new();
        for i in 0..self.runtime_logs.len()
            invariant
                message_sizes@ == log_sizes(self@.runtime_logs).take(i as int),
        {
            message_sizes.push(self.runtime_logs[i].stored_bytes);
            assert(message_sizes@ =~= log_sizes(self@.runtime_logs).take(i + 1));
        }
        assert(message_sizes@ =~= log_sizes(self@.runtime_logs));
        let requests = sum_up(&request_sizes);
        let messages = sum_up(&message_sizes);
        if requests < i64::MIN as i128 || requests > i64::MAX as i128 || messages < i64::MIN as i128
            || messages > i64::MAX as i128 {
            None
        } else {
            Some((requests as i64, messages as i64))
        }
    }
}

/// The identifiers of rows that are gone.
#[derive(Debug)]
pub struct Removed {
    pub traces: Vec<String>,
    pub events: Vec<i64>,
    pub payloads: Vec<i64>,
    pub logs: Vec<i64>,
}

/// The identifiers of requests.
pub open spec fn trace_ids(rows: Seq<TraceRow<Seq<char>>>) -> Seq<Seq<char>> {
    rows.map_values(|row: TraceRow<Seq<char>>| row.trace_id)
}

/// The identifiers of steps.
pub open spec fn event_ids(rows: Seq<EventRow<Seq<char>>>) -> Seq<i64> {
    rows.map_values(|row: EventRow<Seq<char>>| row.event_id)
}

/// The identifiers of payloads.
pub open spec fn payload_ids(rows: Seq<PayloadRow<Seq<char>, Seq<u8>>>) -> Seq<i64> {
    rows.map_values(|row: PayloadRow<Seq<char>, Seq<u8>>| row.payload_id)
}

/// The identifiers of messages.
pub open spec fn log_ids(rows: Seq<RuntimeRow<Seq<char>>>) -> Seq<i64> {
    rows.map_values(|row: RuntimeRow<Seq<char>>| row.log_id)
}

/// What is in a sequence and not in another.
pub open spec fn missing<A>(before: Seq<A>, after: Seq<A>) -> Seq<A> {
    before.filter(|item: A| !after.contains(item))
}

/// What texts are.
pub open spec fn texts_view(texts: Seq<String>) -> Seq<Seq<char>> {
    texts.map_values(|text: String| text@)
}

/// Finds the numbers that are among some and not among others.
fn find_missing(before: &Vec<i64>, after: &Vec<i64>) -> (gone: Vec<i64>)
    ensures
        gone@ == missing(before@, after@),
{
    let mut all: Vec<&i64> = Vec::new();
    for i in 0..after.len()
        invariant
            held(all@) == after@.take(i as int),
    {
        let ghost so_far = all@;
        all.push(&after[i]);
        assert(held(all@) =~= held(so_far).push(after@[i as int]));
        assert(after@.take(i + 1) == after@.take(i as int).push(after@[i as int]));
    }
    assert(after@.take(after.len() as int) == after@);
    let ordered = sort_rows(all);
    let ghost known = held(ordered@);
    proof {
        lemma_same_contents(known, after@);
        reveal(Seq::filter);
    }
    let ghost keep = |item: i64| !after@.contains(item);
    let mut gone: Vec<i64> = Vec::new();
    assert(gone@ =~= before@.take(0).filter(keep));
    for i in 0..before.len()
        invariant
            known == held(ordered@),
            in_order(known),
            forall|item: i64| #[trigger] known.contains(item) == after@.contains(item),
            keep == (|item: i64| !after@.contains(item)),
            gone@ == before@.take(i as int).filter(keep),
    {
        let id = before[i];
        proof {
            before@.take(i as int).lemma_filter_push(id, keep);
            assert(before@.take(i + 1) == before@.take(i as int).push(id));
        }
        let there = ranks(&ordered, &id);
        proof {
            if known.contains(id) {
                let at = known.index_of(id);
                assert(same_rank(known[at], id));
            }
            if there {
                let at = choose|at: int|
                    0 <= at < ordered.len() && same_rank(#[trigger] known[at], id);
                assert(known[at] == id);
                assert(known.contains(id));
            }
        }
        if !there {
            gone.push(id);
        }
    }
    assert(before@.take(before.len() as int) == before@);
    gone
}

impl LogStore {
    fn list_event_ids(&self) -> (ids: Vec<i64>)
        ensures
            ids@ == event_ids(self@.events),
    {
        let mut ids: Vec<i64> = Vec::new();
        for i in 0..self.events.len()
            invariant
                ids@ == event_ids(self@.events).take(i as int),
        {
            ids.push(self.events[i].event_id);
            assert(ids@ =~= event_ids(self@.events).take(i + 1));
        }
        assert(ids@ =~= event_ids(self@.events));
        ids
    }

    fn list_payload_ids(&self) -> (ids: Vec<i64>)
        ensures
            ids@ == payload_ids(self@.payloads),
    {
        let mut ids: Vec<i64> = Vec::new();
        for i in 0..self.payloads.len()
            invariant
                ids@ == payload_ids(self@.payloads).take(i as int),
        {
            ids.push(self.payloads[i].payload_id);
            assert(ids@ =~= payload_ids(self@.payloads).take(i + 1));
        }
        assert(ids@ =~= payload_ids(self@.payloads));
        ids
    }

    fn list_log_ids(&self) -> (ids: Vec<i64>)
        ensures
            ids@ == log_ids(self@.runtime_logs),
    {
        let mut ids: Vec<i64> = Vec::new();
        for i in 0..self.runtime_logs.len()
            invariant
                ids@ == log_ids(self@.runtime_logs).take(i as int),
        {
            ids.push(self.runtime_logs[i].log_id);
            assert(ids@ =~= log_ids(self@.runtime_logs).take(i + 1));
        }
        assert(ids@ =~= log_ids(self@.runtime_logs));
        ids
    }

    /// The identifiers of requests that are in the log and not in another.
    fn missing_traces(&self, after: &LogStore) -> (gone: Vec<String>)
        ensures
            texts_view(gone@) == missing(trace_ids(self@.traces), trace_ids(after@.traces)),
    {
        let ids = sorted_ids(&after.traces);
        let ghost all = trace_ids(self@.traces);
        let ghost left = trace_ids(after@.traces);
        let ghost keep = |item: Seq<char>| !left.contains(item);
        let mut gone: Vec<String> = Vec::new();
        proof {
            reveal(Seq::filter);
        }
        assert(texts_view(gone@) =~= all.take(0).filter(keep));
        for i in 0..self.traces.len()
            invariant
                in_order(held(ids@)),
                held(ids@).to_multiset() == after.traces@.map_values(
                    |row: TraceRow| row.trace_id,
                ).to_multiset(),
                all == trace_ids(self@.traces),
                left == trace_ids(after@.traces),
                keep == (|item: Seq<char>| !left.contains(item)),
                texts_view(gone@) == all.take(i as int).filter(keep),
        {
            let ghost so_far = gone@;
            let id = &self.traces[i].trace_id;
            assert(all[i as int] == id@);
            proof {
                all.take(i as int).lemma_filter_push(id@, keep);
                assert(all.take(i + 1) == all.take(i as int).push(id@));
            }
            let there = is_listed(&after.traces, &ids, id);
            assert(there == left.contains(id@)) by {
                if there {
                    let at = choose|at: int|
                        0 <= at < after@.traces.len() && (#[trigger] after@.traces[at]).trace_id
                            == id@;
                    assert(left[at] == id@);
                }
                if left.contains(id@) {
                    let at = left.index_of(id@);
                    assert(after@.traces[at].trace_id == id@);
                }
            }
            if !there {
                let copy = id.clone();
                let ghost new = copy@;
                gone.push(copy);
                assert(texts_view(gone@) =~= texts_view(so_far).push(new));
            }
        }
        assert(all.take(self.traces.len() as int) == all);
        gone
    }

    /// The identifiers of rows that are in the log and not in another.
    pub fn missing_in(&self, after: &LogStore) -> (removed: Removed)
        ensures
            texts_view(removed.traces@) == missing(
                trace_ids(self@.traces),
                trace_ids(after@.traces),
            ),
            removed.events@ == missing(event_ids(self@.events), event_ids(after@.events)),
            removed.payloads@ == missing(payload_ids(self@.payloads), payload_ids(after@.payloads)),
            removed.logs@ == missing(log_ids(self@.runtime_logs), log_ids(after@.runtime_logs)),
    {
        Removed {
            traces: self.missing_traces(after),
            events: find_missing(&self.list_event_ids(), &after.list_event_ids()),
            payloads: find_missing(&self.list_payload_ids(), &after.list_payload_ids()),
            logs: find_missing(&self.list_log_ids(), &after.list_log_ids()),
        }
    }
}

} // verus!
