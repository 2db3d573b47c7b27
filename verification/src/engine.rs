//! One aggregation pass over one strategy: the fetched snapshot is merged,
//! the trades read from the log enter the history, and the alert rules are
//! evaluated on the result.
//!
//! The two sources are independent. A failed fetch leaves the snapshot as
//! it was and only marks it stale; the trades are recorded all the same.

use vstd::prelude::*;
use crate::data::{
    position_views,
    remaining_day_trades,
    day_trades_left,
    AccountSnapshot,
    FailureCause,
    Position,
    PositionView,
    StaleMarker,
    StrategyData,
    StrategyDataView,
    TradeView,
};
use crate::history::{
    contains_event,
    lemma_record_keeps_distinct,
    lemma_record_keeps_order,
    lemma_record_twice,
    record,
    record_trade,
};
use crate::log_parser::{event_views, LineEvent, LineEventView};
use crate::positions::{key_positions, keyed_positions, lemma_keyed_positions_distinct};

verus! {

/// How a fetch ended.
#[derive(Debug, PartialEq, Eq)]
pub enum FetchOutcome {
    /// A snapshot and the open positions of the same instant.
    Fresh(AccountSnapshot, Vec<Position>),
    /// No snapshot, for this cause.
    Failed(FailureCause),
}

/// What a [`FetchOutcome`] holds, as mathematical values.
pub enum FetchOutcomeView {
    Fresh(AccountSnapshot, Seq<PositionView>),
    Failed(FailureCause),
}

impl View for FetchOutcome {
    type V = FetchOutcomeView;

    open spec fn view(&self) -> FetchOutcomeView {
        match self {
            FetchOutcome::Fresh(s, p) => FetchOutcomeView::Fresh(*s, position_views(p@)),
            FetchOutcome::Failed(c) => FetchOutcomeView::Failed(*c),
        }
    }
}

/// Whether the snapshot may be merged: it is not older than the state.
pub open spec fn merge_accepts(d: StrategyDataView, snapshot: AccountSnapshot) -> bool {
    snapshot.as_of >= d.last_updated
}

/// The state once a snapshot and its positions are merged: the account
/// figures and the positions are replaced together, the day trades left
/// follow from those used, and the state is fresh. The trade history stays.
pub open spec fn merged(d: StrategyDataView, snapshot: AccountSnapshot, positions: Seq<PositionView>) -> StrategyDataView {
    StrategyDataView {
        name: d.name,
        portfolio_value: snapshot.portfolio_value,
        buying_power: snapshot.buying_power,
        cash: snapshot.cash,
        day_trades_used: snapshot.day_trades_used,
        day_trades_remaining: remaining_day_trades(snapshot.day_trades_used),
        positions: keyed_positions(positions),
        recent_trades: d.recent_trades,
        last_updated: snapshot.as_of,
        stale: None,
    }
}

/// The state once a fetch failed for `cause` at `now`: nothing changes but
/// the mark, which keeps the instant of the first failure in a row.
pub open spec fn marked_stale(d: StrategyDataView, cause: FailureCause, now: i64) -> StrategyDataView {
    StrategyDataView {
        stale: Some(
            StaleMarker {
                since: match d.stale {
                    Some(m) => m.since,
                    None => now,
                },
                cause,
            },
        ),
        ..d
    }
}

/// The state once the outcome of a fetch is applied. A snapshot older than
/// the state is refused and the state stays as it was.
pub open spec fn after_fetch(d: StrategyDataView, outcome: FetchOutcomeView, now: i64) -> StrategyDataView {
    match outcome {
        FetchOutcomeView::Fresh(snapshot, positions) => if merge_accepts(d, snapshot) {
            merged(d, snapshot, positions)
        } else {
            d
        },
        FetchOutcomeView::Failed(cause) => marked_stale(d, cause, now),
    }
}

/// Whether the outcome holds a snapshot that is refused.
pub open spec fn refused(d: StrategyDataView, outcome: FetchOutcomeView) -> bool {
    outcome matches FetchOutcomeView::Fresh(snapshot, _) && !merge_accepts(d, snapshot)
}

/// What became of the lines of one pass.
pub struct Ingest {
    /// The history after the pass.
    pub history: Seq<TradeView>,
    /// How many trades were new to the history.
    pub fresh: nat,
    /// How many lines had the shape of a trade and an invalid field.
    pub faults: nat,
}

/// The history and the counts once the events were taken in, in turn.
/// A line with a fault is counted and the lines after it are read on.
pub open spec fn ingest(h: Seq<TradeView>, events: Seq<LineEventView>, cap: int) -> Ingest
    decreases events.len(),
{
    if events.len() == 0 {
        Ingest { history: h, fresh: 0, faults: 0 }
    } else {
        let before = ingest(h, events.drop_last(), cap);
        match events.last() {
            LineEventView::Trade(t) => Ingest {
                history: record(before.history, t, cap),
                fresh: before.fresh + if contains_event(before.history, t) {
                    0nat
                } else {
                    1nat
                },
                faults: before.faults,
            },
            LineEventView::NotTrade => before,
            LineEventView::ParseError(_) => Ingest { faults: before.faults + 1, ..before },
        }
    }
}

/// The state once the events of the log were taken in.
pub open spec fn after_events(d: StrategyDataView, events: Seq<LineEventView>, cap: int) -> StrategyDataView {
    StrategyDataView { recent_trades: ingest(d.recent_trades, events, cap).history, ..d }
}

/// The state after one pass: the fetch is applied first, then the events.
pub open spec fn after_pass(
    d: StrategyDataView,
    outcome: FetchOutcomeView,
    events: Seq<LineEventView>,
    cap: int,
    now: i64,
) -> StrategyDataView {
    after_events(after_fetch(d, outcome, now), events, cap)
}

/// After a merge the day trades left are three less those used, and never
/// below zero.
pub proof fn lemma_merged_day_trades(d: StrategyDataView, snapshot: AccountSnapshot, positions: Seq<PositionView>)
    ensures
        merged(d, snapshot, positions).day_trades_remaining + merged(d, snapshot, positions).day_trades_used
            == 3 || (merged(d, snapshot, positions).day_trades_remaining == 0 && merged(
            d,
            snapshot,
            positions,
        ).day_trades_used >= 3),
        merged(d, snapshot, positions).day_trades_remaining == remaining_day_trades(
            merged(d, snapshot, positions).day_trades_used,
        ),
{
}

/// Taking events in keeps the history ordered and free of duplicates, and
/// counts no more than there are events.
pub proof fn lemma_ingest(h: Seq<TradeView>, events: Seq<LineEventView>, cap: int)
    ensures
        crate::data::ordered_by_time(h) ==> crate::data::ordered_by_time(ingest(h, events, cap).history),
        crate::data::distinct_events(h) ==> crate::data::distinct_events(ingest(h, events, cap).history),
        ingest(h, events, cap).fresh + ingest(h, events, cap).faults <= events.len(),
    decreases events.len(),
{
    if events.len() > 0 {
        lemma_ingest(h, events.drop_last(), cap);
        let before = ingest(h, events.drop_last(), cap);
        match events.last() {
            LineEventView::Trade(t) => {
                if crate::data::ordered_by_time(h) {
                    lemma_record_keeps_order(before.history, t, cap);
                }
                if crate::data::distinct_events(h) {
                    lemma_record_keeps_distinct(before.history, t, cap);
                }
            },
            _ => {},
        }
    }
}

/// Reading the same line a second time changes nothing: an ordered history
/// is the same after the event was taken in once and after it was taken in
/// twice.
pub proof fn lemma_event_twice(h: Seq<TradeView>, e: LineEventView, cap: int)
    requires
        crate::data::ordered_by_time(h),
        cap >= 0,
    ensures
        ingest(h, seq![e, e], cap).history == ingest(h, seq![e], cap).history,
{
    let once = seq![e];
    let twice = seq![e, e];
    assert(once.drop_last() =~= Seq::<LineEventView>::empty());
    assert(twice.drop_last() =~= once);
    assert(ingest(h, Seq::<LineEventView>::empty(), cap).history == h);
    assert(once.last() == e);
    assert(twice.last() == e);
    match e {
        LineEventView::Trade(t) => {
            assert(ingest(h, once, cap).history == record(h, t, cap));
            assert(ingest(h, twice, cap).history == record(record(h, t, cap), t, cap));
            lemma_record_twice(h, t, cap);
        },
        _ => {},
    }
}

/// A pass keeps a well-formed state well formed, keeps its name, and never
/// moves its instant back.
pub proof fn lemma_pass_invariants(
    d: StrategyDataView,
    outcome: FetchOutcomeView,
    events: Seq<LineEventView>,
    cap: int,
    now: i64,
)
    ensures
        d.wf() ==> after_pass(d, outcome, events, cap, now).wf(),
        after_pass(d, outcome, events, cap, now).name == d.name,
        after_pass(d, outcome, events, cap, now).last_updated >= d.last_updated,
{
    let f = after_fetch(d, outcome, now);
    match outcome {
        FetchOutcomeView::Fresh(snapshot, positions) => {
            lemma_keyed_positions_distinct(positions);
        },
        _ => {},
    }
    lemma_ingest(f.recent_trades, events, cap);
}

/// One tick of one strategy: the outcome of the fetch, the events read
/// from the log, and the instant of the tick.
pub struct Tick {
    pub outcome: FetchOutcomeView,
    pub events: Seq<LineEventView>,
    pub now: i64,
}

/// The state after the ticks were passed in turn.
pub open spec fn after_ticks(d: StrategyDataView, ticks: Seq<Tick>, cap: int) -> StrategyDataView
    decreases ticks.len(),
{
    if ticks.len() == 0 {
        d
    } else {
        let t = ticks.last();
        after_pass(after_ticks(d, ticks.drop_last(), cap), t.outcome, t.events, cap, t.now)
    }
}

/// Over any sequence of ticks the instant of the state never moves back:
/// after more ticks it is not earlier than after fewer. The state stays
/// well formed, so that after every merge the day trades left are those
/// that the rule gives.
pub proof fn lemma_ticks_monotonic(d: StrategyDataView, ticks: Seq<Tick>, k: int, cap: int)
    requires
        0 <= k <= ticks.len(),
    ensures
        after_ticks(d, ticks, cap).last_updated >= after_ticks(d, ticks.take(k), cap).last_updated,
        after_ticks(d, ticks, cap).last_updated >= d.last_updated,
        after_ticks(d, ticks, cap).name == d.name,
        d.wf() ==> after_ticks(d, ticks, cap).wf(),
    decreases ticks.len(),
{
    if ticks.len() == 0 {
        assert(ticks.take(k) =~= ticks);
    } else {
        let front = ticks.drop_last();
        let t = ticks.last();
        let before = after_ticks(d, front, cap);
        lemma_pass_invariants(before, t.outcome, t.events, cap, t.now);
        if k == ticks.len() {
            assert(ticks.take(k) =~= ticks);
            lemma_ticks_monotonic(d, front, 0, cap);
        } else {
            lemma_ticks_monotonic(d, front, k, cap);
            assert(front.take(k) =~= ticks.take(k));
        }
    }
}

/// Why a snapshot was not merged.
#[derive(Clone, Copy, Debug, PartialEq, Eq, Structural)]
pub enum MergeError {
    /// The snapshot is older than the state; merging it would move the
    /// state's instant back.
    WouldMoveBackward,
}

/// Merges a snapshot and its positions into the state.
///
/// A snapshot that is older than the state is refused and the state stays
/// as it was.
pub fn merge_snapshot(data: &mut StrategyData, snapshot: AccountSnapshot, positions: Vec<Position>) -> (r:
    Result<(), MergeError>)
    ensures
        merge_accepts(old(data)@, snapshot) ==> r is Ok && final(data)@ == merged(
            old(data)@,
            snapshot,
            position_views(positions@),
        ),
        !merge_accepts(old(data)@, snapshot) ==> r == Err::<(), MergeError>(
            MergeError::WouldMoveBackward,
        ) && final(data)@ == old(data)@,
        final(data)@.day_trades_remaining == remaining_day_trades(final(data)@.day_trades_used)
            || !(r is Ok),
        final(data)@.last_updated >= old(data)@.last_updated,
{
    if snapshot.as_of < data.last_updated {
        return Err(MergeError::WouldMoveBackward);
    }
    data.portfolio_value = snapshot.portfolio_value;
    data.buying_power = snapshot.buying_power;
    data.cash = snapshot.cash;
    data.day_trades_used = snapshot.day_trades_used;
    data.day_trades_remaining = day_trades_left(snapshot.day_trades_used);
    data.positions = key_positions(positions);
    data.last_updated = snapshot.as_of;
    data.stale = None;
    Ok(())
}

/// Marks the state stale after a fetch that failed for `cause` at `now`.
/// The snapshot and the positions stay as they were.
pub fn mark_stale(data: &mut StrategyData, cause: FailureCause, now: i64)
    ensures
        final(data)@ == marked_stale(old(data)@, cause, now),
{
    let since = match data.stale {
        Some(m) => m.since,
        None => now,
    };
    data.stale = Some(StaleMarker { since, cause });
}

/// Applies the outcome of a fetch to the state. Returns whether a snapshot
/// was refused for being older than the state.
pub fn apply_fetch(data: &mut StrategyData, outcome: FetchOutcome, now: i64) -> (went_backward: bool)
    ensures
        final(data)@ == after_fetch(old(data)@, outcome@, now),
        went_backward == refused(old(data)@, outcome@),
{
    match outcome {
        FetchOutcome::Fresh(snapshot, positions) => {
            let r = merge_snapshot(data, snapshot, positions);
            r.is_err()
        },
        FetchOutcome::Failed(cause) => {
            mark_stale(data, cause, now);
            false
        },
    }
}

/// The counts of one ingest.
#[derive(Clone, Copy, Debug, PartialEq, Eq, Structural)]
pub struct IngestReport {
    /// How many trades were new to the history.
    pub fresh: usize,
    /// How many lines had the shape of a trade and an invalid field.
    pub faults: usize,
}

/// Takes the events of the log into the history of the state, under the
/// limit `cap`. An event with a fault is counted and does not stop the
/// events after it.
pub fn ingest_events(data: &mut StrategyData, events: &Vec<LineEvent>, cap: usize) -> (r: IngestReport)
    ensures
        final(data)@ == after_events(old(data)@, event_views(events@), cap as int),
        r.fresh == ingest(old(data)@.recent_trades, event_views(events@), cap as int).fresh,
        r.faults == ingest(old(data)@.recent_trades, event_views(events@), cap as int).faults,
{
    let ghost start = data@;
    let ghost all = event_views(events@);
    let mut fresh: usize = 0;
    let mut faults: usize = 0;
    let mut i: usize = 0;
    proof {
        assert(all.take(0) =~= Seq::<LineEventView>::empty());
    }
    while i < events.len()
        invariant
            i <= events.len(),
            all == event_views(events@),
            data@ == after_events(start, all.take(i as int), cap as int),
            fresh == ingest(start.recent_trades, all.take(i as int), cap as int).fresh,
            faults == ingest(start.recent_trades, all.take(i as int), cap as int).faults,
            fresh + faults <= i,
        decreases events.len() - i,
    {
        proof {
            let t = all.take(i + 1);
            assert(t.drop_last() =~= all.take(i as int));
            assert(t.last() == events@[i as int]@);
        }
        match &events[i] {
            LineEvent::Trade(t) => {
                let is_new = record_trade(&mut data.recent_trades, t.clone(), cap);
                if is_new {
                    fresh = fresh + 1;
                }
            },
            LineEvent::NotTrade => {},
            LineEvent::ParseError(_) => {
                faults = faults + 1;
            },
        }
        i = i + 1;
    }
    proof {
        assert(all.take(events.len() as int) =~= all);
    }
    IngestReport { fresh, faults }
}

/// What one pass did.
#[derive(Clone, Copy, Debug, PartialEq, Eq, Structural)]
pub struct PassReport {
    /// Whether a snapshot was refused for being older than the state.
    pub went_backward: bool,
    /// How many trades were new to the history.
    pub fresh_trades: usize,
    /// How many lines had the shape of a trade and an invalid field.
    pub parse_errors: usize,
}

/// The report of a pass over the state `d`.
pub open spec fn pass_report(
    d: StrategyDataView,
    outcome: FetchOutcomeView,
    events: Seq<LineEventView>,
    cap: int,
    now: i64,
) -> PassReport {
    let taken = ingest(after_fetch(d, outcome, now).recent_trades, events, cap);
    PassReport {
        went_backward: refused(d, outcome),
        fresh_trades: taken.fresh as usize,
        parse_errors: taken.faults as usize,
    }
}

/// Runs one pass over the state of one strategy: applies the outcome of
/// the fetch, then takes in the events of the log.
pub fn run_pass(data: &mut StrategyData, outcome: FetchOutcome, events: &Vec<LineEvent>, cap: usize, now: i64) -> (r:
    PassReport)
    ensures
        final(data)@ == after_pass(old(data)@, outcome@, event_views(events@), cap as int, now),
        r == pass_report(old(data)@, outcome@, event_views(events@), cap as int, now),
        old(data)@.wf() ==> final(data)@.wf(),
        final(data)@.last_updated >= old(data)@.last_updated,
        final(data)@.name == old(data)@.name,
{
    proof {
        lemma_pass_invariants(data@, outcome@, event_views(events@), cap as int, now);
    }
    let went_backward = apply_fetch(data, outcome, now);
    let taken = ingest_events(data, events, cap);
    PassReport { went_backward, fresh_trades: taken.fresh, parse_errors: taken.faults }
}

} // verus!
