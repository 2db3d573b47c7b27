//! The aggregation engine: the store, what is remembered of each strategy
//! between passes, and the buffer of recent alerts.
//!
//! The engine does no input or output. Its caller fetches and reads as
//! [`AggregationEngine::begin_pass`] says, and hands what came back to
//! [`AggregationEngine::complete_pass`]. A pass touches the entry of its
//! own strategy only.

use vstd::prelude::*;
use vstd::string::*;
use crate::alerts::{alert_views, keep_recent, observation, observe, push_recent, AlertEvent, AlertEventView};
use crate::config::{AlertSettings, EngineSettings};
use crate::data::{FailureCause, StrategyData, StrategyDataView};
use crate::engine::{
    after_pass,
    lemma_pass_invariants,
    merge_accepts,
    pass_report,
    run_pass,
    FetchOutcome,
    FetchOutcomeView,
    PassReport,
};
use crate::log_parser::{event_views, line_texts, parse_lines, parsed_lines, LineEvent, LineEventView};
use crate::scheduler::{
    begin,
    begun,
    finish,
    finished,
    newly_disabled,
    plan_of,
    plan_pass,
    FetchMode,
    PassPlan,
    Runtime,
    RuntimeTable,
};
use crate::keyed::{distinct_keys, lemma_find_key};
use crate::store::{
    all_wf,
    entry_or_blank,
    lemma_entry_name,
    lemma_put_distinct,
    lemma_put_lookup,
    lookup,
    names,
    put,
    StrategyStateStore,
};

verus! {

/// The cause for which a fetch failed, if it did.
pub open spec fn failure_of(outcome: FetchOutcomeView) -> Option<FailureCause> {
    match outcome {
        FetchOutcomeView::Failed(c) => Some(c),
        FetchOutcomeView::Fresh(_, _) => None,
    }
}

/// Whether the strategy has an entry after the pass: it had one, or the
/// pass merged a snapshot, or the pass left a trade in the history.
pub open spec fn is_known(
    s: Seq<StrategyDataView>,
    name: Seq<char>,
    outcome: FetchOutcomeView,
    events: Seq<LineEventView>,
    cap: int,
    now: i64,
) -> bool {
    let d = entry_or_blank(s, name);
    ||| lookup(s, name) is Some
    ||| (outcome matches FetchOutcomeView::Fresh(snapshot, _) && merge_accepts(d, snapshot))
    ||| after_pass(d, outcome, events, cap, now).recent_trades.len() > 0
}

/// The entries after a pass over the strategy `name`.
pub open spec fn store_after(
    s: Seq<StrategyDataView>,
    name: Seq<char>,
    outcome: FetchOutcomeView,
    events: Seq<LineEventView>,
    cap: int,
    now: i64,
) -> Seq<StrategyDataView> {
    if is_known(s, name, outcome, events, cap, now) {
        put(s, after_pass(entry_or_blank(s, name), outcome, events, cap, now))
    } else {
        s
    }
}

/// The peak and the alerts after a pass over the strategy `name`: those of
/// observing its entry, or the peak as it was and no alert where it has no
/// entry.
pub open spec fn seen_after(
    s: Seq<StrategyDataView>,
    peak: Option<i64>,
    name: Seq<char>,
    outcome: FetchOutcomeView,
    events: Seq<LineEventView>,
    settings: AlertSettings,
    cap: int,
    now: i64,
) -> (Option<i64>, Seq<AlertEventView>) {
    if is_known(s, name, outcome, events, cap, now) {
        let seen = observation(
            peak,
            after_pass(entry_or_blank(s, name), outcome, events, cap, now),
            settings,
            now,
        );
        (Some(seen.0), seen.1)
    } else {
        (peak, Seq::<AlertEventView>::empty())
    }
}

/// A pass over one strategy leaves the entry of every other strategy as it
/// was, whatever the pass was given.
pub proof fn lemma_pass_independent(
    s: Seq<StrategyDataView>,
    name: Seq<char>,
    outcome: FetchOutcomeView,
    events: Seq<LineEventView>,
    cap: int,
    now: i64,
    other: Seq<char>,
)
    requires
        other != name,
    ensures
        lookup(store_after(s, name, outcome, events, cap, now), other) == lookup(s, other),
{
    lemma_entry_name(s, name);
    let d = after_pass(entry_or_blank(s, name), outcome, events, cap, now);
    lemma_put_lookup(s, d, other);
}

/// A pass keeps a store of well-formed entries with distinct names such a
/// store, and moves the instant of no entry back.
pub proof fn lemma_pass_keeps_store(
    s: Seq<StrategyDataView>,
    name: Seq<char>,
    outcome: FetchOutcomeView,
    events: Seq<LineEventView>,
    cap: int,
    now: i64,
)
    ensures
        all_wf(s) ==> all_wf(store_after(s, name, outcome, events, cap, now)),
        distinct_keys(names(s)) ==> distinct_keys(names(store_after(s, name, outcome, events, cap, now))),
        forall|n: Seq<char>|
            entry_or_blank(store_after(s, name, outcome, events, cap, now), n).last_updated
                >= entry_or_blank(s, n).last_updated,
{
    let d0 = entry_or_blank(s, name);
    let d1 = after_pass(d0, outcome, events, cap, now);
    let after = store_after(s, name, outcome, events, cap, now);
    lemma_entry_name(s, name);
    lemma_find_key(names(s), name);
    lemma_pass_invariants(d0, outcome, events, cap, now);
    if is_known(s, name, outcome, events, cap, now) {
        if all_wf(s) {
            assert(d0.wf());
            assert forall|i: int| 0 <= i < after.len() implies (#[trigger] after[i]).wf() by {
                if i < s.len() && after[i] != d1 {
                    assert(s[i].wf());
                }
            }
        }
        if distinct_keys(names(s)) {
            lemma_put_distinct(s, d1);
        }
        assert forall|n: Seq<char>| entry_or_blank(after, n).last_updated >= entry_or_blank(
            s,
            n,
        ).last_updated by {
            lemma_put_lookup(s, d1, n);
        }
    }
}

/// What completing a pass tells its caller.
#[derive(Debug, PartialEq, Eq)]
pub struct TickReport {
    /// What the pass did to the state.
    pub pass: PassReport,
    /// Whether the strategy has an entry in the store after the pass.
    pub known: bool,
    /// Whether fetching was switched off by this pass: tell the operator.
    pub disabled: bool,
    /// The alerts raised by this pass.
    pub alerts: Vec<AlertEvent>,
}

/// The aggregation engine.
pub struct AggregationEngine {
    pub store: StrategyStateStore,
    pub runtimes: RuntimeTable,
    pub recent_alerts: Vec<AlertEvent>,
    pub alert_settings: AlertSettings,
    pub engine_settings: EngineSettings,
}

impl AggregationEngine {
    /// An engine that knows no strategy yet.
    pub fn new(alert_settings: AlertSettings, engine_settings: EngineSettings) -> (r: AggregationEngine)
        ensures
            r.store@ == Seq::<StrategyDataView>::empty(),
            forall|name: Seq<char>| r.runtimes.runtime_of(name) == crate::scheduler::idle(),
            r.recent_alerts@ == Seq::<AlertEvent>::empty(),
            r.alert_settings == alert_settings,
            r.engine_settings == engine_settings,
    {
        AggregationEngine {
            store: StrategyStateStore::new(),
            runtimes: RuntimeTable::new(),
            recent_alerts: Vec::new(),
            alert_settings,
            engine_settings,
        }
    }

    /// Switches fetching for the strategy `name` on, or off for want of
    /// credentials. The operator has not been warned of the new mode.
    pub fn set_credentials(&mut self, name: &str, present: bool)
        ensures
            final(self).runtimes.runtime_of(name@) == (Runtime {
                mode: if present {
                    FetchMode::Enabled
                } else {
                    FetchMode::NoCredentials
                },
                warned: false,
                ..old(self).runtimes.runtime_of(name@)
            }),
            forall|other: Seq<char>|
                other != name@ ==> final(self).runtimes.runtime_of(other) == old(self).runtimes.runtime_of(
                    other,
                ),
            final(self).store@ == old(self).store@,
            final(self).recent_alerts@ == old(self).recent_alerts@,
            final(self).alert_settings == old(self).alert_settings,
            final(self).engine_settings == old(self).engine_settings,
    {
        let r = self.runtimes.get(name);
        let mode = if present {
            FetchMode::Enabled
        } else {
            FetchMode::NoCredentials
        };
        self.runtimes.set(name, Runtime { mode, warned: false, in_flight: r.in_flight, peak: r.peak });
    }

    /// Says what to do for the strategy `name` now that its tick is due,
    /// and notes that a pass is running unless the tick is skipped.
    pub fn begin_pass(&mut self, name: &str) -> (p: PassPlan)
        ensures
            p == plan_of(old(self).runtimes.runtime_of(name@)),
            final(self).runtimes.runtime_of(name@) == begun(old(self).runtimes.runtime_of(name@)),
            forall|other: Seq<char>|
                other != name@ ==> final(self).runtimes.runtime_of(other) == old(self).runtimes.runtime_of(
                    other,
                ),
            final(self).store@ == old(self).store@,
            final(self).recent_alerts@ == old(self).recent_alerts@,
            final(self).alert_settings == old(self).alert_settings,
            final(self).engine_settings == old(self).engine_settings,
    {
        let r = self.runtimes.get(name);
        let p = plan_pass(r);
        self.runtimes.set(name, begin(r));
        p
    }

    /// Completes a pass over the strategy `name` with the outcome of its
    /// fetch and the events read from its log: the state is merged, the
    /// alert rules are evaluated on it and the alerts enter the buffer of
    /// recent alerts. No other strategy's entry or runtime changes.
    pub fn complete_pass(&mut self, name: &str, outcome: FetchOutcome, events: &Vec<LineEvent>, now: i64) -> (r:
        TickReport)
        ensures
            final(self).store@ == store_after(
                old(self).store@,
                name@,
                outcome@,
                event_views(events@),
                old(self).engine_settings.trade_history_cap as int,
                now,
            ),
            forall|other: Seq<char>|
                other != name@ ==> lookup(final(self).store@, other) == lookup(old(self).store@, other),
            final(self).runtimes.runtime_of(name@) == finished(
                old(self).runtimes.runtime_of(name@),
                failure_of(outcome@),
                seen_after(
                    old(self).store@,
                    old(self).runtimes.runtime_of(name@).peak,
                    name@,
                    outcome@,
                    event_views(events@),
                    old(self).alert_settings,
                    old(self).engine_settings.trade_history_cap as int,
                    now,
                ).0,
            ),
            forall|other: Seq<char>|
                other != name@ ==> final(self).runtimes.runtime_of(other) == old(self).runtimes.runtime_of(
                    other,
                ),
            alert_views(r.alerts@) == seen_after(
                old(self).store@,
                old(self).runtimes.runtime_of(name@).peak,
                name@,
                outcome@,
                event_views(events@),
                old(self).alert_settings,
                old(self).engine_settings.trade_history_cap as int,
                now,
            ).1,
            alert_views(final(self).recent_alerts@) == keep_recent(
                alert_views(old(self).recent_alerts@) + alert_views(r.alerts@),
                old(self).engine_settings.alert_buffer_cap as int,
            ),
            r.pass == pass_report(
                entry_or_blank(old(self).store@, name@),
                outcome@,
                event_views(events@),
                old(self).engine_settings.trade_history_cap as int,
                now,
            ),
            r.known == is_known(
                old(self).store@,
                name@,
                outcome@,
                event_views(events@),
                old(self).engine_settings.trade_history_cap as int,
                now,
            ),
            r.disabled == newly_disabled(old(self).runtimes.runtime_of(name@), failure_of(outcome@)),
            all_wf(old(self).store@) ==> all_wf(final(self).store@),
            distinct_keys(names(old(self).store@)) ==> distinct_keys(names(final(self).store@)),
            forall|n: Seq<char>|
                entry_or_blank(final(self).store@, n).last_updated >= entry_or_blank(
                    old(self).store@,
                    n,
                ).last_updated,
            final(self).alert_settings == old(self).alert_settings,
            final(self).engine_settings == old(self).engine_settings,
    {
        let cap = self.engine_settings.trade_history_cap;
        let ghost s = self.store@;
        proof {
            lemma_pass_keeps_store(s, name@, outcome@, event_views(events@), cap as int, now);
            lemma_entry_name(s, name@);
            assert forall|other: Seq<char>| other != name@ implies lookup(
                store_after(s, name@, outcome@, event_views(events@), cap as int, now),
                other,
            ) == lookup(s, other) by {
                lemma_pass_independent(s, name@, outcome@, event_views(events@), cap as int, now, other);
            }
        }
        let existing = self.store.get(name);
        let had = existing.is_some();
        let mut data = match existing {
            Some(d) => d,
            None => StrategyData::new(name.to_owned()),
        };
        assert(data@ == entry_or_blank(s, name@));
        let runtime = self.runtimes.get(name);
        let failure = match &outcome {
            FetchOutcome::Failed(c) => Some(*c),
            FetchOutcome::Fresh(_, _) => None,
        };
        let accepted = match &outcome {
            FetchOutcome::Fresh(snapshot, _) => snapshot.as_of >= data.last_updated,
            FetchOutcome::Failed(_) => false,
        };
        let pass = run_pass(&mut data, outcome, events, cap, now);
        let known = had || accepted || data.recent_trades.len() > 0;
        assert(data@.recent_trades.len() == data.recent_trades@.len());
        let disabled = match failure {
            Some(FailureCause::AuthRejected) => match runtime.mode {
                FetchMode::AuthRejected => false,
                _ => true,
            },
            Some(FailureCause::MissingCredentials) => match runtime.mode {
                FetchMode::NoCredentials => false,
                _ => true,
            },
            _ => false,
        };
        let mut alerts: Vec<AlertEvent> = Vec::new();
        let mut peak = runtime.peak;
        if known {
            let (p, a) = observe(runtime.peak, &data, &self.alert_settings, now);
            peak = Some(p);
            alerts = a;
            self.store.put(data);
        } else {
            assert(alert_views(alerts@) =~= Seq::<AlertEventView>::empty());
        }
        self.runtimes.set(name, finish(runtime, failure, peak));
        push_recent(&mut self.recent_alerts, &alerts, self.engine_settings.alert_buffer_cap);
        TickReport { pass, known, disabled, alerts }
    }

    /// Completes a pass with the lines read from the log: each line is
    /// parsed, then the pass is completed as [`Self::complete_pass`] does
    /// with the events that the lines are.
    pub fn complete_pass_from_lines(
        &mut self,
        name: &str,
        outcome: FetchOutcome,
        lines: &Vec<String>,
        now: i64,
    ) -> (r: TickReport)
        ensures
            final(self).store@ == store_after(
                old(self).store@,
                name@,
                outcome@,
                parsed_lines(line_texts(lines@), name@),
                old(self).engine_settings.trade_history_cap as int,
                now,
            ),
            forall|other: Seq<char>|
                other != name@ ==> lookup(final(self).store@, other) == lookup(old(self).store@, other),
            final(self).runtimes.runtime_of(name@) == finished(
                old(self).runtimes.runtime_of(name@),
                failure_of(outcome@),
                seen_after(
                    old(self).store@,
                    old(self).runtimes.runtime_of(name@).peak,
                    name@,
                    outcome@,
                    parsed_lines(line_texts(lines@), name@),
                    old(self).alert_settings,
                    old(self).engine_settings.trade_history_cap as int,
                    now,
                ).0,
            ),
            forall|other: Seq<char>|
                other != name@ ==> final(self).runtimes.runtime_of(other) == old(self).runtimes.runtime_of(
                    other,
                ),
            alert_views(r.alerts@) == seen_after(
                old(self).store@,
                old(self).runtimes.runtime_of(name@).peak,
                name@,
                outcome@,
                parsed_lines(line_texts(lines@), name@),
                old(self).alert_settings,
                old(self).engine_settings.trade_history_cap as int,
                now,
            ).1,
            alert_views(final(self).recent_alerts@) == keep_recent(
                alert_views(old(self).recent_alerts@) + alert_views(r.alerts@),
                old(self).engine_settings.alert_buffer_cap as int,
            ),
            r.pass == pass_report(
                entry_or_blank(old(self).store@, name@),
                outcome@,
                parsed_lines(line_texts(lines@), name@),
                old(self).engine_settings.trade_history_cap as int,
                now,
            ),
            r.known == is_known(
                old(self).store@,
                name@,
                outcome@,
                parsed_lines(line_texts(lines@), name@),
                old(self).engine_settings.trade_history_cap as int,
                now,
            ),
            r.disabled == newly_disabled(old(self).runtimes.runtime_of(name@), failure_of(outcome@)),
            all_wf(old(self).store@) ==> all_wf(final(self).store@),
            distinct_keys(names(old(self).store@)) ==> distinct_keys(names(final(self).store@)),
            forall|n: Seq<char>|
                entry_or_blank(final(self).store@, n).last_updated >= entry_or_blank(
                    old(self).store@,
                    n,
                ).last_updated,
            final(self).alert_settings == old(self).alert_settings,
            final(self).engine_settings == old(self).engine_settings,
    {
        let events = parse_lines(lines, name);
        self.complete_pass(name, outcome, &events, now)
    }
}

} // verus!
