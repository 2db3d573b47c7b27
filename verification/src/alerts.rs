//! The alert rules: a warning when the day trades run out and an alert when
//! the portfolio falls too far below its peak.
//!
//! The rules are functions of the state, the peak and the settings alone.

use vstd::prelude::*;
use crate::config::AlertSettings;
use crate::data::{StrategyData, StrategyDataView};

verus! {

/// What an alert is about.
#[derive(Clone, Copy, Debug, PartialEq, Eq, Structural)]
pub enum AlertKind {
    /// The day trades used have reached the warning threshold.
    PdtWarning,
    /// The portfolio value has fallen below its peak by the configured share.
    Drawdown,
}

/// One alert.
#[derive(Debug, PartialEq, Eq)]
pub struct AlertEvent {
    pub kind: AlertKind,
    pub strategy: String,
    /// The number that raised the alert: the day trades used, or the
    /// drawdown in millionths of a percent.
    pub value: i64,
    pub timestamp: i64,
}

/// What an [`AlertEvent`] holds, with its text as a sequence of characters.
pub struct AlertEventView {
    pub kind: AlertKind,
    pub strategy: Seq<char>,
    pub value: i64,
    pub timestamp: i64,
}

impl View for AlertEvent {
    type V = AlertEventView;

    open spec fn view(&self) -> AlertEventView {
        AlertEventView {
            kind: self.kind,
            strategy: self.strategy@,
            value: self.value,
            timestamp: self.timestamp,
        }
    }
}

impl Clone for AlertEvent {
    fn clone(&self) -> (r: Self)
        ensures
            r == *self,
    {
        AlertEvent {
            kind: self.kind,
            strategy: self.strategy.clone(),
            value: self.value,
            timestamp: self.timestamp,
        }
    }
}

/// The views of a sequence of alerts.
pub open spec fn alert_views(s: Seq<AlertEvent>) -> Seq<AlertEventView> {
    s.map_values(|a: AlertEvent| a@)
}

/// The greatest portfolio value seen, once `value` is seen after `previous`.
pub open spec fn running_peak(previous: Option<i64>, value: i64) -> i64 {
    match previous {
        Some(p) => if p >= value { p } else { value },
        None => value,
    }
}

/// How far `value` lies below `peak`, in millionths of a percent of the
/// peak, rounded down. Zero where the peak is not positive or the value
/// is not below it.
pub open spec fn drawdown(peak: i64, value: i64) -> int {
    if peak <= 0 || value >= peak {
        0
    } else {
        ((peak - value) * 100_000_000) / (peak as int)
    }
}

/// Whether the drawdown alert is due.
pub open spec fn drawdown_due(peak: i64, value: i64, settings: AlertSettings) -> bool {
    peak > 0 && drawdown(peak, value) >= settings.drawdown_alert_percent
}

/// Whether the day-trade warning is due.
pub open spec fn pdt_warning_due(used: u32, settings: AlertSettings) -> bool {
    used >= settings.pdt_warning_threshold
}

/// `x` where it fits an `i64`, else the nearest `i64`.
pub open spec fn saturate(x: int) -> i64 {
    if x > i64::MAX {
        i64::MAX
    } else if x < i64::MIN {
        i64::MIN
    } else {
        x as i64
    }
}

/// The alerts that the state `data` raises against `peak`: the day-trade
/// warning first, then the drawdown alert, each where it is due.
pub open spec fn alerts_for(data: StrategyDataView, peak: i64, settings: AlertSettings, now: i64) -> Seq<
    AlertEventView,
> {
    let pdt = if pdt_warning_due(data.day_trades_used, settings) {
        seq![
            AlertEventView {
                kind: AlertKind::PdtWarning,
                strategy: data.name,
                value: data.day_trades_used as i64,
                timestamp: now,
            },
        ]
    } else {
        Seq::<AlertEventView>::empty()
    };
    let dd = if drawdown_due(peak, data.portfolio_value, settings) {
        seq![
            AlertEventView {
                kind: AlertKind::Drawdown,
                strategy: data.name,
                value: saturate(drawdown(peak, data.portfolio_value)),
                timestamp: now,
            },
        ]
    } else {
        Seq::<AlertEventView>::empty()
    };
    pdt + dd
}

/// What one observation of `data` yields: the new peak, and the alerts
/// raised against it.
pub open spec fn observation(
    previous: Option<i64>,
    data: StrategyDataView,
    settings: AlertSettings,
    now: i64,
) -> (i64, Seq<AlertEventView>) {
    let peak = running_peak(previous, data.portfolio_value);
    (peak, alerts_for(data, peak, settings, now))
}

/// Observing the same state a second time, against the peak that the
/// first observation left, yields the same peak and the same alerts.
pub proof fn lemma_observation_idempotent(
    previous: Option<i64>,
    data: StrategyDataView,
    settings: AlertSettings,
    now: i64,
)
    ensures
        observation(Some(observation(previous, data, settings, now).0), data, settings, now)
            == observation(previous, data, settings, now),
{
}

/// The peak never falls, and it is never below the value just seen.
pub proof fn lemma_running_peak(previous: Option<i64>, value: i64)
    ensures
        running_peak(previous, value) >= value,
        previous matches Some(p) ==> running_peak(previous, value) >= p,
        running_peak(previous, value) == value || previous == Some(running_peak(previous, value)),
{
}

/// Computes the greatest portfolio value seen.
pub fn update_peak(previous: Option<i64>, value: i64) -> (r: i64)
    ensures
        r == running_peak(previous, value),
{
    match previous {
        Some(p) => if p >= value {
            p
        } else {
            value
        },
        None => value,
    }
}

/// Computes the drawdown of `value` below `peak`, in millionths of a
/// percent.
pub fn drawdown_of(peak: i64, value: i64) -> (r: i128)
    ensures
        r == drawdown(peak, value),
{
    if peak <= 0 || value >= peak {
        0
    } else {
        let fall: i128 = peak as i128 - value as i128;
        let scaled: i128 = fall * 100_000_000;
        scaled / (peak as i128)
    }
}

/// Evaluates the alert rules on `data` against `peak`.
///
/// Nothing is changed: the same arguments give the same alerts.
pub fn evaluate(data: &StrategyData, peak: i64, settings: &AlertSettings, now: i64) -> (r: Vec<
    AlertEvent,
>)
    ensures
        alert_views(r@) == alerts_for(data@, peak, *settings, now),
{
    let mut r: Vec<AlertEvent> = Vec::new();
    assert(alert_views(r@) =~= Seq::<AlertEventView>::empty());
    if data.day_trades_used >= settings.pdt_warning_threshold {
        r.push(
            AlertEvent {
                kind: AlertKind::PdtWarning,
                strategy: data.name.clone(),
                value: data.day_trades_used as i64,
                timestamp: now,
            },
        );
    }
    let ghost pdt = alert_views(r@);
    if peak > 0 {
        let dd = drawdown_of(peak, data.portfolio_value);
        if dd >= settings.drawdown_alert_percent as i128 {
            let value: i64 = if dd > i64::MAX as i128 {
                i64::MAX
            } else {
                dd as i64
            };
            r.push(AlertEvent { kind: AlertKind::Drawdown, strategy: data.name.clone(), value, timestamp: now });
        }
    }
    assert(alert_views(r@) =~= alerts_for(data@, peak, *settings, now));
    r
}

/// Observes `data`: moves the peak and evaluates the alert rules against it.
pub fn observe(previous: Option<i64>, data: &StrategyData, settings: &AlertSettings, now: i64) -> (r: (
    i64,
    Vec<AlertEvent>,
))
    ensures
        (r.0, alert_views(r.1@)) == observation(previous, data@, *settings, now),
{
    let peak = update_peak(previous, data.portfolio_value);
    let alerts = evaluate(data, peak, settings, now);
    (peak, alerts)
}

/// The last `cap` alerts of `s`, or all of `s` where it has no more.
pub open spec fn keep_recent(s: Seq<AlertEventView>, cap: int) -> Seq<AlertEventView> {
    if s.len() > cap && cap >= 0 {
        s.skip(s.len() - cap)
    } else {
        s
    }
}

/// Adds `new` to the buffer of recent alerts, the oldest alerts leaving
/// where the buffer grows beyond `cap`.
pub fn push_recent(buffer: &mut Vec<AlertEvent>, new: &Vec<AlertEvent>, cap: usize)
    ensures
        alert_views(final(buffer)@) == keep_recent(alert_views(old(buffer)@) + alert_views(new@), cap as int),
{
    let ghost start = alert_views(buffer@);
    let ghost added = alert_views(new@);
    let mut i: usize = 0;
    assert(alert_views(buffer@) =~= start + added.take(0));
    while i < new.len()
        invariant
            i <= new.len(),
            added == alert_views(new@),
            alert_views(buffer@) == start + added.take(i as int),
        decreases new.len() - i,
    {
        let a = new[i].clone();
        let ghost before = alert_views(buffer@);
        buffer.push(a);
        assert(alert_views(buffer@) =~= before.push(a@));
        assert(added.take(i + 1) =~= added.take(i as int).push(a@));
        assert(before.push(a@) =~= start + added.take(i + 1));
        i = i + 1;
    }
    assert(added.take(new.len() as int) =~= added);
    let ghost all = start + added;
    let mut dropped: usize = 0;
    assert(all.skip(0) =~= all);
    assert(all.len() == buffer.len());
    while buffer.len() > cap
        invariant
            dropped + buffer.len() == all.len(),
            all.len() <= usize::MAX,
            dropped > 0 ==> buffer.len() >= cap,
            alert_views(buffer@) == all.skip(dropped as int),
        decreases buffer.len(),
    {
        let ghost before = alert_views(buffer@);
        buffer.remove(0);
        assert(alert_views(buffer@) =~= before.skip(1));
        assert(before.skip(1) =~= all.skip(dropped + 1));
        dropped = dropped + 1;
    }
}

} // verus!
