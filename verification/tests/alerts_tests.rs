use pacascope::alerts::{drawdown_of, evaluate, observe, push_recent, update_peak, AlertEvent, AlertKind};
use pacascope::config::AlertSettings;
use pacascope::data::StrategyData;

const DOLLAR: i64 = 1_000_000;

fn settings() -> AlertSettings {
    AlertSettings { pdt_warning_threshold: 2, drawdown_alert_percent: 3_000_000, enable_sound: false }
}

fn alpha(portfolio_dollars: i64, day_trades_used: u32) -> StrategyData {
    let mut d = StrategyData::new("Alpha".to_string());
    d.portfolio_value = portfolio_dollars * DOLLAR;
    d.day_trades_used = day_trades_used;
    d.day_trades_remaining = 3u32.saturating_sub(day_trades_used);
    d
}

#[test]
fn drawdown_alert_follows_the_running_peak() {
    let s = settings();
    // Tick 1: the first value seen is the peak.
    let (peak1, alerts1) = observe(None, &alpha(100_000, 0), &s, 1);
    assert_eq!(peak1, 100_000 * DOLLAR);
    assert!(alerts1.is_empty());
    // Tick 2: a fall of 3.5 percent raises one alert.
    let (peak2, alerts2) = observe(Some(peak1), &alpha(96_500, 0), &s, 2);
    assert_eq!(peak2, 100_000 * DOLLAR);
    assert_eq!(
        alerts2,
        vec![AlertEvent {
            kind: AlertKind::Drawdown,
            strategy: "Alpha".to_string(),
            value: 3_500_000,
            timestamp: 2,
        }]
    );
    // Tick 3: one percent below the peak is below the threshold.
    let (peak3, alerts3) = observe(Some(peak2), &alpha(99_000, 0), &s, 3);
    assert_eq!(peak3, 100_000 * DOLLAR);
    assert!(alerts3.is_empty());
}

#[test]
fn pdt_warning_starts_at_the_threshold() {
    let s = settings();
    let mut peak = None;
    let mut warned_at = Vec::new();
    for (tick, used) in [(1i64, 0u32), (2, 1), (3, 2)] {
        let (p, alerts) = observe(peak, &alpha(1_000, used), &s, tick);
        peak = Some(p);
        for a in alerts {
            assert_eq!(a.kind, AlertKind::PdtWarning);
            assert_eq!(a.value, used as i64);
            assert_eq!(a.strategy, "Alpha");
            warned_at.push(a.timestamp);
        }
    }
    assert_eq!(warned_at, vec![3]);
}

#[test]
fn evaluating_twice_gives_the_same_alerts() {
    let s = settings();
    let d = alpha(90_000, 3);
    let first = evaluate(&d, 100_000 * DOLLAR, &s, 7);
    let second = evaluate(&d, 100_000 * DOLLAR, &s, 7);
    assert_eq!(first, second);
    assert_eq!(first.len(), 2);
    assert_eq!(first[0].kind, AlertKind::PdtWarning);
    assert_eq!(first[1].kind, AlertKind::Drawdown);
    assert_eq!(first[1].value, 10_000_000);
}

#[test]
fn observing_twice_gives_the_same_peak_and_alerts() {
    let s = settings();
    let d = alpha(96_000, 2);
    let (k1, a1) = observe(Some(100_000 * DOLLAR), &d, &s, 9);
    let (k2, a2) = observe(Some(k1), &d, &s, 9);
    assert_eq!(k1, k2);
    assert_eq!(a1, a2);
}

#[test]
fn drawdown_is_exact_at_the_threshold() {
    let s = settings();
    let at = evaluate(&alpha(97_000, 0), 100_000 * DOLLAR, &s, 1);
    assert_eq!(at.len(), 1);
    assert_eq!(at[0].value, 3_000_000);
    let mut just_above = alpha(97_000, 0);
    just_above.portfolio_value += 1;
    assert!(evaluate(&just_above, 100_000 * DOLLAR, &s, 1).is_empty());
}

#[test]
fn drawdown_is_rounded_down() {
    assert_eq!(drawdown_of(3, 2), 33_333_333);
    assert_eq!(drawdown_of(3, 1), 66_666_666);
    assert_eq!(drawdown_of(100, 100), 0);
    assert_eq!(drawdown_of(100, 150), 0);
    assert_eq!(drawdown_of(100, 0), 100_000_000);
    assert_eq!(drawdown_of(100, -100), 200_000_000);
}

#[test]
fn no_drawdown_without_a_positive_peak() {
    assert_eq!(drawdown_of(0, -5), 0);
    assert_eq!(drawdown_of(-10, -20), 0);
    let s = AlertSettings { pdt_warning_threshold: 9, drawdown_alert_percent: 0, enable_sound: false };
    assert!(evaluate(&alpha(-5, 0), 0, &s, 1).is_empty());
    assert_eq!(evaluate(&alpha(5, 0), 5 * DOLLAR, &s, 1).len(), 1);
}

#[test]
fn drawdown_value_saturates() {
    let s = settings();
    let mut d = alpha(0, 0);
    d.portfolio_value = i64::MIN;
    let alerts = evaluate(&d, 1, &s, 1);
    assert_eq!(alerts.len(), 1);
    assert_eq!(alerts[0].value, i64::MAX);
}

#[test]
fn peak_is_the_greatest_value_seen() {
    assert_eq!(update_peak(None, -5), -5);
    assert_eq!(update_peak(Some(10), 5), 10);
    assert_eq!(update_peak(Some(10), 15), 15);
    assert_eq!(update_peak(Some(10), 10), 10);
}

fn alert(ts: i64) -> AlertEvent {
    AlertEvent { kind: AlertKind::PdtWarning, strategy: "Alpha".to_string(), value: 2, timestamp: ts }
}

#[test]
fn recent_alerts_are_capped_oldest_first() {
    let mut buffer = vec![alert(1), alert(2)];
    push_recent(&mut buffer, &vec![alert(3), alert(4)], 3);
    let stamps: Vec<i64> = buffer.iter().map(|a| a.timestamp).collect();
    assert_eq!(stamps, vec![2, 3, 4]);
    push_recent(&mut buffer, &vec![], 3);
    assert_eq!(buffer.len(), 3);
    push_recent(&mut buffer, &vec![alert(5)], 0);
    assert!(buffer.is_empty());
}
