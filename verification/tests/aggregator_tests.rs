use pacascope::aggregator::AggregationEngine;
use pacascope::alerts::AlertKind;
use pacascope::config::{AlertSettings, EngineSettings};
use pacascope::data::{AccountSnapshot, FailureCause, Side, StaleMarker, Trade};
use pacascope::engine::{FetchOutcome, PassReport};
use pacascope::log_parser::LineEvent;
use pacascope::scheduler::{FetchMode, PassPlan};

const DOLLAR: i64 = 1_000_000;

fn engine() -> AggregationEngine {
    AggregationEngine::new(
        AlertSettings { pdt_warning_threshold: 2, drawdown_alert_percent: 3_000_000, enable_sound: false },
        EngineSettings { trade_history_cap: 3, alert_buffer_cap: 2 },
    )
}

fn fresh(dollars: i64, used: u32, as_of: i64) -> FetchOutcome {
    FetchOutcome::Fresh(
        AccountSnapshot {
            portfolio_value: dollars * DOLLAR,
            buying_power: 0,
            cash: 0,
            day_trades_used: used,
            as_of,
        },
        vec![],
    )
}

fn trade(ts: i64) -> Trade {
    Trade {
        timestamp: ts,
        symbol: "AAPL".to_string(),
        side: Side::Buy,
        quantity: DOLLAR,
        price: DOLLAR,
        strategy: "Beta".to_string(),
    }
}

#[test]
fn failure_of_one_strategy_leaves_the_others_fully_updated() {
    let mut e = engine();
    for name in ["Alpha", "Beta", "PDT-Safe"] {
        assert_eq!(e.begin_pass(name), PassPlan::Fetch);
        e.complete_pass(name, fresh(1_000, 0, 1), &vec![], 1);
    }
    // Second tick: the fetch for Beta fails.
    for name in ["Alpha", "Beta", "PDT-Safe"] {
        assert_eq!(e.begin_pass(name), PassPlan::Fetch);
    }
    e.complete_pass("Alpha", fresh(2_000, 1, 2), &vec![], 2);
    e.complete_pass("Beta", FetchOutcome::Failed(FailureCause::Timeout), &vec![], 2);
    e.complete_pass("PDT-Safe", fresh(3_000, 2, 2), &vec![], 2);

    let alpha = e.store.get("Alpha").unwrap();
    assert_eq!(alpha.portfolio_value, 2_000 * DOLLAR);
    assert_eq!(alpha.day_trades_remaining, 2);
    assert_eq!(alpha.last_updated, 2);
    assert_eq!(alpha.stale, None);

    let safe = e.store.get("PDT-Safe").unwrap();
    assert_eq!(safe.portfolio_value, 3_000 * DOLLAR);
    assert_eq!(safe.day_trades_remaining, 1);
    assert_eq!(safe.last_updated, 2);
    assert_eq!(safe.stale, None);

    let beta = e.store.get("Beta").unwrap();
    assert_eq!(beta.portfolio_value, 1_000 * DOLLAR);
    assert_eq!(beta.last_updated, 1);
    assert_eq!(beta.stale, Some(StaleMarker { since: 2, cause: FailureCause::Timeout }));
}

#[test]
fn pass_over_one_strategy_touches_no_other_entry() {
    let mut e = engine();
    e.complete_pass("Alpha", fresh(1_000, 0, 1), &vec![], 1);
    let before = e.store.get("Alpha");
    e.complete_pass("Beta", fresh(5, 3, 9), &vec![LineEvent::Trade(trade(3))], 9);
    e.complete_pass("Beta", FetchOutcome::Failed(FailureCause::ServerError), &vec![], 10);
    assert_eq!(e.store.get("Alpha"), before);
}

#[test]
fn no_entry_is_made_by_a_failed_first_fetch() {
    let mut e = engine();
    let r = e.complete_pass("Alpha", FetchOutcome::Failed(FailureCause::Timeout), &vec![], 1);
    assert!(!r.known);
    assert!(r.alerts.is_empty());
    assert_eq!(e.store.len(), 0);
    assert_eq!(e.runtimes.get("Alpha").peak, None);
}

#[test]
fn trades_alone_make_an_entry() {
    let mut e = engine();
    let events = vec![LineEvent::Trade(trade(3))];
    let r = e.complete_pass("Beta", FetchOutcome::Failed(FailureCause::MissingCredentials), &events, 5);
    assert!(r.known);
    assert_eq!(r.pass, PassReport { went_backward: false, fresh_trades: 1, parse_errors: 0 });
    let beta = e.store.get("Beta").unwrap();
    assert_eq!(beta.recent_trades, vec![trade(3)]);
    assert_eq!(beta.stale, Some(StaleMarker { since: 5, cause: FailureCause::MissingCredentials }));
}

#[test]
fn only_one_pass_runs_at_a_time() {
    let mut e = engine();
    assert_eq!(e.begin_pass("Alpha"), PassPlan::Fetch);
    assert_eq!(e.begin_pass("Alpha"), PassPlan::Skip);
    assert_eq!(e.begin_pass("Alpha"), PassPlan::Skip);
    // Another strategy is not held up.
    assert_eq!(e.begin_pass("Beta"), PassPlan::Fetch);
    e.complete_pass("Alpha", fresh(1, 0, 1), &vec![], 1);
    assert_eq!(e.begin_pass("Alpha"), PassPlan::Fetch);
    assert_eq!(e.begin_pass("Beta"), PassPlan::Skip);
}

#[test]
fn missing_credentials_are_warned_of_once() {
    let mut e = engine();
    e.set_credentials("Beta", false);
    let cause = FailureCause::MissingCredentials;
    assert_eq!(e.begin_pass("Beta"), PassPlan::LogOnly { cause, warn: true });
    let r = e.complete_pass("Beta", FetchOutcome::Failed(cause), &vec![], 1);
    assert!(!r.disabled);
    for tick in 2..5 {
        assert_eq!(e.begin_pass("Beta"), PassPlan::LogOnly { cause, warn: false });
        e.complete_pass("Beta", FetchOutcome::Failed(cause), &vec![], tick);
    }
    // Mended credentials switch fetching on again.
    e.set_credentials("Beta", true);
    assert_eq!(e.begin_pass("Beta"), PassPlan::Fetch);
}

#[test]
fn refused_credentials_switch_fetching_off() {
    let mut e = engine();
    assert_eq!(e.begin_pass("Alpha"), PassPlan::Fetch);
    let r = e.complete_pass("Alpha", FetchOutcome::Failed(FailureCause::AuthRejected), &vec![], 1);
    assert!(r.disabled);
    assert_eq!(e.runtimes.get("Alpha").mode, FetchMode::AuthRejected);
    let cause = FailureCause::AuthRejected;
    assert_eq!(e.begin_pass("Alpha"), PassPlan::LogOnly { cause, warn: false });
    let r = e.complete_pass("Alpha", FetchOutcome::Failed(cause), &vec![], 2);
    assert!(!r.disabled);
    // A passing failure switches nothing off.
    assert_eq!(e.begin_pass("Beta"), PassPlan::Fetch);
    let r = e.complete_pass("Beta", FetchOutcome::Failed(FailureCause::Timeout), &vec![], 2);
    assert!(!r.disabled);
    assert_eq!(e.begin_pass("Beta"), PassPlan::Fetch);
}

#[test]
fn alerts_of_a_pass_enter_the_capped_buffer() {
    let mut e = engine();
    e.complete_pass("Alpha", fresh(100_000, 0, 1), &vec![], 1);
    assert!(e.recent_alerts.is_empty());
    let r = e.complete_pass("Alpha", fresh(96_500, 2, 2), &vec![], 2);
    assert_eq!(r.alerts.len(), 2);
    assert_eq!(e.recent_alerts, r.alerts);
    assert_eq!(e.recent_alerts[0].kind, AlertKind::PdtWarning);
    assert_eq!(e.recent_alerts[1].kind, AlertKind::Drawdown);
    assert_eq!(e.recent_alerts[1].value, 3_500_000);
    let r = e.complete_pass("Alpha", fresh(99_000, 2, 3), &vec![], 3);
    assert_eq!(r.alerts.len(), 1);
    let stamps: Vec<i64> = e.recent_alerts.iter().map(|a| a.timestamp).collect();
    assert_eq!(stamps, vec![2, 3]);
    assert_eq!(e.runtimes.get("Alpha").peak, Some(100_000 * DOLLAR));
}

#[test]
fn lines_are_parsed_and_taken_in() {
    let mut e = engine();
    let lines = vec![
        "2024-01-15T14:30:00Z TRADE buy 10 AAPL @ 185.50".to_string(),
        "2024-01-15T14:30:00Z INFO heartbeat".to_string(),
        "2024-01-15T14:30:00Z TRADE buy 10 AAPL @ 185.50".to_string(),
        "2024-01-15T14:31:00Z TRADE sell x AAPL @ 185.50".to_string(),
    ];
    let r = e.complete_pass_from_lines("Alpha", fresh(1, 0, 1), &lines, 1);
    assert_eq!(r.pass, PassReport { went_backward: false, fresh_trades: 1, parse_errors: 1 });
    let alpha = e.store.get("Alpha").unwrap();
    assert_eq!(alpha.recent_trades.len(), 1);
    assert_eq!(alpha.recent_trades[0].timestamp, 1_705_329_000_000);
    assert_eq!(alpha.recent_trades[0].strategy, "Alpha");
    // The same lines read again after a rotation add nothing.
    let r = e.complete_pass_from_lines("Alpha", fresh(1, 0, 2), &lines, 2);
    assert_eq!(r.pass.fresh_trades, 0);
    assert_eq!(e.store.get("Alpha").unwrap().recent_trades.len(), 1);
}
