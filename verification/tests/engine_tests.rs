use pacascope::data::{
    day_trades_left, AccountSnapshot, FailureCause, Position, Side, StaleMarker, StrategyData, Trade,
};
use pacascope::engine::{
    apply_fetch, ingest_events, mark_stale, merge_snapshot, run_pass, FetchOutcome, IngestReport,
    MergeError, PassReport,
};
use pacascope::log_parser::{LineEvent, ParseFault};

fn snapshot(value: i64, used: u32, as_of: i64) -> AccountSnapshot {
    AccountSnapshot { portfolio_value: value, buying_power: 2 * value, cash: value / 2, day_trades_used: used, as_of }
}

fn position(symbol: &str, quantity: i64) -> Position {
    Position {
        symbol: symbol.to_string(),
        quantity,
        market_value: 10 * quantity,
        unrealized_pl: -quantity,
        unrealized_plpc: 1,
    }
}

fn trade(ts: i64, symbol: &str) -> Trade {
    Trade {
        timestamp: ts,
        symbol: symbol.to_string(),
        side: Side::Sell,
        quantity: 1_000_000,
        price: 5_000_000,
        strategy: "Alpha".to_string(),
    }
}

#[test]
fn merge_replaces_account_and_positions_together() {
    let mut d = StrategyData::new("Alpha".to_string());
    d.recent_trades.push(trade(1, "A"));
    let r = merge_snapshot(&mut d, snapshot(100, 1, 50), vec![position("AAPL", 3), position("MSFT", 4)]);
    assert_eq!(r, Ok(()));
    assert_eq!(d.name, "Alpha");
    assert_eq!(d.portfolio_value, 100);
    assert_eq!(d.buying_power, 200);
    assert_eq!(d.cash, 50);
    assert_eq!(d.day_trades_used, 1);
    assert_eq!(d.day_trades_remaining, 2);
    assert_eq!(d.positions, vec![position("AAPL", 3), position("MSFT", 4)]);
    assert_eq!(d.recent_trades, vec![trade(1, "A")]);
    assert_eq!(d.last_updated, 50);
    assert_eq!(d.stale, None);
    assert!(d.is_valid());
}

#[test]
fn day_trades_remaining_never_goes_below_zero() {
    for used in [0u32, 1, 2, 3, 4, 100, u32::MAX] {
        let mut d = StrategyData::new("Alpha".to_string());
        assert_eq!(merge_snapshot(&mut d, snapshot(1, used, 1), vec![]), Ok(()));
        let expected = if used >= 3 { 0 } else { 3 - used };
        assert_eq!(d.day_trades_remaining, expected);
        assert_eq!(day_trades_left(used), expected);
    }
}

#[test]
fn older_snapshot_is_refused_and_state_kept() {
    let mut d = StrategyData::new("Alpha".to_string());
    merge_snapshot(&mut d, snapshot(100, 1, 50), vec![position("AAPL", 3)]).unwrap();
    let before = d.clone();
    let r = merge_snapshot(&mut d, snapshot(999, 3, 49), vec![]);
    assert_eq!(r, Err(MergeError::WouldMoveBackward));
    assert_eq!(d, before);
    // A snapshot of the same instant is not older.
    assert_eq!(merge_snapshot(&mut d, snapshot(101, 1, 50), vec![]), Ok(()));
    assert_eq!(d.portfolio_value, 101);
}

#[test]
fn last_updated_never_moves_back_over_many_ticks() {
    let mut d = StrategyData::new("Alpha".to_string());
    let mut last = d.last_updated;
    let ticks: Vec<(i64, bool)> = vec![(10, true), (5, true), (20, false), (15, true), (20, true), (30, true), (1, false)];
    for (now, ok) in ticks {
        let outcome = if ok {
            FetchOutcome::Fresh(snapshot(1, 0, now), vec![])
        } else {
            FetchOutcome::Failed(FailureCause::Timeout)
        };
        run_pass(&mut d, outcome, &vec![], 5, now);
        assert!(d.last_updated >= last);
        last = d.last_updated;
    }
    assert_eq!(last, 30);
}

#[test]
fn merge_keeps_one_position_for_each_symbol() {
    let mut d = StrategyData::new("Alpha".to_string());
    let report = vec![position("AAPL", 1), position("MSFT", 2), position("AAPL", 3)];
    merge_snapshot(&mut d, snapshot(1, 0, 1), report).unwrap();
    assert_eq!(d.positions, vec![position("AAPL", 3), position("MSFT", 2)]);
}

#[test]
fn failed_fetch_keeps_the_snapshot_and_marks_it_stale() {
    let mut d = StrategyData::new("Alpha".to_string());
    merge_snapshot(&mut d, snapshot(100, 1, 50), vec![position("AAPL", 3)]).unwrap();
    let mut expected = d.clone();
    mark_stale(&mut d, FailureCause::Timeout, 60);
    expected.stale = Some(StaleMarker { since: 60, cause: FailureCause::Timeout });
    assert_eq!(d, expected);
    // The instant of the first failure in a row is kept; the cause is the latest.
    mark_stale(&mut d, FailureCause::ServerError, 70);
    expected.stale = Some(StaleMarker { since: 60, cause: FailureCause::ServerError });
    assert_eq!(d, expected);
    // A successful merge clears the mark.
    merge_snapshot(&mut d, snapshot(100, 1, 80), vec![]).unwrap();
    assert_eq!(d.stale, None);
}

#[test]
fn apply_fetch_tells_of_a_refused_snapshot() {
    let mut d = StrategyData::new("Alpha".to_string());
    assert!(!apply_fetch(&mut d, FetchOutcome::Fresh(snapshot(1, 0, 10), vec![]), 10));
    assert!(apply_fetch(&mut d, FetchOutcome::Fresh(snapshot(2, 0, 9), vec![]), 11));
    assert_eq!(d.portfolio_value, 1);
    assert!(!apply_fetch(&mut d, FetchOutcome::Failed(FailureCause::RateLimited), 12));
    assert_eq!(d.stale, Some(StaleMarker { since: 12, cause: FailureCause::RateLimited }));
}

#[test]
fn events_enter_the_history_and_faults_are_counted() {
    let mut d = StrategyData::new("Alpha".to_string());
    let events = vec![
        LineEvent::Trade(trade(20, "A")),
        LineEvent::NotTrade,
        LineEvent::ParseError(ParseFault::Price),
        LineEvent::Trade(trade(10, "B")),
        LineEvent::Trade(trade(20, "A")),
        LineEvent::ParseError(ParseFault::Side),
    ];
    let r = ingest_events(&mut d, &events, 10);
    assert_eq!(r, IngestReport { fresh: 2, faults: 2 });
    assert_eq!(d.recent_trades, vec![trade(10, "B"), trade(20, "A")]);
    assert!(d.is_valid());
}

#[test]
fn failed_fetch_does_not_discard_the_trades() {
    let mut d = StrategyData::new("Alpha".to_string());
    let events = vec![LineEvent::Trade(trade(20, "A"))];
    let r = run_pass(&mut d, FetchOutcome::Failed(FailureCause::ConnectionReset), &events, 10, 30);
    assert_eq!(r, PassReport { went_backward: false, fresh_trades: 1, parse_errors: 0 });
    assert_eq!(d.recent_trades, vec![trade(20, "A")]);
    assert_eq!(d.stale, Some(StaleMarker { since: 30, cause: FailureCause::ConnectionReset }));
    assert_eq!(d.last_updated, 0);
}

#[test]
fn pass_merges_then_takes_the_events() {
    let mut d = StrategyData::new("Alpha".to_string());
    let events = vec![LineEvent::Trade(trade(20, "A")), LineEvent::Trade(trade(21, "A"))];
    let r = run_pass(&mut d, FetchOutcome::Fresh(snapshot(7, 2, 40), vec![position("A", 1)]), &events, 1, 40);
    assert_eq!(r, PassReport { went_backward: false, fresh_trades: 2, parse_errors: 0 });
    assert_eq!(d.portfolio_value, 7);
    assert_eq!(d.day_trades_remaining, 1);
    assert_eq!(d.recent_trades, vec![trade(21, "A")]);
    assert_eq!(d.last_updated, 40);
}

#[test]
fn blank_state_is_valid() {
    let d = StrategyData::new("Alpha".to_string());
    assert!(d.is_valid());
    assert_eq!(d.day_trades_remaining, 3);
    assert_eq!(d.last_updated, 0);
}

#[test]
fn validity_check_finds_each_broken_invariant() {
    let mut d = StrategyData::new("Alpha".to_string());
    d.day_trades_remaining = 2;
    assert!(!d.is_valid());
    let mut d = StrategyData::new("Alpha".to_string());
    d.recent_trades = vec![trade(2, "A"), trade(1, "A")];
    assert!(!d.is_valid());
    let mut d = StrategyData::new("Alpha".to_string());
    d.recent_trades = vec![trade(1, "A"), trade(1, "A")];
    assert!(!d.is_valid());
    let mut d = StrategyData::new("Alpha".to_string());
    d.positions = vec![position("A", 1), position("A", 2)];
    assert!(!d.is_valid());
}
