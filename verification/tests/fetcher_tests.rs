use pacascope::api::{AccountInfo, PositionInfo};
use pacascope::data::{AccountSnapshot, FailureCause, Position};
use pacascope::fetcher::{
    after_failure, classify, fatal, read_account, read_amount, read_position, read_positions, transient,
    AccountQuality, AttemptError, FetchStep,
};

#[test]
fn statuses_are_filed_under_their_causes() {
    assert_eq!(classify(AttemptError::Timeout), FailureCause::Timeout);
    assert_eq!(classify(AttemptError::ConnectionReset), FailureCause::ConnectionReset);
    assert_eq!(classify(AttemptError::Status(401)), FailureCause::AuthRejected);
    assert_eq!(classify(AttemptError::Status(403)), FailureCause::AuthRejected);
    assert_eq!(classify(AttemptError::Status(429)), FailureCause::RateLimited);
    assert_eq!(classify(AttemptError::Status(500)), FailureCause::ServerError);
    assert_eq!(classify(AttemptError::Status(503)), FailureCause::ServerError);
    assert_eq!(classify(AttemptError::Status(599)), FailureCause::ServerError);
    assert_eq!(classify(AttemptError::Status(600)), FailureCause::Rejected);
    assert_eq!(classify(AttemptError::Status(499)), FailureCause::Rejected);
    assert_eq!(classify(AttemptError::Status(404)), FailureCause::Rejected);
    assert_eq!(classify(AttemptError::Status(400)), FailureCause::Rejected);
    assert_eq!(classify(AttemptError::Malformed), FailureCause::Rejected);
}

#[test]
fn only_passing_failures_are_transient() {
    assert!(transient(FailureCause::Timeout));
    assert!(transient(FailureCause::ConnectionReset));
    assert!(transient(FailureCause::ServerError));
    assert!(!transient(FailureCause::RateLimited));
    assert!(!transient(FailureCause::AuthRejected));
    assert!(!transient(FailureCause::MissingCredentials));
    assert!(!transient(FailureCause::Rejected));
}

#[test]
fn only_credential_failures_are_fatal() {
    assert!(fatal(FailureCause::AuthRejected));
    assert!(fatal(FailureCause::MissingCredentials));
    assert!(!fatal(FailureCause::Timeout));
    assert!(!fatal(FailureCause::RateLimited));
    assert!(!fatal(FailureCause::ServerError));
    assert!(!fatal(FailureCause::ConnectionReset));
    assert!(!fatal(FailureCause::Rejected));
}

#[test]
fn transient_failures_are_retried_up_to_the_limit() {
    let e = AttemptError::Timeout;
    assert_eq!(after_failure(1, 3, e), FetchStep::Retry);
    assert_eq!(after_failure(2, 3, e), FetchStep::Retry);
    assert_eq!(after_failure(3, 3, e), FetchStep::Retry);
    assert_eq!(after_failure(4, 3, e), FetchStep::GiveUp(FailureCause::Timeout));
    assert_eq!(after_failure(1, 0, e), FetchStep::GiveUp(FailureCause::Timeout));
    assert_eq!(after_failure(1, 3, AttemptError::Status(502)), FetchStep::Retry);
    assert_eq!(after_failure(1, 3, AttemptError::ConnectionReset), FetchStep::Retry);
}

#[test]
fn a_fetch_makes_one_attempt_more_than_the_retries() {
    let mut attempts = 0u32;
    loop {
        attempts += 1;
        if after_failure(attempts, 3, AttemptError::Status(500)) != FetchStep::Retry {
            break;
        }
    }
    assert_eq!(attempts, 4);
}

#[test]
fn authentication_failures_are_never_retried() {
    assert_eq!(after_failure(1, 3, AttemptError::Status(401)), FetchStep::GiveUp(FailureCause::AuthRejected));
    assert_eq!(after_failure(1, 3, AttemptError::Status(403)), FetchStep::GiveUp(FailureCause::AuthRejected));
    assert_eq!(after_failure(1, 3, AttemptError::Status(429)), FetchStep::GiveUp(FailureCause::RateLimited));
    assert_eq!(after_failure(1, 3, AttemptError::Status(404)), FetchStep::GiveUp(FailureCause::Rejected));
    assert_eq!(after_failure(1, 3, AttemptError::Malformed), FetchStep::GiveUp(FailureCause::Rejected));
}

fn account(portfolio_value: &str, buying_power: &str, cash: &str, daytrade_count: i32) -> AccountInfo {
    AccountInfo {
        id: "id".to_string(),
        account_number: "PA1".to_string(),
        status: "ACTIVE".to_string(),
        currency: "USD".to_string(),
        buying_power: buying_power.to_string(),
        cash: cash.to_string(),
        portfolio_value: portfolio_value.to_string(),
        equity: "1".to_string(),
        last_equity: "2".to_string(),
        multiplier: "4".to_string(),
        daytrade_count,
    }
}

#[test]
fn account_text_becomes_a_snapshot() {
    let (s, q) = read_account(&account("100000.25", "200000", "-50.5", 2), 77);
    assert_eq!(
        s,
        AccountSnapshot {
            portfolio_value: 100_000_250_000,
            buying_power: 200_000_000_000,
            cash: -50_500_000,
            day_trades_used: 2,
            as_of: 77,
        }
    );
    assert_eq!(
        q,
        AccountQuality { portfolio_value: false, buying_power: false, cash: false, day_trades: false }
    );
    assert!(!q.any());
}

#[test]
fn unreadable_figures_are_zero_and_flagged() {
    let (s, q) = read_account(&account("n/a", "200000", "", -1), 77);
    assert_eq!(
        s,
        AccountSnapshot { portfolio_value: 0, buying_power: 200_000_000_000, cash: 0, day_trades_used: 0, as_of: 77 }
    );
    assert_eq!(q, AccountQuality { portfolio_value: true, buying_power: false, cash: true, day_trades: true });
    assert!(q.any());
    assert_eq!(read_amount("12.5"), (12_500_000, false));
    assert_eq!(read_amount("twelve"), (0, true));
    assert_eq!(read_amount("0"), (0, false));
}

fn info(symbol: &str, qty: &str, pl: &str) -> PositionInfo {
    PositionInfo {
        symbol: symbol.to_string(),
        qty: qty.to_string(),
        market_value: "1500.00".to_string(),
        unrealized_pl: pl.to_string(),
        unrealized_plpc: "0.0123456789".to_string(),
    }
}

#[test]
fn position_text_becomes_a_position() {
    let (p, flagged) = read_position(&info("AAPL", "10", "-12.34"));
    assert_eq!(
        p,
        Position {
            symbol: "AAPL".to_string(),
            quantity: 10_000_000,
            market_value: 1_500_000_000,
            unrealized_pl: -12_340_000,
            unrealized_plpc: 12_345,
        }
    );
    assert!(!flagged);
    let (p, flagged) = read_position(&info("AAPL", "ten", "-12.34"));
    assert_eq!(p.quantity, 0);
    assert_eq!(p.unrealized_pl, -12_340_000);
    assert!(flagged);
}

#[test]
fn flagged_positions_are_counted() {
    let infos = vec![info("A", "1", "1"), info("B", "x", "1"), info("C", "1", "y"), info("D", "x", "y")];
    let (ps, flagged) = read_positions(&infos);
    assert_eq!(flagged, 3);
    let symbols: Vec<&str> = ps.iter().map(|p| p.symbol.as_str()).collect();
    assert_eq!(symbols, vec!["A", "B", "C", "D"]);
    assert_eq!(ps[1].quantity, 0);
    assert_eq!(ps[2].unrealized_pl, 0);
    let (none, flagged) = read_positions(&vec![]);
    assert!(none.is_empty());
    assert_eq!(flagged, 0);
}
