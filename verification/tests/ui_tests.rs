use pacascope::data::{Position, StrategyData};
use pacascope::log_files::{
    bytes_end_with, bytes_occur_at, bytes_occur_in, glob_matches, is_trading_log_name, select_trading_logs,
};
use pacascope::positions::{find_position, key_positions};
use pacascope::scheduler::{begin, finish, plan_pass, FetchMode, PassPlan, Runtime, RuntimeTable};
use pacascope::ui::{append_number, format_money, strategy_lines, App};

#[test]
fn money_is_written_with_two_digits_of_cents() {
    assert_eq!(format_money(0), "$0.00");
    assert_eq!(format_money(1_000_000), "$1.00");
    assert_eq!(format_money(100_000_250_000), "$100000.25");
    assert_eq!(format_money(50_000), "$0.05");
    assert_eq!(format_money(1_234_560_000), "$1234.56");
}

#[test]
fn money_is_rounded_to_the_nearest_cent() {
    assert_eq!(format_money(4_999), "$0.00");
    assert_eq!(format_money(5_000), "$0.01");
    assert_eq!(format_money(1_994_999), "$1.99");
    assert_eq!(format_money(1_995_000), "$2.00");
}

#[test]
fn negative_money_has_its_sign_behind_the_dollar() {
    assert_eq!(format_money(-12_340_000), "$-12.34");
    assert_eq!(format_money(-5_000), "$-0.01");
    assert_eq!(format_money(-4_999), "$0.00");
    assert_eq!(format_money(i64::MIN), "$-9223372036854.78");
    assert_eq!(format_money(i64::MAX), "$9223372036854.78");
}

#[test]
fn numbers_are_appended_in_decimal() {
    let mut s = "n=".to_string();
    append_number(&mut s, 0);
    assert_eq!(s, "n=0");
    append_number(&mut s, 1234567890);
    assert_eq!(s, "n=01234567890");
    let mut s = String::new();
    append_number(&mut s, u64::MAX);
    assert_eq!(s, "18446744073709551615");
}

fn position(symbol: &str, quantity: i64) -> Position {
    Position { symbol: symbol.to_string(), quantity, market_value: 0, unrealized_pl: 0, unrealized_plpc: 0 }
}

#[test]
fn pane_shows_value_power_day_trades_and_positions() {
    let mut d = StrategyData::new("Alpha".to_string());
    d.portfolio_value = 100_000_250_000;
    d.buying_power = 200_000_000_000;
    d.day_trades_used = 2;
    d.positions = vec![position("A", 1), position("B", 1)];
    assert_eq!(
        strategy_lines(&d),
        vec!["$100000.25", "Buying Power: $200000.00", "Day Trades: 2/3", "Positions: 2"]
    );
}

#[test]
fn app_runs_until_quit() {
    let mut app = App::new();
    assert!(app.running);
    assert_eq!(app.strategies.len(), 0);
    app.on_key('x');
    assert!(app.running);
    app.on_key('Q');
    assert!(app.running);
    app.on_key('q');
    assert!(!app.running);
    app.on_key('x');
    assert!(!app.running);
    let mut app = App::new();
    app.quit();
    assert!(!app.running);
}

#[test]
fn overview_shows_the_first_three_strategies() {
    let mut app = App::new();
    assert!(app.tab_titles().is_empty());
    assert!(app.overview().is_empty());
    for (i, name) in ["Alpha", "Beta", "PDT-Safe", "Delta"].iter().enumerate() {
        let mut d = StrategyData::new(name.to_string());
        d.portfolio_value = (i as i64 + 1) * 1_000_000;
        app.strategies.put(d);
    }
    assert_eq!(app.tab_titles(), vec!["Alpha", "Beta", "PDT-Safe", "Delta"]);
    let panes = app.overview();
    assert_eq!(panes.len(), 3);
    assert_eq!(panes[0][0], "$1.00");
    assert_eq!(panes[1][0], "$2.00");
    assert_eq!(panes[2][0], "$3.00");
    assert_eq!(panes[2][2], "Day Trades: 0/3");
}

#[test]
fn trading_logs_are_told_by_their_names() {
    assert!(is_trading_log_name("tournament_alpha_20240115.log"));
    assert!(is_trading_log_name("pdt_safe_1.log"));
    assert!(is_trading_log_name("x_tournament.log"));
    assert!(is_trading_log_name("tournament.log"));
    assert!(!is_trading_log_name("tournament_alpha.txt"));
    assert!(!is_trading_log_name("tournament_alpha.log.gz"));
    assert!(!is_trading_log_name("engine.log"));
    assert!(!is_trading_log_name("pdt-safe.log"));
    assert!(!is_trading_log_name(".log"));
    assert!(!is_trading_log_name(""));
    assert!(!is_trading_log_name("Tournament.log"));
    assert!(is_trading_log_name("täglich_pdt_safe_ü.log"));
}

#[test]
fn trading_logs_are_picked_in_their_order() {
    let names: Vec<String> = ["b_tournament.log", "notes.txt", "a_pdt_safe.log", "engine.log"]
        .iter()
        .map(|s| s.to_string())
        .collect();
    assert_eq!(select_trading_logs(&names), vec!["b_tournament.log", "a_pdt_safe.log"]);
    assert!(select_trading_logs(&vec![]).is_empty());
}

#[test]
fn byte_search_finds_every_place() {
    assert!(bytes_occur_at(b"abcabc", b"abc", 0));
    assert!(bytes_occur_at(b"abcabc", b"abc", 3));
    assert!(!bytes_occur_at(b"abcabc", b"abc", 1));
    assert!(!bytes_occur_at(b"abcabc", b"abc", 4));
    assert!(!bytes_occur_at(b"abcabc", b"abc", usize::MAX));
    assert!(bytes_occur_at(b"abc", b"", 3));
    assert!(!bytes_occur_at(b"abc", b"", 4));
    assert!(bytes_occur_in(b"xxabc", b"abc"));
    assert!(bytes_occur_in(b"abc", b"abc"));
    assert!(bytes_occur_in(b"", b""));
    assert!(!bytes_occur_in(b"ab", b"abc"));
    assert!(!bytes_occur_in(b"abxabyabz", b"abc"));
    assert!(bytes_end_with(b"a.log", b".log"));
    assert!(!bytes_end_with(b"a.log1", b".log"));
    assert!(!bytes_end_with(b"log", b".log"));
    assert!(bytes_end_with(b"x", b""));
}

#[test]
fn positions_are_keyed_by_symbol() {
    let report = vec![position("A", 1), position("B", 2), position("A", 3), position("C", 4), position("B", 5)];
    let keyed = key_positions(report);
    assert_eq!(keyed, vec![position("A", 3), position("B", 5), position("C", 4)]);
    assert_eq!(find_position(&keyed, &"B".to_string()), Some(1));
    assert_eq!(find_position(&keyed, &"Z".to_string()), None);
    assert!(key_positions(vec![]).is_empty());
}

fn idle() -> Runtime {
    Runtime { mode: FetchMode::Enabled, warned: false, in_flight: false, peak: None }
}

#[test]
fn runtime_table_remembers_by_name() {
    let mut t = RuntimeTable::new();
    assert_eq!(t.get("Alpha"), idle());
    let running = begin(idle());
    assert!(running.in_flight);
    t.set("Alpha", running);
    assert_eq!(t.get("Alpha"), running);
    assert_eq!(t.get("Beta"), idle());
    t.set("Beta", finish(running, None, Some(5)));
    t.set("Alpha", idle());
    assert_eq!(t.get("Alpha"), idle());
    assert_eq!(t.get("Beta"), Runtime { mode: FetchMode::Enabled, warned: false, in_flight: false, peak: Some(5) });
}

#[test]
fn plan_for_a_tick_follows_the_runtime() {
    assert_eq!(plan_pass(idle()), PassPlan::Fetch);
    assert_eq!(plan_pass(begin(idle())), PassPlan::Skip);
    assert_eq!(begin(begin(idle())), begin(idle()));
    let off = Runtime { mode: FetchMode::NoCredentials, warned: false, in_flight: false, peak: None };
    assert_eq!(
        plan_pass(off),
        PassPlan::LogOnly { cause: pacascope::data::FailureCause::MissingCredentials, warn: true }
    );
    assert!(begin(off).warned);
    assert_eq!(
        plan_pass(finish(begin(off), None, None)),
        PassPlan::LogOnly { cause: pacascope::data::FailureCause::MissingCredentials, warn: false }
    );
}

#[test]
fn star_stands_for_any_run_of_characters() {
    assert!(glob_matches("tournament_alpha_*.log", "tournament_alpha_20240115.log"));
    assert!(glob_matches("tournament_alpha_*.log", "tournament_alpha_.log"));
    assert!(!glob_matches("tournament_alpha_*.log", "tournament_beta_1.log"));
    assert!(!glob_matches("tournament_alpha_*.log", "tournament_alpha_1.log.gz"));
    assert!(!glob_matches("tournament_alpha_*.log", "tournament_alpha_1.lo"));
    assert!(glob_matches("*", ""));
    assert!(glob_matches("*", "anything"));
    assert!(glob_matches("**", "anything"));
    assert!(glob_matches("", ""));
    assert!(!glob_matches("", "a"));
    assert!(glob_matches("a*b*c", "a-b-b-c"));
    assert!(glob_matches("a*b*c", "abc"));
    assert!(!glob_matches("a*b*c", "a-c-b"));
    assert!(glob_matches("*.log", "ü.log"));
    assert!(!glob_matches("a?c", "abc"));
    assert!(glob_matches("a?c", "a?c"));
}
