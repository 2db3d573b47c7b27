use pacascope::data::{has_distinct_events, is_ordered_by_time, Side, Trade};
use pacascope::history::{find_insertion_point, holds_event, record_trade};

fn trade(ts: i64, symbol: &str, qty: i64) -> Trade {
    Trade {
        timestamp: ts,
        symbol: symbol.to_string(),
        side: Side::Buy,
        quantity: qty,
        price: 1_000_000,
        strategy: "Alpha".to_string(),
    }
}

fn stamps(h: &Vec<Trade>) -> Vec<i64> {
    h.iter().map(|t| t.timestamp).collect()
}

#[test]
fn trades_enter_in_time_order() {
    let mut h = Vec::new();
    assert!(record_trade(&mut h, trade(30, "A", 1), 10));
    assert!(record_trade(&mut h, trade(10, "A", 1), 10));
    assert!(record_trade(&mut h, trade(20, "A", 1), 10));
    assert_eq!(stamps(&h), vec![10, 20, 30]);
    assert!(is_ordered_by_time(&h));
}

#[test]
fn trades_of_one_instant_keep_their_order_of_arrival() {
    let mut h = Vec::new();
    record_trade(&mut h, trade(10, "A", 1), 10);
    record_trade(&mut h, trade(10, "B", 1), 10);
    record_trade(&mut h, trade(10, "C", 1), 10);
    let symbols: Vec<&str> = h.iter().map(|t| t.symbol.as_str()).collect();
    assert_eq!(symbols, vec!["A", "B", "C"]);
}

#[test]
fn same_line_twice_yields_one_trade() {
    let mut h = Vec::new();
    assert!(record_trade(&mut h, trade(10, "A", 1), 10));
    assert!(!record_trade(&mut h, trade(10, "A", 1), 10));
    assert_eq!(h.len(), 1);
    assert!(has_distinct_events(&h));
}

#[test]
fn strategy_name_is_no_part_of_the_event() {
    let mut h = Vec::new();
    record_trade(&mut h, trade(10, "A", 1), 10);
    let mut other = trade(10, "A", 1);
    other.strategy = "Beta".to_string();
    assert!(holds_event(&h, &other));
    assert!(!record_trade(&mut h, other, 10));
}

#[test]
fn any_differing_field_makes_another_event() {
    let mut h = Vec::new();
    record_trade(&mut h, trade(10, "A", 1), 10);
    let mut sold = trade(10, "A", 1);
    sold.side = Side::Sell;
    assert!(record_trade(&mut h, sold, 10));
    let mut dearer = trade(10, "A", 1);
    dearer.price = 2_000_000;
    assert!(record_trade(&mut h, dearer, 10));
    assert!(record_trade(&mut h, trade(10, "A", 2), 10));
    assert!(record_trade(&mut h, trade(10, "B", 1), 10));
    assert!(record_trade(&mut h, trade(11, "A", 1), 10));
    assert_eq!(h.len(), 6);
}

#[test]
fn oldest_trade_leaves_when_the_history_is_full() {
    let mut h = Vec::new();
    record_trade(&mut h, trade(10, "A", 1), 2);
    record_trade(&mut h, trade(20, "A", 1), 2);
    record_trade(&mut h, trade(30, "A", 1), 2);
    assert_eq!(stamps(&h), vec![20, 30]);
}

#[test]
fn reread_of_an_evicted_trade_changes_nothing() {
    let mut h = Vec::new();
    record_trade(&mut h, trade(10, "A", 1), 2);
    record_trade(&mut h, trade(20, "A", 1), 2);
    record_trade(&mut h, trade(30, "A", 1), 2);
    assert!(record_trade(&mut h, trade(10, "A", 1), 2));
    assert_eq!(stamps(&h), vec![20, 30]);
    assert!(record_trade(&mut h, trade(10, "A", 1), 2));
    assert_eq!(stamps(&h), vec![20, 30]);
}

#[test]
fn limit_of_zero_keeps_no_trade() {
    let mut h = Vec::new();
    assert!(record_trade(&mut h, trade(10, "A", 1), 0));
    assert!(h.is_empty());
}

#[test]
fn history_longer_than_the_limit_is_cut_on_the_next_trade() {
    let mut h = vec![trade(1, "A", 1), trade(2, "A", 1), trade(3, "A", 1), trade(4, "A", 1)];
    record_trade(&mut h, trade(5, "A", 1), 2);
    assert_eq!(stamps(&h), vec![4, 5]);
}

#[test]
fn insertion_point_is_behind_equal_instants() {
    let h = vec![trade(10, "A", 1), trade(20, "A", 1), trade(20, "B", 1), trade(30, "A", 1)];
    assert_eq!(find_insertion_point(&h, 5), 0);
    assert_eq!(find_insertion_point(&h, 10), 1);
    assert_eq!(find_insertion_point(&h, 20), 3);
    assert_eq!(find_insertion_point(&h, 25), 3);
    assert_eq!(find_insertion_point(&h, 30), 4);
    assert_eq!(find_insertion_point(&h, 99), 4);
}

#[test]
fn order_check_finds_a_trade_out_of_place() {
    assert!(is_ordered_by_time(&vec![]));
    assert!(is_ordered_by_time(&vec![trade(1, "A", 1)]));
    assert!(is_ordered_by_time(&vec![trade(1, "A", 1), trade(1, "B", 1), trade(2, "A", 1)]));
    assert!(!is_ordered_by_time(&vec![trade(1, "A", 1), trade(3, "B", 1), trade(2, "A", 1)]));
}

#[test]
fn duplicate_check_finds_a_repeated_event() {
    assert!(has_distinct_events(&vec![]));
    assert!(has_distinct_events(&vec![trade(1, "A", 1), trade(1, "B", 1)]));
    assert!(!has_distinct_events(&vec![trade(1, "A", 1), trade(2, "B", 1), trade(1, "A", 1)]));
}
