use pacascope::cache::{decode_cache, encode_cache, get_i64, get_text, get_u64, put_i64, put_text, put_u64, MAGIC};
use pacascope::data::{FailureCause, Position, Side, StaleMarker, StrategyData, Trade};
use pacascope::store::StrategyStateStore;

fn full_entry(name: &str) -> StrategyData {
    StrategyData {
        name: name.to_string(),
        portfolio_value: 100_000_250_000,
        buying_power: -1,
        cash: i64::MIN,
        day_trades_used: 1,
        day_trades_remaining: 2,
        positions: vec![
            Position {
                symbol: "AAPL".to_string(),
                quantity: 10_000_000,
                market_value: 1_855_000_000,
                unrealized_pl: -12_340_000,
                unrealized_plpc: -6_600,
            },
            Position { symbol: "BRK.B".to_string(), quantity: 1, market_value: 2, unrealized_pl: 3, unrealized_plpc: 4 },
        ],
        recent_trades: vec![
            Trade {
                timestamp: 1_705_329_000_000,
                symbol: "AAPL".to_string(),
                side: Side::Buy,
                quantity: 10_000_000,
                price: 185_500_000,
                strategy: name.to_string(),
            },
            Trade {
                timestamp: 1_705_329_060_000,
                symbol: "MSFT".to_string(),
                side: Side::Sell,
                quantity: 500_000,
                price: i64::MAX,
                strategy: name.to_string(),
            },
        ],
        last_updated: 1_705_329_061_000,
        stale: Some(StaleMarker { since: 1_705_329_062_000, cause: FailureCause::RateLimited }),
    }
}

#[test]
fn numbers_are_eight_bytes_least_significant_first() {
    let mut out = Vec::new();
    put_u64(&mut out, 0x0102_0304_0506_0708);
    assert_eq!(out, vec![8, 7, 6, 5, 4, 3, 2, 1]);
    put_i64(&mut out, -2);
    assert_eq!(out[8..], [0xfe, 0xff, 0xff, 0xff, 0xff, 0xff, 0xff, 0xff]);
    assert_eq!(get_u64(&out, 0), Some((0x0102_0304_0506_0708, 8)));
    assert_eq!(get_i64(&out, 8), Some((-2, 16)));
    assert_eq!(get_u64(&out, 9), None);
    assert_eq!(get_u64(&out, 16), None);
    assert_eq!(get_u64(&out, usize::MAX), None);
}

#[test]
fn text_is_its_length_and_its_utf8() {
    let mut out = Vec::new();
    put_text(&mut out, "Zürich");
    assert_eq!(out.len(), 8 + 7);
    assert_eq!(out[..8], [7, 0, 0, 0, 0, 0, 0, 0]);
    assert_eq!(&out[8..], "Zürich".as_bytes());
    assert_eq!(get_text(&out, 0), Some(("Zürich".to_string(), 15)));
    put_text(&mut out, "");
    assert_eq!(get_text(&out, 15), Some((String::new(), 23)));
}

#[test]
fn text_that_is_no_utf8_is_refused() {
    let mut out = Vec::new();
    put_u64(&mut out, 2);
    out.push(0xc3);
    out.push(0x28);
    assert_eq!(get_text(&out, 0), None);
}

#[test]
fn text_longer_than_the_bytes_is_refused() {
    let mut out = Vec::new();
    put_u64(&mut out, 3);
    out.push(b'a');
    out.push(b'b');
    assert_eq!(get_text(&out, 0), None);
    let mut out = Vec::new();
    put_u64(&mut out, u64::MAX);
    assert_eq!(get_text(&out, 0), None);
}

#[test]
fn cache_bytes_begin_with_the_mark() {
    let bytes = encode_cache(&vec![]);
    assert_eq!(&bytes[..8], b"PSCACHE1");
    assert_eq!(&bytes[..8], MAGIC.to_le_bytes());
    assert_eq!(bytes.len(), 16);
    assert_eq!(decode_cache(&bytes), Some(vec![]));
}

#[test]
fn entries_are_read_back_as_they_were_written() {
    let mut plain = StrategyData::new("PDT-Safe".to_string());
    plain.day_trades_used = u32::MAX;
    plain.day_trades_remaining = 0;
    let entries = vec![full_entry("Alpha"), StrategyData::new("Beta".to_string()), plain, full_entry("Ünïcödé")];
    let bytes = encode_cache(&entries);
    assert_eq!(decode_cache(&bytes), Some(entries));
}

#[test]
fn every_cause_and_side_is_read_back() {
    let causes = [
        FailureCause::Timeout,
        FailureCause::ConnectionReset,
        FailureCause::ServerError,
        FailureCause::RateLimited,
        FailureCause::AuthRejected,
        FailureCause::MissingCredentials,
        FailureCause::Rejected,
    ];
    let mut entries = Vec::new();
    for (i, cause) in causes.iter().enumerate() {
        let mut d = full_entry("Alpha");
        d.name = format!("s{}", i);
        d.stale = Some(StaleMarker { since: i as i64, cause: *cause });
        entries.push(d);
    }
    let mut fresh = full_entry("fresh");
    fresh.stale = None;
    entries.push(fresh);
    assert_eq!(decode_cache(&encode_cache(&entries)), Some(entries));
}

#[test]
fn bytes_that_are_no_cache_are_refused() {
    assert_eq!(decode_cache(b""), None);
    assert_eq!(decode_cache(b"PSCACHE"), None);
    assert_eq!(decode_cache(b"PSCACHE1"), None);
    assert_eq!(decode_cache(b"NOTCACHE\0\0\0\0\0\0\0\0"), None);
    assert_eq!(decode_cache(b"[Alpha]\nportfolio_value = 1\n"), None);
}

#[test]
fn cut_off_cache_is_refused() {
    let bytes = encode_cache(&vec![full_entry("Alpha"), full_entry("Beta")]);
    for cut in 0..bytes.len() {
        assert_eq!(decode_cache(&bytes[..cut]), None, "cut at {}", cut);
    }
}

#[test]
fn count_beyond_the_entries_is_refused() {
    let mut bytes = encode_cache(&vec![full_entry("Alpha")]);
    bytes[8] = 2;
    assert_eq!(decode_cache(&bytes), None);
    let mut bytes = encode_cache(&vec![]);
    for b in &mut bytes[8..16] {
        *b = 0xff;
    }
    assert_eq!(decode_cache(&bytes), None);
}

#[test]
fn unknown_side_or_cause_is_refused() {
    let mut d = StrategyData::new("A".to_string());
    d.stale = Some(StaleMarker { since: 0, cause: FailureCause::Timeout });
    let good = encode_cache(&vec![d]);
    assert!(decode_cache(&good).is_some());
    // The state begins behind the mark, the count and the entry's length;
    // the number of the cause is the last of the mark of staleness.
    let cause_at = 24 + (8 + 1) + 6 * 8 + 8 + 8;
    assert_eq!(good[cause_at], 0);
    let mut bad = good.clone();
    bad[cause_at] = 7;
    assert_eq!(decode_cache(&bad), None);
    bad[cause_at] = 6;
    assert!(decode_cache(&bad).is_some());
    let mut bad = good.clone();
    bad[cause_at - 16] = 2;
    assert_eq!(decode_cache(&bad), None);
}

#[test]
fn what_a_later_version_appends_to_an_entry_is_passed_over() {
    let entries = vec![full_entry("Alpha"), full_entry("Beta")];
    let bytes = encode_cache(&entries);
    let first_len = u64::from_le_bytes(bytes[16..24].try_into().unwrap()) as usize;
    let mut extended = bytes[..16].to_vec();
    extended.extend_from_slice(&(first_len as u64 + 3).to_le_bytes());
    extended.extend_from_slice(&bytes[24..24 + first_len]);
    extended.extend_from_slice(&[1, 2, 3]);
    extended.extend_from_slice(&bytes[24 + first_len..]);
    assert_eq!(decode_cache(&extended), Some(entries));
}

#[test]
fn bytes_behind_the_last_entry_are_passed_over() {
    let entries = vec![full_entry("Alpha")];
    let mut bytes = encode_cache(&entries);
    bytes.extend_from_slice(b"trailer");
    assert_eq!(decode_cache(&bytes), Some(entries));
}

#[test]
fn store_is_the_same_after_persist_and_reload() {
    let mut store = StrategyStateStore::new();
    let mut a = full_entry("Alpha");
    a.cash = 5;
    store.put(a);
    store.put(StrategyData::new("Beta".to_string()));
    store.put(full_entry("PDT-Safe"));
    let bytes = store.persist_cache();
    let mut reloaded = StrategyStateStore::new();
    assert_eq!(reloaded.load_cache_bytes(&bytes), Some(3));
    assert_eq!(reloaded.snapshot_all(), store.snapshot_all());
    // Persisting what was reloaded gives the same bytes.
    assert_eq!(reloaded.persist_cache(), bytes);
}

#[test]
fn reload_does_not_overwrite_live_state() {
    let mut cached = StrategyStateStore::new();
    cached.put(full_entry("Alpha"));
    cached.put(full_entry("Beta"));
    let bytes = cached.persist_cache();
    let mut live = StrategyStateStore::new();
    live.put(StrategyData::new("Alpha".to_string()));
    assert_eq!(live.load_cache_bytes(&bytes), Some(1));
    assert_eq!(live.get("Alpha"), Some(StrategyData::new("Alpha".to_string())));
    assert_eq!(live.get("Beta"), Some(full_entry("Beta")));
}

#[test]
fn reload_of_what_is_no_cache_changes_nothing() {
    let mut live = StrategyStateStore::new();
    live.put(full_entry("Alpha"));
    assert_eq!(live.load_cache_bytes(b"garbage"), None);
    assert_eq!(live.snapshot_all(), vec![full_entry("Alpha")]);
}

#[test]
fn fields_missing_at_the_end_of_an_entry_take_the_blank_values() {
    let full = full_entry("Alpha");
    let bytes = encode_cache(&vec![full.clone()]);
    let name_len = 8 + "Alpha".len();
    // The entry as a version with fewer fields would have written it: the
    // name alone, then the name and the first three figures.
    for (kept, expected) in [
        (name_len, StrategyData::new("Alpha".to_string())),
        (name_len + 24, {
            let mut d = StrategyData::new("Alpha".to_string());
            d.portfolio_value = full.portfolio_value;
            d.buying_power = full.buying_power;
            d.cash = full.cash;
            d
        }),
        (name_len + 32, {
            let mut d = StrategyData::new("Alpha".to_string());
            d.portfolio_value = full.portfolio_value;
            d.buying_power = full.buying_power;
            d.cash = full.cash;
            d.day_trades_used = 1;
            d.day_trades_remaining = 2;
            d
        }),
    ] {
        let mut older = bytes[..16].to_vec();
        older.extend_from_slice(&(kept as u64).to_le_bytes());
        older.extend_from_slice(&bytes[24..24 + kept]);
        assert_eq!(decode_cache(&older), Some(vec![expected]));
    }
}

#[test]
fn entry_that_ends_within_a_field_is_refused() {
    let bytes = encode_cache(&vec![full_entry("Alpha")]);
    let name_len = 8 + "Alpha".len();
    for kept in [0, 4, name_len - 1, name_len + 1, name_len + 7, name_len + 30] {
        let mut broken = bytes[..16].to_vec();
        broken.extend_from_slice(&(kept as u64).to_le_bytes());
        broken.extend_from_slice(&bytes[24..24 + kept]);
        assert_eq!(decode_cache(&broken), None, "kept {}", kept);
    }
}
