//! The bytes of the cache: what the store writes to a durable place and
//! reads back when the brokerage cannot be reached at start.
//!
//! Numbers are eight bytes each, least significant first. A text is its
//! length in bytes and then its UTF-8. A list is its length and then its
//! items. An entry is framed by its length, so that a reader can pass over
//! whatever a later version appends to an entry; an entry that ends early,
//! behind any of its fields, is read with the blank state's values for the
//! fields that are missing.

use vstd::prelude::*;
use crate::data::{
    day_trades_left,
    position_views,
    remaining_day_trades,
    trade_views,
    FailureCause,
    Position,
    PositionView,
    Side,
    StaleMarker,
    StrategyData,
    StrategyDataView,
    Trade,
    TradeView,
};
use crate::store::data_views;
use vstd::bytes::{
    lemma_auto_spec_u64_to_from_le_bytes,
    spec_u64_from_le_bytes,
    spec_u64_to_le_bytes,
    u64_from_le_bytes,
    u64_to_le_bytes,
};
use vstd::slice::{slice_subrange, slice_to_vec};
use vstd::string::*;
use vstd::utf8::{
    decode_utf8,
    decode_utf8_encode_utf8,
    encode_utf8,
    encode_utf8_decode_utf8,
    encode_utf8_valid_utf8,
    valid_utf8,
};

verus! {

/// Whether the bytes `x` stand in `b` at the place `pos`.
pub open spec fn holds(b: Seq<u8>, pos: int, x: Seq<u8>) -> bool {
    0 <= pos && pos + x.len() <= b.len() && b.subrange(pos, pos + x.len()) == x
}

/// Where two runs of bytes stand one behind the other, each stands at its
/// place.
pub proof fn lemma_holds_split(b: Seq<u8>, pos: int, x: Seq<u8>, y: Seq<u8>)
    requires
        holds(b, pos, x + y),
    ensures
        holds(b, pos, x),
        holds(b, pos + x.len(), y),
{
    let w = b.subrange(pos, pos + (x + y).len());
    assert(b.subrange(pos, pos + x.len()) =~= w.subrange(0, x.len() as int));
    assert((x + y).subrange(0, x.len() as int) =~= x);
    assert(b.subrange(pos + x.len(), pos + x.len() + y.len()) =~= w.subrange(
        x.len() as int,
        (x + y).len() as int,
    ));
    assert((x + y).subrange(x.len() as int, (x + y).len() as int) =~= y);
}

/// The bytes of a number.
pub open spec fn enc_u64(x: u64) -> Seq<u8> {
    spec_u64_to_le_bytes(x)
}

/// The number that stands in `b` at `pos`, and the place behind it.
pub open spec fn dec_u64(b: Seq<u8>, pos: int) -> Option<(u64, int)> {
    if 0 <= pos && pos + 8 <= b.len() {
        Some((spec_u64_from_le_bytes(b.subrange(pos, pos + 8)), pos + 8))
    } else {
        None
    }
}

/// A number is read back as it was written.
pub proof fn lemma_u64_round_trip(b: Seq<u8>, pos: int, x: u64)
    requires
        holds(b, pos, enc_u64(x)),
    ensures
        enc_u64(x).len() == 8,
        dec_u64(b, pos) == Some((x, pos + 8)),
{
    lemma_auto_spec_u64_to_from_le_bytes();
}

/// The bytes of a signed number.
pub open spec fn enc_i64(x: i64) -> Seq<u8> {
    enc_u64(x as u64)
}

/// The signed number that stands in `b` at `pos`, and the place behind it.
pub open spec fn dec_i64(b: Seq<u8>, pos: int) -> Option<(i64, int)> {
    match dec_u64(b, pos) {
        Some((u, p)) => Some((u as i64, p)),
        None => None,
    }
}

/// A signed number is read back as it was written.
pub proof fn lemma_i64_round_trip(b: Seq<u8>, pos: int, x: i64)
    requires
        holds(b, pos, enc_i64(x)),
    ensures
        enc_i64(x).len() == 8,
        dec_i64(b, pos) == Some((x, pos + 8)),
{
    lemma_u64_round_trip(b, pos, x as u64);
    assert((x as u64) as i64 == x) by (bit_vector);
}

/// The bytes of a text: the length of its UTF-8, then its UTF-8.
pub open spec fn enc_text(s: Seq<char>) -> Seq<u8> {
    enc_u64(encode_utf8(s).len() as u64) + encode_utf8(s)
}

/// The text that stands in `b` at `pos`, and the place behind it.
pub open spec fn dec_text(b: Seq<u8>, pos: int) -> Option<(Seq<char>, int)> {
    match dec_u64(b, pos) {
        Some((n, p)) => if p + n <= b.len() && valid_utf8(b.subrange(p, p + n)) {
            Some((decode_utf8(b.subrange(p, p + n)), p + n))
        } else {
            None
        },
        None => None,
    }
}

/// Whether the text can be written: its UTF-8 is not longer than a number
/// can tell.
pub open spec fn text_fits(s: Seq<char>) -> bool {
    encode_utf8(s).len() <= u64::MAX
}

/// A text is read back as it was written.
pub proof fn lemma_text_round_trip(b: Seq<u8>, pos: int, s: Seq<char>)
    requires
        holds(b, pos, enc_text(s)),
        text_fits(s),
    ensures
        dec_text(b, pos) == Some((s, pos + enc_text(s).len())),
        enc_text(s).len() == 8 + encode_utf8(s).len(),
{
    let n = encode_utf8(s).len() as u64;
    lemma_holds_split(b, pos, enc_u64(n), encode_utf8(s));
    lemma_u64_round_trip(b, pos, n);
    encode_utf8_valid_utf8(s);
    encode_utf8_decode_utf8(s);
}

/// Appends the bytes of a number.
pub fn put_u64(out: &mut Vec<u8>, x: u64)
    ensures
        final(out)@ == old(out)@ + enc_u64(x),
{
    let mut bytes = u64_to_le_bytes(x);
    out.append(&mut bytes);
}

/// Appends the bytes of a signed number.
pub fn put_i64(out: &mut Vec<u8>, x: i64)
    ensures
        final(out)@ == old(out)@ + enc_i64(x),
{
    put_u64(out, x as u64);
}

/// Appends the bytes of a text.
pub fn put_text(out: &mut Vec<u8>, s: &str)
    ensures
        final(out)@ == old(out)@ + enc_text(s@),
        text_fits(s@),
{
    let bytes = s.as_bytes();
    put_u64(out, bytes.len() as u64);
    let mut copy = slice_to_vec(bytes);
    out.append(&mut copy);
    assert(out@ =~= old(out)@ + enc_text(s@));
}

/// Reads the number at `pos`.
pub fn get_u64(b: &[u8], pos: usize) -> (r: Option<(u64, usize)>)
    ensures
        match r {
            Some((v, p)) => dec_u64(b@, pos as int) == Some((v, p as int)),
            None => dec_u64(b@, pos as int) is None,
        },
{
    if pos > b.len() || b.len() - pos < 8 {
        None
    } else {
        Some((u64_from_le_bytes(slice_subrange(b, pos, pos + 8)), pos + 8))
    }
}

/// Reads the signed number at `pos`.
pub fn get_i64(b: &[u8], pos: usize) -> (r: Option<(i64, usize)>)
    ensures
        match r {
            Some((v, p)) => dec_i64(b@, pos as int) == Some((v, p as int)),
            None => dec_i64(b@, pos as int) is None,
        },
{
    match get_u64(b, pos) {
        Some((u, p)) => Some((u as i64, p)),
        None => None,
    }
}

/// Turns UTF-8 into a string.
///
/// Calls `String::from_utf8`. The contract is taken on trust: where a string
/// comes back, the given bytes are its UTF-8, and none comes back only for
/// bytes that are not well-formed UTF-8.
#[verifier::external_body]
fn text_from_utf8(bytes: Vec<u8>) -> (r: Option<String>)
    ensures
        match r {
            Some(s) => encode_utf8(s@) == bytes@,
            None => !valid_utf8(bytes@),
        },
{
    match String::from_utf8(bytes) {
        Ok(s) => Some(s),
        Err(_) => None,
    }
}

/// Reads the text at `pos`.
pub fn get_text(b: &[u8], pos: usize) -> (r: Option<(String, usize)>)
    ensures
        match r {
            Some((s, p)) => dec_text(b@, pos as int) == Some((s@, p as int)),
            None => dec_text(b@, pos as int) is None,
        },
{
    let (n, p) = match get_u64(b, pos) {
        Some(r) => r,
        None => {
            return None;
        },
    };
    if n > (b.len() - p) as u64 {
        return None;
    }
    let end = p + n as usize;
    let bytes = slice_to_vec(slice_subrange(b, p, end));
    match text_from_utf8(bytes) {
        Some(s) => {
            proof {
                encode_utf8_valid_utf8(s@);
                encode_utf8_decode_utf8(s@);
            }
            Some((s, end))
        },
        None => None,
    }
}

/// The number that a side is written as.
pub open spec fn side_tag(side: Side) -> u64 {
    match side {
        Side::Buy => 0,
        Side::Sell => 1,
    }
}

/// The side that a number is read as.
pub open spec fn tag_side(tag: u64) -> Option<Side> {
    if tag == 0 {
        Some(Side::Buy)
    } else if tag == 1 {
        Some(Side::Sell)
    } else {
        None
    }
}

/// The number that a cause is written as.
pub open spec fn cause_tag(cause: FailureCause) -> u64 {
    match cause {
        FailureCause::Timeout => 0,
        FailureCause::ConnectionReset => 1,
        FailureCause::ServerError => 2,
        FailureCause::RateLimited => 3,
        FailureCause::AuthRejected => 4,
        FailureCause::MissingCredentials => 5,
        FailureCause::Rejected => 6,
    }
}

/// The cause that a number is read as.
pub open spec fn tag_cause(tag: u64) -> Option<FailureCause> {
    if tag == 0 {
        Some(FailureCause::Timeout)
    } else if tag == 1 {
        Some(FailureCause::ConnectionReset)
    } else if tag == 2 {
        Some(FailureCause::ServerError)
    } else if tag == 3 {
        Some(FailureCause::RateLimited)
    } else if tag == 4 {
        Some(FailureCause::AuthRejected)
    } else if tag == 5 {
        Some(FailureCause::MissingCredentials)
    } else if tag == 6 {
        Some(FailureCause::Rejected)
    } else {
        None
    }
}

/// The bytes of a position.
pub open spec fn enc_position(p: PositionView) -> Seq<u8> {
    enc_text(p.symbol) + (enc_i64(p.quantity) + (enc_i64(p.market_value) + (enc_i64(p.unrealized_pl)
        + enc_i64(p.unrealized_plpc))))
}

/// The position that stands in `b` at `pos`, and the place behind it.
pub open spec fn dec_position(b: Seq<u8>, pos: int) -> Option<(PositionView, int)> {
    match dec_text(b, pos) {
        Some((symbol, k1)) => match dec_i64(b, k1) {
            Some((quantity, k2)) => match dec_i64(b, k2) {
                Some((market_value, k3)) => match dec_i64(b, k3) {
                    Some((unrealized_pl, k4)) => match dec_i64(b, k4) {
                        Some((unrealized_plpc, k5)) => Some(
                            (
                                PositionView { symbol, quantity, market_value, unrealized_pl, unrealized_plpc },
                                k5,
                            ),
                        ),
                        None => None,
                    },
                    None => None,
                },
                None => None,
            },
            None => None,
        },
        None => None,
    }
}

/// A position is read back as it was written.
pub proof fn lemma_position_round_trip(b: Seq<u8>, pos: int, p: PositionView)
    requires
        holds(b, pos, enc_position(p)),
        text_fits(p.symbol),
    ensures
        dec_position(b, pos) == Some((p, pos + enc_position(p).len())),
{
    let r1 = enc_i64(p.quantity) + (enc_i64(p.market_value) + (enc_i64(p.unrealized_pl) + enc_i64(
        p.unrealized_plpc,
    )));
    let r2 = enc_i64(p.market_value) + (enc_i64(p.unrealized_pl) + enc_i64(p.unrealized_plpc));
    let r3 = enc_i64(p.unrealized_pl) + enc_i64(p.unrealized_plpc);
    lemma_holds_split(b, pos, enc_text(p.symbol), r1);
    lemma_text_round_trip(b, pos, p.symbol);
    let k1 = pos + enc_text(p.symbol).len();
    lemma_holds_split(b, k1, enc_i64(p.quantity), r2);
    lemma_i64_round_trip(b, k1, p.quantity);
    lemma_holds_split(b, k1 + 8, enc_i64(p.market_value), r3);
    lemma_i64_round_trip(b, k1 + 8, p.market_value);
    lemma_holds_split(b, k1 + 16, enc_i64(p.unrealized_pl), enc_i64(p.unrealized_plpc));
    lemma_i64_round_trip(b, k1 + 16, p.unrealized_pl);
    lemma_i64_round_trip(b, k1 + 24, p.unrealized_plpc);
}

/// The bytes of a trade.
pub open spec fn enc_trade(t: TradeView) -> Seq<u8> {
    enc_i64(t.timestamp) + (enc_text(t.symbol) + (enc_u64(side_tag(t.side)) + (enc_i64(t.quantity) + (
    enc_i64(t.price) + enc_text(t.strategy)))))
}

/// The trade that stands in `b` at `pos`, and the place behind it.
pub open spec fn dec_trade(b: Seq<u8>, pos: int) -> Option<(TradeView, int)> {
    match dec_i64(b, pos) {
        Some((timestamp, k1)) => match dec_text(b, k1) {
            Some((symbol, k2)) => match dec_u64(b, k2) {
                Some((tag, k3)) => match dec_i64(b, k3) {
                    Some((quantity, k4)) => match dec_i64(b, k4) {
                        Some((price, k5)) => match dec_text(b, k5) {
                            Some((strategy, k6)) => match tag_side(tag) {
                                Some(side) => Some(
                                    (TradeView { timestamp, symbol, side, quantity, price, strategy }, k6),
                                ),
                                None => None,
                            },
                            None => None,
                        },
                        None => None,
                    },
                    None => None,
                },
                None => None,
            },
            None => None,
        },
        None => None,
    }
}

/// A trade is read back as it was written.
pub proof fn lemma_trade_round_trip(b: Seq<u8>, pos: int, t: TradeView)
    requires
        holds(b, pos, enc_trade(t)),
        text_fits(t.symbol),
        text_fits(t.strategy),
    ensures
        dec_trade(b, pos) == Some((t, pos + enc_trade(t).len())),
{
    let r5 = enc_text(t.strategy);
    let r4 = enc_i64(t.price) + r5;
    let r3 = enc_i64(t.quantity) + r4;
    let r2 = enc_u64(side_tag(t.side)) + r3;
    let r1 = enc_text(t.symbol) + r2;
    lemma_holds_split(b, pos, enc_i64(t.timestamp), r1);
    lemma_i64_round_trip(b, pos, t.timestamp);
    let k1 = pos + 8;
    lemma_holds_split(b, k1, enc_text(t.symbol), r2);
    lemma_text_round_trip(b, k1, t.symbol);
    let k2 = k1 + enc_text(t.symbol).len();
    lemma_holds_split(b, k2, enc_u64(side_tag(t.side)), r3);
    lemma_u64_round_trip(b, k2, side_tag(t.side));
    lemma_holds_split(b, k2 + 8, enc_i64(t.quantity), r4);
    lemma_i64_round_trip(b, k2 + 8, t.quantity);
    lemma_holds_split(b, k2 + 16, enc_i64(t.price), r5);
    lemma_i64_round_trip(b, k2 + 16, t.price);
    lemma_text_round_trip(b, k2 + 24, t.strategy);
}

/// The bytes of the positions, one behind the other.
pub open spec fn enc_position_items(ps: Seq<PositionView>) -> Seq<u8>
    decreases ps.len(),
{
    if ps.len() == 0 {
        Seq::<u8>::empty()
    } else {
        enc_position(ps.first()) + enc_position_items(ps.drop_first())
    }
}

/// The `count` positions that stand in `b` from `pos` on, behind those
/// read already, and the place behind them.
pub open spec fn dec_position_items(b: Seq<u8>, pos: int, count: nat, read: Seq<PositionView>) -> Option<
    (Seq<PositionView>, int),
>
    decreases count,
{
    if count == 0 {
        Some((read, pos))
    } else {
        match dec_position(b, pos) {
            Some((p, next)) => dec_position_items(b, next, (count - 1) as nat, read.push(p)),
            None => None,
        }
    }
}

/// Whether every position can be written.
pub open spec fn positions_fit(ps: Seq<PositionView>) -> bool {
    ps.len() <= u64::MAX && forall|i: int| 0 <= i < ps.len() ==> text_fits((#[trigger] ps[i]).symbol)
}

/// The bytes of positions with one more behind them.
pub proof fn lemma_position_items_push(ps: Seq<PositionView>, p: PositionView)
    ensures
        enc_position_items(ps.push(p)) == enc_position_items(ps) + enc_position(p),
    decreases ps.len(),
{
    if ps.len() == 0 {
        assert(ps.push(p).drop_first() =~= Seq::<PositionView>::empty());
        assert(ps.push(p).first() == p);
        assert(enc_position_items(Seq::<PositionView>::empty()) =~= Seq::<u8>::empty());
        assert(enc_position_items(ps) =~= Seq::<u8>::empty());
        assert(enc_position_items(ps.push(p)) =~= enc_position(p));
        assert(enc_position_items(ps) + enc_position(p) =~= enc_position(p));
    } else {
        assert(ps.push(p).drop_first() =~= ps.drop_first().push(p));
        lemma_position_items_push(ps.drop_first(), p);
        assert(enc_position_items(ps.push(p)) =~= enc_position_items(ps) + enc_position(p));
    }
}

/// Positions are read back as they were written.
pub proof fn lemma_position_items_round_trip(b: Seq<u8>, pos: int, ps: Seq<PositionView>, read: Seq<PositionView>)
    requires
        holds(b, pos, enc_position_items(ps)),
        positions_fit(ps),
    ensures
        dec_position_items(b, pos, ps.len(), read) == Some((read + ps, pos + enc_position_items(ps).len())),
    decreases ps.len(),
{
    if ps.len() == 0 {
        assert(read + ps =~= read);
    } else {
        let rest = ps.drop_first();
        lemma_holds_split(b, pos, enc_position(ps.first()), enc_position_items(rest));
        assert(text_fits(ps[0].symbol));
        lemma_position_round_trip(b, pos, ps.first());
        assert forall|i: int| 0 <= i < rest.len() implies text_fits((#[trigger] rest[i]).symbol) by {
            assert(rest[i] == ps[i + 1]);
        }
        lemma_position_items_round_trip(b, pos + enc_position(ps.first()).len(), rest, read.push(ps.first()));
        assert(read.push(ps.first()) + rest =~= read + ps);
    }
}

/// The bytes of the trades, one behind the other.
pub open spec fn enc_trade_items(ts: Seq<TradeView>) -> Seq<u8>
    decreases ts.len(),
{
    if ts.len() == 0 {
        Seq::<u8>::empty()
    } else {
        enc_trade(ts.first()) + enc_trade_items(ts.drop_first())
    }
}

/// The `count` trades that stand in `b` from `pos` on, behind those read
/// already, and the place behind them.
pub open spec fn dec_trade_items(b: Seq<u8>, pos: int, count: nat, read: Seq<TradeView>) -> Option<
    (Seq<TradeView>, int),
>
    decreases count,
{
    if count == 0 {
        Some((read, pos))
    } else {
        match dec_trade(b, pos) {
            Some((t, next)) => dec_trade_items(b, next, (count - 1) as nat, read.push(t)),
            None => None,
        }
    }
}

/// Whether every trade can be written.
pub open spec fn trades_fit(ts: Seq<TradeView>) -> bool {
    ts.len() <= u64::MAX && forall|i: int|
        0 <= i < ts.len() ==> text_fits((#[trigger] ts[i]).symbol) && text_fits(ts[i].strategy)
}

/// The bytes of trades with one more behind them.
pub proof fn lemma_trade_items_push(ts: Seq<TradeView>, t: TradeView)
    ensures
        enc_trade_items(ts.push(t)) == enc_trade_items(ts) + enc_trade(t),
    decreases ts.len(),
{
    if ts.len() == 0 {
        assert(ts.push(t).drop_first() =~= Seq::<TradeView>::empty());
        assert(ts.push(t).first() == t);
        assert(enc_trade_items(Seq::<TradeView>::empty()) =~= Seq::<u8>::empty());
        assert(enc_trade_items(ts) =~= Seq::<u8>::empty());
        assert(enc_trade_items(ts.push(t)) =~= enc_trade(t));
        assert(enc_trade_items(ts) + enc_trade(t) =~= enc_trade(t));
    } else {
        assert(ts.push(t).drop_first() =~= ts.drop_first().push(t));
        lemma_trade_items_push(ts.drop_first(), t);
        assert(enc_trade_items(ts.push(t)) =~= enc_trade_items(ts) + enc_trade(t));
    }
}

/// Trades are read back as they were written.
pub proof fn lemma_trade_items_round_trip(b: Seq<u8>, pos: int, ts: Seq<TradeView>, read: Seq<TradeView>)
    requires
        holds(b, pos, enc_trade_items(ts)),
        trades_fit(ts),
    ensures
        dec_trade_items(b, pos, ts.len(), read) == Some((read + ts, pos + enc_trade_items(ts).len())),
    decreases ts.len(),
{
    if ts.len() == 0 {
        assert(read + ts =~= read);
    } else {
        let rest = ts.drop_first();
        lemma_holds_split(b, pos, enc_trade(ts.first()), enc_trade_items(rest));
        assert(text_fits(ts[0].symbol) && text_fits(ts[0].strategy));
        lemma_trade_round_trip(b, pos, ts.first());
        assert forall|i: int| 0 <= i < rest.len() implies text_fits((#[trigger] rest[i]).symbol)
            && text_fits(rest[i].strategy) by {
            assert(rest[i] == ts[i + 1]);
        }
        lemma_trade_items_round_trip(b, pos + enc_trade(ts.first()).len(), rest, read.push(ts.first()));
        assert(read.push(ts.first()) + rest =~= read + ts);
    }
}

/// The bytes of the mark of staleness.
pub open spec fn enc_stale(stale: Option<StaleMarker>) -> Seq<u8> {
    match stale {
        None => enc_u64(0),
        Some(m) => enc_u64(1) + (enc_i64(m.since) + enc_u64(cause_tag(m.cause))),
    }
}

/// The mark of staleness that stands in `b` at `pos`, and the place behind
/// it.
pub open spec fn dec_stale(b: Seq<u8>, pos: int) -> Option<(Option<StaleMarker>, int)> {
    match dec_u64(b, pos) {
        Some((tag, k1)) => if tag == 0 {
            Some((None, k1))
        } else if tag == 1 {
            match dec_i64(b, k1) {
                Some((since, k2)) => match dec_u64(b, k2) {
                    Some((c, k3)) => match tag_cause(c) {
                        Some(cause) => Some((Some(StaleMarker { since, cause }), k3)),
                        None => None,
                    },
                    None => None,
                },
                None => None,
            }
        } else {
            None
        },
        None => None,
    }
}

/// A mark of staleness is read back as it was written.
pub proof fn lemma_stale_round_trip(b: Seq<u8>, pos: int, stale: Option<StaleMarker>)
    requires
        holds(b, pos, enc_stale(stale)),
    ensures
        dec_stale(b, pos) == Some((stale, pos + enc_stale(stale).len())),
        enc_stale(stale).len() >= 8,
{
    match stale {
        None => {
            lemma_u64_round_trip(b, pos, 0);
        },
        Some(m) => {
            lemma_holds_split(b, pos, enc_u64(1), enc_i64(m.since) + enc_u64(cause_tag(m.cause)));
            lemma_u64_round_trip(b, pos, 1);
            lemma_holds_split(b, pos + 8, enc_i64(m.since), enc_u64(cause_tag(m.cause)));
            lemma_i64_round_trip(b, pos + 8, m.since);
            lemma_u64_round_trip(b, pos + 16, cause_tag(m.cause));
        },
    }
}

/// The bytes of a list of positions: their number, then each.
pub open spec fn enc_positions(ps: Seq<PositionView>) -> Seq<u8> {
    enc_u64(ps.len() as u64) + enc_position_items(ps)
}

/// The list of positions that stands in `b` at `pos`, and the place
/// behind it.
pub open spec fn dec_positions(b: Seq<u8>, pos: int) -> Option<(Seq<PositionView>, int)> {
    match dec_u64(b, pos) {
        Some((n, p)) => dec_position_items(b, p, n as nat, Seq::<PositionView>::empty()),
        None => None,
    }
}

/// The bytes of a list of trades: their number, then each.
pub open spec fn enc_trades(ts: Seq<TradeView>) -> Seq<u8> {
    enc_u64(ts.len() as u64) + enc_trade_items(ts)
}

/// The list of trades that stands in `b` at `pos`, and the place behind it.
pub open spec fn dec_trades(b: Seq<u8>, pos: int) -> Option<(Seq<TradeView>, int)> {
    match dec_u64(b, pos) {
        Some((n, p)) => dec_trade_items(b, p, n as nat, Seq::<TradeView>::empty()),
        None => None,
    }
}

/// A list of positions is read back as it was written.
pub proof fn lemma_positions_round_trip(b: Seq<u8>, pos: int, ps: Seq<PositionView>)
    requires
        holds(b, pos, enc_positions(ps)),
        positions_fit(ps),
    ensures
        dec_positions(b, pos) == Some((ps, pos + enc_positions(ps).len())),
        enc_positions(ps).len() >= 8,
{
    lemma_holds_split(b, pos, enc_u64(ps.len() as u64), enc_position_items(ps));
    lemma_u64_round_trip(b, pos, ps.len() as u64);
    lemma_position_items_round_trip(b, pos + 8, ps, Seq::<PositionView>::empty());
    assert(Seq::<PositionView>::empty() + ps =~= ps);
}

/// A list of trades is read back as it was written.
pub proof fn lemma_trades_round_trip(b: Seq<u8>, pos: int, ts: Seq<TradeView>)
    requires
        holds(b, pos, enc_trades(ts)),
        trades_fit(ts),
    ensures
        dec_trades(b, pos) == Some((ts, pos + enc_trades(ts).len())),
        enc_trades(ts).len() >= 8,
{
    lemma_holds_split(b, pos, enc_u64(ts.len() as u64), enc_trade_items(ts));
    lemma_u64_round_trip(b, pos, ts.len() as u64);
    lemma_trade_items_round_trip(b, pos + 8, ts, Seq::<TradeView>::empty());
    assert(Seq::<TradeView>::empty() + ts =~= ts);
}

/// The bytes of the state of a strategy.
pub open spec fn enc_data(d: StrategyDataView) -> Seq<u8> {
    enc_text(d.name) + (enc_i64(d.portfolio_value) + (enc_i64(d.buying_power) + (enc_i64(d.cash) + (
    enc_u64(d.day_trades_used as u64) + (enc_u64(d.day_trades_remaining as u64) + (enc_i64(
        d.last_updated,
    ) + (enc_stale(d.stale) + (enc_positions(d.positions) + enc_trades(d.recent_trades)))))))))
}

/// The signed number that stands in `b` at `k`, or `missing` where `b`
/// ends at `k`.
pub open spec fn dec_i64_or(b: Seq<u8>, k: int, missing: i64) -> Option<(i64, int)> {
    if k == b.len() {
        Some((missing, k))
    } else {
        dec_i64(b, k)
    }
}

/// The number that stands in `b` at `k`, or `missing` where `b` ends at `k`.
pub open spec fn dec_u64_or(b: Seq<u8>, k: int, missing: u64) -> Option<(u64, int)> {
    if k == b.len() {
        Some((missing, k))
    } else {
        dec_u64(b, k)
    }
}

/// The mark of staleness that stands in `b` at `k`, or none where `b` ends
/// at `k`.
pub open spec fn dec_stale_or(b: Seq<u8>, k: int) -> Option<(Option<StaleMarker>, int)> {
    if k == b.len() {
        Some((None, k))
    } else {
        dec_stale(b, k)
    }
}

/// The list of positions that stands in `b` at `k`, or the empty list
/// where `b` ends at `k`.
pub open spec fn dec_positions_or(b: Seq<u8>, k: int) -> Option<(Seq<PositionView>, int)> {
    if k == b.len() {
        Some((Seq::<PositionView>::empty(), k))
    } else {
        dec_positions(b, k)
    }
}

/// The list of trades that stands in `b` at `k`, or the empty list where
/// `b` ends at `k`.
pub open spec fn dec_trades_or(b: Seq<u8>, k: int) -> Option<(Seq<TradeView>, int)> {
    if k == b.len() {
        Some((Seq::<TradeView>::empty(), k))
    } else {
        dec_trades(b, k)
    }
}

/// The day trades left that go with `used` day trades, as the number that
/// is written.
pub open spec fn remaining_for(used: u64) -> u64 {
    if used <= u32::MAX {
        remaining_day_trades(used as u32) as u64
    } else {
        0
    }
}

/// The state that stands in `b` at `pos`, and the place behind it. A state
/// that ends behind its name or behind any later field is read with the
/// blank state's values for what is missing.
pub open spec fn dec_data(b: Seq<u8>, pos: int) -> Option<(StrategyDataView, int)> {
    match dec_text(b, pos) {
        Some((name, k1)) => match dec_i64_or(b, k1, 0) {
            Some((portfolio_value, k2)) => match dec_i64_or(b, k2, 0) {
                Some((buying_power, k3)) => match dec_i64_or(b, k3, 0) {
                    Some((cash, k4)) => match dec_u64_or(b, k4, 0) {
                        Some((used, k5)) => match dec_u64_or(b, k5, remaining_for(used)) {
                            Some((remaining, k6)) => match dec_i64_or(b, k6, 0) {
                                Some((last_updated, k7)) => match dec_stale_or(b, k7) {
                                    Some((stale, k8)) => match dec_positions_or(b, k8) {
                                        Some((positions, k9)) => match dec_trades_or(b, k9) {
                                            Some((recent_trades, k10)) => if used <= u32::MAX
                                                && remaining <= u32::MAX {
                                                Some(
                                                    (
                                                        StrategyDataView {
                                                            name,
                                                            portfolio_value,
                                                            buying_power,
                                                            cash,
                                                            day_trades_used: used as u32,
                                                            day_trades_remaining: remaining as u32,
                                                            positions,
                                                            recent_trades,
                                                            last_updated,
                                                            stale,
                                                        },
                                                        k10,
                                                    ),
                                                )
                                            } else {
                                                None
                                            },
                                            None => None,
                                        },
                                        None => None,
                                    },
                                    None => None,
                                },
                                None => None,
                            },
                            None => None,
                        },
                        None => None,
                    },
                    None => None,
                },
                None => None,
            },
            None => None,
        },
        None => None,
    }
}

/// Whether the state can be written: no text and no list in it is longer
/// than a number can tell.
pub open spec fn data_fits(d: StrategyDataView) -> bool {
    text_fits(d.name) && positions_fit(d.positions) && trades_fit(d.recent_trades) && enc_data(d).len()
        <= u64::MAX
}

/// A state is read back as it was written.
pub proof fn lemma_data_round_trip(b: Seq<u8>, pos: int, d: StrategyDataView)
    requires
        holds(b, pos, enc_data(d)),
        data_fits(d),
    ensures
        dec_data(b, pos) == Some((d, pos + enc_data(d).len())),
{
    let r9 = enc_trades(d.recent_trades);
    let r8 = enc_positions(d.positions) + r9;
    let r7 = enc_stale(d.stale) + r8;
    let r6 = enc_i64(d.last_updated) + r7;
    let r5 = enc_u64(d.day_trades_remaining as u64) + r6;
    let r4 = enc_u64(d.day_trades_used as u64) + r5;
    let r3 = enc_i64(d.cash) + r4;
    let r2 = enc_i64(d.buying_power) + r3;
    let r1 = enc_i64(d.portfolio_value) + r2;
    lemma_holds_split(b, pos, enc_text(d.name), r1);
    lemma_text_round_trip(b, pos, d.name);
    let k1 = pos + enc_text(d.name).len();
    lemma_holds_split(b, k1, enc_i64(d.portfolio_value), r2);
    lemma_i64_round_trip(b, k1, d.portfolio_value);
    lemma_holds_split(b, k1 + 8, enc_i64(d.buying_power), r3);
    lemma_i64_round_trip(b, k1 + 8, d.buying_power);
    lemma_holds_split(b, k1 + 16, enc_i64(d.cash), r4);
    lemma_i64_round_trip(b, k1 + 16, d.cash);
    lemma_holds_split(b, k1 + 24, enc_u64(d.day_trades_used as u64), r5);
    lemma_u64_round_trip(b, k1 + 24, d.day_trades_used as u64);
    lemma_holds_split(b, k1 + 32, enc_u64(d.day_trades_remaining as u64), r6);
    lemma_u64_round_trip(b, k1 + 32, d.day_trades_remaining as u64);
    lemma_holds_split(b, k1 + 40, enc_i64(d.last_updated), r7);
    lemma_i64_round_trip(b, k1 + 40, d.last_updated);
    let k7 = k1 + 48;
    lemma_holds_split(b, k7, enc_stale(d.stale), r8);
    lemma_stale_round_trip(b, k7, d.stale);
    let k8 = k7 + enc_stale(d.stale).len();
    lemma_holds_split(b, k8, enc_positions(d.positions), r9);
    lemma_positions_round_trip(b, k8, d.positions);
    let k9 = k8 + enc_positions(d.positions).len();
    lemma_trades_round_trip(b, k9, d.recent_trades);
}

/// The bytes of an entry: the length of the state's bytes, then these.
pub open spec fn enc_entry(d: StrategyDataView) -> Seq<u8> {
    enc_u64(enc_data(d).len() as u64) + enc_data(d)
}

/// The entry that stands in `b` at `pos`, and the place behind it. What the
/// entry holds behind the state is passed over.
pub open spec fn dec_entry(b: Seq<u8>, pos: int) -> Option<(StrategyDataView, int)> {
    match dec_u64(b, pos) {
        Some((n, p)) => if p + n <= b.len() {
            match dec_data(b.subrange(p, p + n), 0) {
                Some((d, _)) => Some((d, p + n)),
                None => None,
            }
        } else {
            None
        },
        None => None,
    }
}

/// An entry is read back as it was written.
pub proof fn lemma_entry_round_trip(b: Seq<u8>, pos: int, d: StrategyDataView)
    requires
        holds(b, pos, enc_entry(d)),
        data_fits(d),
    ensures
        dec_entry(b, pos) == Some((d, pos + enc_entry(d).len())),
{
    let body = enc_data(d);
    lemma_holds_split(b, pos, enc_u64(body.len() as u64), body);
    lemma_u64_round_trip(b, pos, body.len() as u64);
    let p = pos + 8;
    assert(b.subrange(p, p + body.len()) == body);
    assert(body.subrange(0, body.len() as int) =~= body);
    lemma_data_round_trip(body, 0, d);
}

/// The bytes of the entries, one behind the other.
pub open spec fn enc_entry_items(s: Seq<StrategyDataView>) -> Seq<u8>
    decreases s.len(),
{
    if s.len() == 0 {
        Seq::<u8>::empty()
    } else {
        enc_entry(s.first()) + enc_entry_items(s.drop_first())
    }
}

/// The `count` entries that stand in `b` from `pos` on, behind those read
/// already, and the place behind them.
pub open spec fn dec_entry_items(b: Seq<u8>, pos: int, count: nat, read: Seq<StrategyDataView>) -> Option<
    (Seq<StrategyDataView>, int),
>
    decreases count,
{
    if count == 0 {
        Some((read, pos))
    } else {
        match dec_entry(b, pos) {
            Some((d, next)) => dec_entry_items(b, next, (count - 1) as nat, read.push(d)),
            None => None,
        }
    }
}

/// Whether the entries can be written.
pub open spec fn entries_fit(s: Seq<StrategyDataView>) -> bool {
    s.len() <= u64::MAX && forall|i: int| 0 <= i < s.len() ==> data_fits(#[trigger] s[i])
}

/// The bytes of entries with one more behind them.
pub proof fn lemma_entry_items_push(s: Seq<StrategyDataView>, d: StrategyDataView)
    ensures
        enc_entry_items(s.push(d)) == enc_entry_items(s) + enc_entry(d),
    decreases s.len(),
{
    if s.len() == 0 {
        assert(s.push(d).drop_first() =~= Seq::<StrategyDataView>::empty());
        assert(s.push(d).first() == d);
        assert(enc_entry_items(Seq::<StrategyDataView>::empty()) =~= Seq::<u8>::empty());
        assert(enc_entry_items(s) =~= Seq::<u8>::empty());
        assert(enc_entry_items(s.push(d)) =~= enc_entry(d));
        assert(enc_entry_items(s) + enc_entry(d) =~= enc_entry(d));
    } else {
        assert(s.push(d).drop_first() =~= s.drop_first().push(d));
        lemma_entry_items_push(s.drop_first(), d);
        assert(enc_entry_items(s.push(d)) =~= enc_entry_items(s) + enc_entry(d));
    }
}

/// Entries are read back as they were written.
pub proof fn lemma_entry_items_round_trip(b: Seq<u8>, pos: int, s: Seq<StrategyDataView>, read: Seq<StrategyDataView>)
    requires
        holds(b, pos, enc_entry_items(s)),
        entries_fit(s),
    ensures
        dec_entry_items(b, pos, s.len(), read) == Some((read + s, pos + enc_entry_items(s).len())),
    decreases s.len(),
{
    if s.len() == 0 {
        assert(read + s =~= read);
    } else {
        let rest = s.drop_first();
        lemma_holds_split(b, pos, enc_entry(s.first()), enc_entry_items(rest));
        assert(data_fits(s[0]));
        lemma_entry_round_trip(b, pos, s.first());
        assert forall|i: int| 0 <= i < rest.len() implies data_fits(#[trigger] rest[i]) by {
            assert(rest[i] == s[i + 1]);
        }
        lemma_entry_items_round_trip(b, pos + enc_entry(s.first()).len(), rest, read.push(s.first()));
        assert(read.push(s.first()) + rest =~= read + s);
    }
}

/// The number that the bytes of a cache begin with.
pub const MAGIC: u64 = 0x3145_4843_4143_5350;

/// The bytes of a cache: the mark, the number of entries, and the entries.
pub open spec fn cache_bytes(s: Seq<StrategyDataView>) -> Seq<u8> {
    enc_u64(MAGIC) + (enc_u64(s.len() as u64) + enc_entry_items(s))
}

/// The entries that the bytes of a cache hold, or `None` where the bytes
/// are no cache.
pub open spec fn cache_entries(b: Seq<u8>) -> Option<Seq<StrategyDataView>> {
    match dec_u64(b, 0) {
        Some((mark, p)) => if mark == MAGIC {
            match dec_u64(b, p) {
                Some((n, q)) => match dec_entry_items(b, q, n as nat, Seq::<StrategyDataView>::empty()) {
                    Some((s, _)) => Some(s),
                    None => None,
                },
                None => None,
            }
        } else {
            None
        },
        None => None,
    }
}

/// What was written is read back: the bytes of a cache hold the entries
/// that they were made of, each as it was and in the same order.
pub proof fn lemma_cache_round_trip(s: Seq<StrategyDataView>)
    requires
        entries_fit(s),
    ensures
        cache_entries(cache_bytes(s)) == Some(s),
{
    let b = cache_bytes(s);
    assert(b.subrange(0, b.len() as int) =~= b);
    lemma_holds_split(b, 0, enc_u64(MAGIC), enc_u64(s.len() as u64) + enc_entry_items(s));
    lemma_u64_round_trip(b, 0, MAGIC);
    lemma_holds_split(b, 8, enc_u64(s.len() as u64), enc_entry_items(s));
    lemma_u64_round_trip(b, 8, s.len() as u64);
    lemma_entry_items_round_trip(b, 16, s, Seq::<StrategyDataView>::empty());
    assert(Seq::<StrategyDataView>::empty() + s =~= s);
}

/// Writes a side as its number.
fn side_to_tag(side: Side) -> (r: u64)
    ensures
        r == side_tag(side),
{
    match side {
        Side::Buy => 0,
        Side::Sell => 1,
    }
}

/// Reads a side from its number.
fn side_from_tag(tag: u64) -> (r: Option<Side>)
    ensures
        r == tag_side(tag),
{
    if tag == 0 {
        Some(Side::Buy)
    } else if tag == 1 {
        Some(Side::Sell)
    } else {
        None
    }
}

/// Writes a cause as its number.
fn cause_to_tag(cause: FailureCause) -> (r: u64)
    ensures
        r == cause_tag(cause),
{
    match cause {
        FailureCause::Timeout => 0,
        FailureCause::ConnectionReset => 1,
        FailureCause::ServerError => 2,
        FailureCause::RateLimited => 3,
        FailureCause::AuthRejected => 4,
        FailureCause::MissingCredentials => 5,
        FailureCause::Rejected => 6,
    }
}

/// Reads a cause from its number.
fn cause_from_tag(tag: u64) -> (r: Option<FailureCause>)
    ensures
        r == tag_cause(tag),
{
    if tag == 0 {
        Some(FailureCause::Timeout)
    } else if tag == 1 {
        Some(FailureCause::ConnectionReset)
    } else if tag == 2 {
        Some(FailureCause::ServerError)
    } else if tag == 3 {
        Some(FailureCause::RateLimited)
    } else if tag == 4 {
        Some(FailureCause::AuthRejected)
    } else if tag == 5 {
        Some(FailureCause::MissingCredentials)
    } else if tag == 6 {
        Some(FailureCause::Rejected)
    } else {
        None
    }
}

/// Appends the bytes of a position.
fn put_position(out: &mut Vec<u8>, p: &Position)
    ensures
        final(out)@ == old(out)@ + enc_position(p@),
        text_fits(p@.symbol),
{
    put_text(out, p.symbol.as_str());
    put_i64(out, p.quantity);
    put_i64(out, p.market_value);
    put_i64(out, p.unrealized_pl);
    put_i64(out, p.unrealized_plpc);
    assert(out@ =~= old(out)@ + enc_position(p@));
}

/// Appends the bytes of a trade.
fn put_trade(out: &mut Vec<u8>, t: &Trade)
    ensures
        final(out)@ == old(out)@ + enc_trade(t@),
        text_fits(t@.symbol),
        text_fits(t@.strategy),
{
    put_i64(out, t.timestamp);
    put_text(out, t.symbol.as_str());
    put_u64(out, side_to_tag(t.side));
    put_i64(out, t.quantity);
    put_i64(out, t.price);
    put_text(out, t.strategy.as_str());
    assert(out@ =~= old(out)@ + enc_trade(t@));
}

/// Appends the bytes of a mark of staleness.
fn put_stale(out: &mut Vec<u8>, stale: Option<StaleMarker>)
    ensures
        final(out)@ == old(out)@ + enc_stale(stale),
{
    match stale {
        None => {
            put_u64(out, 0);
        },
        Some(m) => {
            put_u64(out, 1);
            put_i64(out, m.since);
            put_u64(out, cause_to_tag(m.cause));
            assert(out@ =~= old(out)@ + enc_stale(stale));
        },
    }
}

/// Appends the bytes of a list of positions.
fn put_positions(out: &mut Vec<u8>, ps: &Vec<Position>)
    ensures
        final(out)@ == old(out)@ + enc_positions(position_views(ps@)),
        positions_fit(position_views(ps@)),
{
    let ghost start = out@;
    let ghost all = position_views(ps@);
    put_u64(out, ps.len() as u64);
    let mut i: usize = 0;
    proof {
        assert(all.take(0) =~= Seq::<PositionView>::empty());
        assert(out@ =~= start + (enc_u64(all.len() as u64) + enc_position_items(all.take(0))));
    }
    while i < ps.len()
        invariant
            i <= ps.len(),
            all == position_views(ps@),
            out@ == start + (enc_u64(all.len() as u64) + enc_position_items(all.take(i as int))),
            forall|k: int| 0 <= k < i ==> text_fits((#[trigger] all[k]).symbol),
        decreases ps.len() - i,
    {
        put_position(out, &ps[i]);
        proof {
            lemma_position_items_push(all.take(i as int), all[i as int]);
            assert(all.take(i + 1) =~= all.take(i as int).push(all[i as int]));
            assert(out@ =~= start + (enc_u64(all.len() as u64) + enc_position_items(all.take(i + 1))));
        }
        i = i + 1;
    }
    proof {
        assert(all.take(ps.len() as int) =~= all);
    }
}

/// Appends the bytes of a list of trades.
fn put_trades(out: &mut Vec<u8>, ts: &Vec<Trade>)
    ensures
        final(out)@ == old(out)@ + enc_trades(trade_views(ts@)),
        trades_fit(trade_views(ts@)),
{
    let ghost start = out@;
    let ghost all = trade_views(ts@);
    put_u64(out, ts.len() as u64);
    let mut i: usize = 0;
    proof {
        assert(all.take(0) =~= Seq::<TradeView>::empty());
        assert(out@ =~= start + (enc_u64(all.len() as u64) + enc_trade_items(all.take(0))));
    }
    while i < ts.len()
        invariant
            i <= ts.len(),
            all == trade_views(ts@),
            out@ == start + (enc_u64(all.len() as u64) + enc_trade_items(all.take(i as int))),
            forall|k: int|
                0 <= k < i ==> text_fits((#[trigger] all[k]).symbol) && text_fits(all[k].strategy),
        decreases ts.len() - i,
    {
        put_trade(out, &ts[i]);
        proof {
            lemma_trade_items_push(all.take(i as int), all[i as int]);
            assert(all.take(i + 1) =~= all.take(i as int).push(all[i as int]));
            assert(out@ =~= start + (enc_u64(all.len() as u64) + enc_trade_items(all.take(i + 1))));
        }
        i = i + 1;
    }
    proof {
        assert(all.take(ts.len() as int) =~= all);
    }
}

/// Joining three runs of bytes gives the same whichever two are joined
/// first.
proof fn lemma_join(a: Seq<u8>, b: Seq<u8>, c: Seq<u8>)
    ensures
        (a + b) + c == a + (b + c),
{
    assert((a + b) + c =~= a + (b + c));
}

/// The bytes of the state of a strategy.
fn data_bytes(d: &StrategyData) -> (out: Vec<u8>)
    ensures
        out@ == enc_data(d@),
        data_fits(d@),
{
    let ghost v = d@;
    let ghost r9 = enc_trades(v.recent_trades);
    let ghost r8 = enc_positions(v.positions) + r9;
    let ghost r7 = enc_stale(v.stale) + r8;
    let ghost r6 = enc_i64(v.last_updated) + r7;
    let ghost r5 = enc_u64(v.day_trades_remaining as u64) + r6;
    let ghost r4 = enc_u64(v.day_trades_used as u64) + r5;
    let ghost r3 = enc_i64(v.cash) + r4;
    let ghost r2 = enc_i64(v.buying_power) + r3;
    let ghost r1 = enc_i64(v.portfolio_value) + r2;
    let mut out: Vec<u8> = Vec::new();
    put_text(&mut out, d.name.as_str());
    let ghost o1 = out@;
    assert(o1 =~= enc_text(v.name));
    put_i64(&mut out, d.portfolio_value);
    let ghost o2 = out@;
    put_i64(&mut out, d.buying_power);
    let ghost o3 = out@;
    put_i64(&mut out, d.cash);
    let ghost o4 = out@;
    put_u64(&mut out, d.day_trades_used as u64);
    let ghost o5 = out@;
    put_u64(&mut out, d.day_trades_remaining as u64);
    let ghost o6 = out@;
    put_i64(&mut out, d.last_updated);
    let ghost o7 = out@;
    put_stale(&mut out, d.stale);
    let ghost o8 = out@;
    put_positions(&mut out, &d.positions);
    let ghost o9 = out@;
    put_trades(&mut out, &d.recent_trades);
    proof {
        lemma_join(o8, enc_positions(v.positions), r9);
        lemma_join(o7, enc_stale(v.stale), r8);
        lemma_join(o6, enc_i64(v.last_updated), r7);
        lemma_join(o5, enc_u64(v.day_trades_remaining as u64), r6);
        lemma_join(o4, enc_u64(v.day_trades_used as u64), r5);
        lemma_join(o3, enc_i64(v.cash), r4);
        lemma_join(o2, enc_i64(v.buying_power), r3);
        lemma_join(o1, enc_i64(v.portfolio_value), r2);
        assert(out@ == o9 + r9);
        assert(o9 + r9 == o8 + r8);
        assert(o8 + r8 == o7 + r7);
        assert(o7 + r7 == o6 + r6);
        assert(o6 + r6 == o5 + r5);
        assert(o5 + r5 == o4 + r4);
        assert(o4 + r4 == o3 + r3);
        assert(o3 + r3 == o2 + r2);
        assert(o2 + r2 == o1 + r1);
        assert(enc_data(v) == enc_text(v.name) + r1);
    }
    let n: usize = out.len();
    assert(enc_data(d@).len() == n);
    out
}

/// Appends the bytes of an entry.
fn put_entry(out: &mut Vec<u8>, d: &StrategyData)
    ensures
        final(out)@ == old(out)@ + enc_entry(d@),
        data_fits(d@),
{
    let mut body = data_bytes(d);
    put_u64(out, body.len() as u64);
    out.append(&mut body);
    assert(out@ =~= old(out)@ + enc_entry(d@));
}

/// Writes the entries of a store as the bytes of a cache. What is written
/// is read back by [`decode_cache`] as it was.
pub fn encode_cache(entries: &Vec<StrategyData>) -> (out: Vec<u8>)
    ensures
        out@ == cache_bytes(data_views(entries@)),
        entries_fit(data_views(entries@)),
        cache_entries(out@) == Some(data_views(entries@)),
{
    let ghost all = data_views(entries@);
    let mut out: Vec<u8> = Vec::new();
    put_u64(&mut out, MAGIC);
    put_u64(&mut out, entries.len() as u64);
    let mut i: usize = 0;
    proof {
        assert(all.take(0) =~= Seq::<StrategyDataView>::empty());
        assert(out@ =~= enc_u64(MAGIC) + (enc_u64(all.len() as u64) + enc_entry_items(all.take(0))));
    }
    while i < entries.len()
        invariant
            i <= entries.len(),
            all == data_views(entries@),
            out@ == enc_u64(MAGIC) + (enc_u64(all.len() as u64) + enc_entry_items(all.take(i as int))),
            forall|k: int| 0 <= k < i ==> data_fits(#[trigger] all[k]),
        decreases entries.len() - i,
    {
        put_entry(&mut out, &entries[i]);
        proof {
            lemma_entry_items_push(all.take(i as int), all[i as int]);
            assert(all.take(i + 1) =~= all.take(i as int).push(all[i as int]));
            assert(out@ =~= enc_u64(MAGIC) + (enc_u64(all.len() as u64) + enc_entry_items(
                all.take(i + 1),
            )));
        }
        i = i + 1;
    }
    proof {
        assert(all.take(entries.len() as int) =~= all);
        lemma_cache_round_trip(all);
    }
    out
}

/// Reads the position at `pos`.
fn get_position(b: &[u8], pos: usize) -> (r: Option<(Position, usize)>)
    ensures
        match r {
            Some((v, p)) => dec_position(b@, pos as int) == Some((v@, p as int)),
            None => dec_position(b@, pos as int) is None,
        },
{
    let (symbol, k1) = match get_text(b, pos) {
        Some(r) => r,
        None => {
            return None;
        },
    };
    let (quantity, k2) = match get_i64(b, k1) {
        Some(r) => r,
        None => {
            return None;
        },
    };
    let (market_value, k3) = match get_i64(b, k2) {
        Some(r) => r,
        None => {
            return None;
        },
    };
    let (unrealized_pl, k4) = match get_i64(b, k3) {
        Some(r) => r,
        None => {
            return None;
        },
    };
    let (unrealized_plpc, k5) = match get_i64(b, k4) {
        Some(r) => r,
        None => {
            return None;
        },
    };
    Some((Position { symbol, quantity, market_value, unrealized_pl, unrealized_plpc }, k5))
}

/// Reads the trade at `pos`.
fn get_trade(b: &[u8], pos: usize) -> (r: Option<(Trade, usize)>)
    ensures
        match r {
            Some((v, p)) => dec_trade(b@, pos as int) == Some((v@, p as int)),
            None => dec_trade(b@, pos as int) is None,
        },
{
    let (timestamp, k1) = match get_i64(b, pos) {
        Some(r) => r,
        None => {
            return None;
        },
    };
    let (symbol, k2) = match get_text(b, k1) {
        Some(r) => r,
        None => {
            return None;
        },
    };
    let (tag, k3) = match get_u64(b, k2) {
        Some(r) => r,
        None => {
            return None;
        },
    };
    let (quantity, k4) = match get_i64(b, k3) {
        Some(r) => r,
        None => {
            return None;
        },
    };
    let (price, k5) = match get_i64(b, k4) {
        Some(r) => r,
        None => {
            return None;
        },
    };
    let (strategy, k6) = match get_text(b, k5) {
        Some(r) => r,
        None => {
            return None;
        },
    };
    let side = match side_from_tag(tag) {
        Some(s) => s,
        None => {
            return None;
        },
    };
    Some((Trade { timestamp, symbol, side, quantity, price, strategy }, k6))
}

/// Reads the mark of staleness at `pos`.
fn get_stale(b: &[u8], pos: usize) -> (r: Option<(Option<StaleMarker>, usize)>)
    ensures
        match r {
            Some((v, p)) => dec_stale(b@, pos as int) == Some((v, p as int)),
            None => dec_stale(b@, pos as int) is None,
        },
{
    let (tag, k1) = match get_u64(b, pos) {
        Some(r) => r,
        None => {
            return None;
        },
    };
    if tag == 0 {
        return Some((None, k1));
    }
    if tag != 1 {
        return None;
    }
    let (since, k2) = match get_i64(b, k1) {
        Some(r) => r,
        None => {
            return None;
        },
    };
    let (c, k3) = match get_u64(b, k2) {
        Some(r) => r,
        None => {
            return None;
        },
    };
    match cause_from_tag(c) {
        Some(cause) => Some((Some(StaleMarker { since, cause }), k3)),
        None => None,
    }
}

/// Reads the list of positions at `pos`.
fn get_positions(b: &[u8], pos: usize) -> (r: Option<(Vec<Position>, usize)>)
    ensures
        match r {
            Some((v, p)) => dec_positions(b@, pos as int) == Some((position_views(v@), p as int)),
            None => dec_positions(b@, pos as int) is None,
        },
{
    let (count, start) = match get_u64(b, pos) {
        Some(r) => r,
        None => {
            return None;
        },
    };
    let mut out: Vec<Position> = Vec::new();
    let mut at: usize = start;
    let mut left: u64 = count;
    assert(position_views(out@) =~= Seq::<PositionView>::empty());
    while left > 0
        invariant
            dec_positions(b@, pos as int) == dec_position_items(
                b@,
                at as int,
                left as nat,
                position_views(out@),
            ),
        decreases left,
    {
        match get_position(b, at) {
            Some((p, next)) => {
                let ghost before = position_views(out@);
                out.push(p);
                assert(position_views(out@) =~= before.push(p@));
                at = next;
                left = left - 1;
            },
            None => {
                return None;
            },
        }
    }
    Some((out, at))
}

/// Reads the list of trades at `pos`.
fn get_trades(b: &[u8], pos: usize) -> (r: Option<(Vec<Trade>, usize)>)
    ensures
        match r {
            Some((v, p)) => dec_trades(b@, pos as int) == Some((trade_views(v@), p as int)),
            None => dec_trades(b@, pos as int) is None,
        },
{
    let (count, start) = match get_u64(b, pos) {
        Some(r) => r,
        None => {
            return None;
        },
    };
    let mut out: Vec<Trade> = Vec::new();
    let mut at: usize = start;
    let mut left: u64 = count;
    assert(trade_views(out@) =~= Seq::<TradeView>::empty());
    while left > 0
        invariant
            dec_trades(b@, pos as int) == dec_trade_items(b@, at as int, left as nat, trade_views(out@)),
        decreases left,
    {
        match get_trade(b, at) {
            Some((t, next)) => {
                let ghost before = trade_views(out@);
                out.push(t);
                assert(trade_views(out@) =~= before.push(t@));
                at = next;
                left = left - 1;
            },
            None => {
                return None;
            },
        }
    }
    Some((out, at))
}

/// Reads the signed number at `k`, or takes `missing` where the bytes end
/// at `k`.
fn get_i64_or(b: &[u8], k: usize, missing: i64) -> (r: Option<(i64, usize)>)
    ensures
        match r {
            Some((v, p)) => dec_i64_or(b@, k as int, missing) == Some((v, p as int)),
            None => dec_i64_or(b@, k as int, missing) is None,
        },
{
    if k == b.len() {
        Some((missing, k))
    } else {
        get_i64(b, k)
    }
}

/// Reads the number at `k`, or takes `missing` where the bytes end at `k`.
fn get_u64_or(b: &[u8], k: usize, missing: u64) -> (r: Option<(u64, usize)>)
    ensures
        match r {
            Some((v, p)) => dec_u64_or(b@, k as int, missing) == Some((v, p as int)),
            None => dec_u64_or(b@, k as int, missing) is None,
        },
{
    if k == b.len() {
        Some((missing, k))
    } else {
        get_u64(b, k)
    }
}

/// Reads the state at `pos`.
fn get_data(b: &[u8], pos: usize) -> (r: Option<(StrategyData, usize)>)
    ensures
        match r {
            Some((v, p)) => dec_data(b@, pos as int) == Some((v@, p as int)),
            None => dec_data(b@, pos as int) is None,
        },
{
    let (name, k1) = match get_text(b, pos) {
        Some(r) => r,
        None => {
            return None;
        },
    };
    let (portfolio_value, k2) = match get_i64_or(b, k1, 0) {
        Some(r) => r,
        None => {
            return None;
        },
    };
    let (buying_power, k3) = match get_i64_or(b, k2, 0) {
        Some(r) => r,
        None => {
            return None;
        },
    };
    let (cash, k4) = match get_i64_or(b, k3, 0) {
        Some(r) => r,
        None => {
            return None;
        },
    };
    let (used, k5) = match get_u64_or(b, k4, 0) {
        Some(r) => r,
        None => {
            return None;
        },
    };
    let left: u64 = if used <= u32::MAX as u64 {
        day_trades_left(used as u32) as u64
    } else {
        0
    };
    let (remaining, k6) = match get_u64_or(b, k5, left) {
        Some(r) => r,
        None => {
            return None;
        },
    };
    let (last_updated, k7) = match get_i64_or(b, k6, 0) {
        Some(r) => r,
        None => {
            return None;
        },
    };
    let (stale, k8) = if k7 == b.len() {
        (None, k7)
    } else {
        match get_stale(b, k7) {
            Some(r) => r,
            None => {
                return None;
            },
        }
    };
    let (positions, k9) = if k8 == b.len() {
        let none: Vec<Position> = Vec::new();
        assert(position_views(none@) =~= Seq::<PositionView>::empty());
        (none, k8)
    } else {
        match get_positions(b, k8) {
            Some(r) => r,
            None => {
                return None;
            },
        }
    };
    let (recent_trades, k10) = if k9 == b.len() {
        let none: Vec<Trade> = Vec::new();
        assert(trade_views(none@) =~= Seq::<TradeView>::empty());
        (none, k9)
    } else {
        match get_trades(b, k9) {
            Some(r) => r,
            None => {
                return None;
            },
        }
    };
    if used > u32::MAX as u64 || remaining > u32::MAX as u64 {
        return None;
    }
    Some(
        (
            StrategyData {
                name,
                portfolio_value,
                buying_power,
                cash,
                day_trades_used: used as u32,
                day_trades_remaining: remaining as u32,
                positions,
                recent_trades,
                last_updated,
                stale,
            },
            k10,
        ),
    )
}

/// Reads the entry at `pos`.
fn get_entry(b: &[u8], pos: usize) -> (r: Option<(StrategyData, usize)>)
    ensures
        match r {
            Some((v, p)) => dec_entry(b@, pos as int) == Some((v@, p as int)),
            None => dec_entry(b@, pos as int) is None,
        },
{
    let (n, p) = match get_u64(b, pos) {
        Some(r) => r,
        None => {
            return None;
        },
    };
    if n > (b.len() - p) as u64 {
        return None;
    }
    let end = p + n as usize;
    let body = slice_subrange(b, p, end);
    match get_data(body, 0) {
        Some((d, _)) => Some((d, end)),
        None => None,
    }
}

/// Reads the entries that the bytes of a cache hold. Returns `None` where
/// the bytes are no cache: where they do not begin with the mark, end
/// before the last entry does, or hold what is no text, side or cause.
pub fn decode_cache(b: &[u8]) -> (r: Option<Vec<StrategyData>>)
    ensures
        match r {
            Some(v) => cache_entries(b@) == Some(data_views(v@)),
            None => cache_entries(b@) is None,
        },
{
    let (mark, p) = match get_u64(b, 0) {
        Some(r) => r,
        None => {
            return None;
        },
    };
    if mark != MAGIC {
        return None;
    }
    let (count, start) = match get_u64(b, p) {
        Some(r) => r,
        None => {
            return None;
        },
    };
    let mut out: Vec<StrategyData> = Vec::new();
    let mut at: usize = start;
    let mut left: u64 = count;
    assert(data_views(out@) =~= Seq::<StrategyDataView>::empty());
    while left > 0
        invariant
            cache_entries(b@) == match dec_entry_items(b@, at as int, left as nat, data_views(out@)) {
                Some((s, _)) => Some(s),
                None => None,
            },
        decreases left,
    {
        match get_entry(b, at) {
            Some((d, next)) => {
                let ghost before = data_views(out@);
                out.push(d);
                assert(data_views(out@) =~= before.push(d@));
                at = next;
                left = left - 1;
            },
            None => {
                return None;
            },
        }
    }
    Some(out)
}

} // verus!
