//! Reading one line of a strategy's log.
//!
//! Most lines are noise. A trade line has seven fields, one space between
//! each two:
//!
//! ```text
//! 2024-01-15T14:30:00Z TRADE buy 10 AAPL @ 185.50
//! ```
//!
//! the instant in RFC 3339, the word `TRADE`, the side, the quantity, the
//! symbol, an `@`, and the price.

use vstd::prelude::*;
use vstd::string::*;
use vstd::utf8::is_ascii_chars;
use crate::data::{Side, Trade, TradeView};
use crate::decimal::{decimal_micros, parse_decimal};

verus! {

/// The fields of `s` between the separators `sep`. There is one field more
/// than there are separators; a field may be empty.
pub open spec fn split(s: Seq<char>, sep: char) -> Seq<Seq<char>>
    decreases s.len(),
{
    if s.len() == 0 {
        seq![Seq::<char>::empty()]
    } else {
        let p = split(s.drop_last(), sep);
        if s.last() == sep {
            p.push(Seq::<char>::empty())
        } else {
            p.update(p.len() - 1, p.last().push(s.last()))
        }
    }
}

/// The field of a trade line that failed validation.
#[derive(Clone, Copy, Debug, PartialEq, Eq, Structural)]
pub enum ParseFault {
    /// The instant is not in RFC 3339.
    Timestamp,
    /// The side is neither `buy` nor `sell`.
    Side,
    /// The quantity is no decimal numeral.
    Quantity,
    /// The symbol is empty.
    Symbol,
    /// The price is no decimal numeral.
    Price,
}

/// What one line of a log turned out to be.
#[derive(Debug, PartialEq, Eq)]
pub enum LineEvent {
    /// A trade, fully validated.
    Trade(Trade),
    /// Anything that does not have the shape of a trade line.
    NotTrade,
    /// A line in the shape of a trade line with a field that is not valid.
    ParseError(ParseFault),
}

/// What a [`LineEvent`] holds, as mathematical values.
pub enum LineEventView {
    Trade(TradeView),
    NotTrade,
    ParseError(ParseFault),
}

impl View for LineEvent {
    type V = LineEventView;

    open spec fn view(&self) -> LineEventView {
        match self {
            LineEvent::Trade(t) => LineEventView::Trade(t@),
            LineEvent::NotTrade => LineEventView::NotTrade,
            LineEvent::ParseError(f) => LineEventView::ParseError(*f),
        }
    }
}

/// The side that the text `s` names.
pub open spec fn side_of(s: Seq<char>) -> Option<Side> {
    if s == "buy"@ {
        Some(Side::Buy)
    } else if s == "sell"@ {
        Some(Side::Sell)
    } else {
        None
    }
}

/// Whether `line` has the shape of a trade line: ASCII text of seven
/// fields, the second `TRADE` and the sixth `@`.
pub open spec fn is_trade_shaped(line: Seq<char>) -> bool {
    let f = split(line, ' ');
    &&& is_ascii_chars(line)
    &&& f.len() == 7
    &&& f[1] == "TRADE"@
    &&& f[5] == "@"@
}

/// The text of the instant of a trade-shaped line.
pub open spec fn timestamp_field(line: Seq<char>) -> Seq<char> {
    split(line, ' ')[0]
}

/// What `line` is, where `instant` is what its first field reads as.
///
/// The fields are validated from left to right and the first fault is the
/// one reported.
pub open spec fn line_event(line: Seq<char>, strategy: Seq<char>, instant: Option<i64>) -> LineEventView {
    let f = split(line, ' ');
    if !is_trade_shaped(line) {
        LineEventView::NotTrade
    } else if instant is None {
        LineEventView::ParseError(ParseFault::Timestamp)
    } else if side_of(f[2]) is None {
        LineEventView::ParseError(ParseFault::Side)
    } else if decimal_micros(f[3]) is None {
        LineEventView::ParseError(ParseFault::Quantity)
    } else if f[4].len() == 0 {
        LineEventView::ParseError(ParseFault::Symbol)
    } else if decimal_micros(f[6]) is None {
        LineEventView::ParseError(ParseFault::Price)
    } else {
        LineEventView::Trade(
            TradeView {
                timestamp: instant.unwrap(),
                symbol: f[4],
                side: side_of(f[2]).unwrap(),
                quantity: decimal_micros(f[3]).unwrap() as i64,
                price: decimal_micros(f[6]).unwrap() as i64,
                strategy,
            },
        )
    }
}

/// The instant that `text` denotes in RFC 3339, in milliseconds since the
/// Unix epoch, or `None` where `text` is not in that format.
pub uninterp spec fn rfc3339_millis(text: Seq<char>) -> Option<i64>;

/// Reads an instant in RFC 3339.
///
/// Calls `chrono::DateTime::parse_from_rfc3339` and, on success, takes the
/// instant's `timestamp_millis`. The contract is taken on trust: the result
/// depends on the text alone, so it is named [`rfc3339_millis`]; nothing
/// more is claimed of it.
#[verifier::external_body]
fn read_rfc3339(text: &str) -> (r: Option<i64>)
    ensures
        r == rfc3339_millis(text@),
{
    match chrono::DateTime::parse_from_rfc3339(text) {
        Ok(instant) => Some(instant.timestamp_millis()),
        Err(_) => None,
    }
}

/// Finds the fields of an ASCII line: for each, where it starts and ends.
fn field_bounds(line: &str) -> (bounds: Vec<(usize, usize)>)
    requires
        is_ascii_chars(line@),
    ensures
        bounds@.len() == split(line@, ' ').len(),
        forall|k: int|
            0 <= k < bounds@.len() ==> {
                &&& (#[trigger] bounds@[k]).0 <= bounds@[k].1 <= line@.len()
                &&& split(line@, ' ')[k] == line@.subrange(bounds@[k].0 as int, bounds@[k].1 as int)
            },
{
    broadcast use is_ascii_spec_bytes;

    let b = line.as_bytes();
    let n = b.len();
    assert(is_ascii(line));
    assert(n == line@.len());
    assert(forall|j: int| 0 <= j < n ==> b@[j] == (#[trigger] line@[j]) as u8);
    let mut bounds: Vec<(usize, usize)> = Vec::new();
    let mut start: usize = 0;
    let mut i: usize = 0;
    proof {
        assert(line@.take(0) =~= Seq::<char>::empty());
        assert(line@.subrange(0, 0) =~= Seq::<char>::empty());
    }
    while i < n
        invariant
            start <= i <= n,
            n == line@.len(),
            n == b@.len(),
            is_ascii_chars(line@),
            forall|j: int| 0 <= j < n ==> b@[j] == (#[trigger] line@[j]) as u8,
            split(line@.take(i as int), ' ').len() == bounds@.len() + 1,
            split(line@.take(i as int), ' ').last() == line@.subrange(start as int, i as int),
            forall|k: int|
                0 <= k < bounds@.len() ==> {
                    &&& (#[trigger] bounds@[k]).0 <= bounds@[k].1 <= i
                    &&& split(line@.take(i as int), ' ')[k] == line@.subrange(
                        bounds@[k].0 as int,
                        bounds@[k].1 as int,
                    )
                },
        decreases n - i,
    {
        let ghost prev = split(line@.take(i as int), ' ');
        let ghost old_bounds = bounds@;
        proof {
            let t = line@.take(i + 1);
            assert(t.drop_last() =~= line@.take(i as int));
            assert(t.last() == line@[i as int]);
        }
        if b[i] == 0x20 {
            assert(line@[i as int] == ' ');
            bounds.push((start, i));
            start = i + 1;
            proof {
                let next = split(line@.take(i + 1), ' ');
                assert(next == prev.push(Seq::<char>::empty()));
                assert(line@.subrange(i + 1, i + 1) =~= Seq::<char>::empty());
                assert forall|k: int| 0 <= k < bounds@.len() implies {
                    &&& (#[trigger] bounds@[k]).0 <= bounds@[k].1 <= i + 1
                    &&& next[k] == line@.subrange(bounds@[k].0 as int, bounds@[k].1 as int)
                } by {
                    if k < old_bounds.len() {
                        assert(bounds@[k] == old_bounds[k]);
                        assert(next[k] == prev[k]);
                    }
                }
            }
        } else {
            assert(line@[i as int] != ' ');
            proof {
                let next = split(line@.take(i + 1), ' ');
                assert(next == prev.update(prev.len() - 1, prev.last().push(line@[i as int])));
                assert(line@.subrange(start as int, i + 1) =~= line@.subrange(
                    start as int,
                    i as int,
                ).push(line@[i as int]));
                assert forall|k: int| 0 <= k < bounds@.len() implies {
                    &&& (#[trigger] bounds@[k]).0 <= bounds@[k].1 <= i + 1
                    &&& next[k] == line@.subrange(bounds@[k].0 as int, bounds@[k].1 as int)
                } by {
                    assert(next[k] == prev[k]);
                }
            }
        }
        i = i + 1;
    }
    proof {
        assert(line@.take(n as int) =~= line@);
    }
    let ghost closed = bounds@;
    bounds.push((start, n));
    proof {
        let f = split(line@, ' ');
        assert forall|k: int| 0 <= k < bounds@.len() implies {
            &&& (#[trigger] bounds@[k]).0 <= bounds@[k].1 <= line@.len()
            &&& f[k] == line@.subrange(bounds@[k].0 as int, bounds@[k].1 as int)
        } by {
            if k < closed.len() {
                assert(bounds@[k] == closed[k]);
            } else {
                assert(f[k] == f.last());
            }
        }
    }
    bounds
}

/// The text of one field.
fn field<'a>(line: &'a str, bounds: &Vec<(usize, usize)>, k: usize) -> (r: &'a str)
    requires
        is_ascii_chars(line@),
        k < bounds@.len(),
        bounds@[k as int].0 <= bounds@[k as int].1 <= line@.len(),
    ensures
        r@ == line@.subrange(bounds@[k as int].0 as int, bounds@[k as int].1 as int),
{
    let (from, to) = bounds[k];
    line.substring_ascii(from, to)
}

/// Tells whether a field is exactly `word`.
fn field_is(text: &str, word: &str) -> (r: bool)
    ensures
        r == (text@ == word@),
{
    let a = text.to_owned();
    let b = word.to_owned();
    a == b
}

/// Reads the side of a trade.
pub fn parse_side(text: &str) -> (r: Option<Side>)
    ensures
        r == side_of(text@),
{
    if field_is(text, "buy") {
        Some(Side::Buy)
    } else if field_is(text, "sell") {
        Some(Side::Sell)
    } else {
        None
    }
}

/// Finds the fields of `line` where it has the shape of a trade line.
fn trade_fields(line: &str) -> (r: Option<Vec<(usize, usize)>>)
    ensures
        r is Some <==> is_trade_shaped(line@),
        r matches Some(bounds) ==> {
            &&& bounds@.len() == 7
            &&& forall|k: int|
                0 <= k < 7 ==> {
                    &&& (#[trigger] bounds@[k]).0 <= bounds@[k].1 <= line@.len()
                    &&& split(line@, ' ')[k] == line@.subrange(
                        bounds@[k].0 as int,
                        bounds@[k].1 as int,
                    )
                }
        },
{
    if !line.is_ascii() {
        return None;
    }
    let bounds = field_bounds(line);
    if bounds.len() != 7 {
        return None;
    }
    if !field_is(field(line, &bounds, 1), "TRADE") {
        return None;
    }
    if !field_is(field(line, &bounds, 5), "@") {
        return None;
    }
    Some(bounds)
}

/// Validates the fields of a trade-shaped line.
fn build_event(line: &str, bounds: &Vec<(usize, usize)>, strategy: &str, instant: Option<i64>) -> (r:
    LineEvent)
    requires
        is_trade_shaped(line@),
        bounds@.len() == 7,
        forall|k: int|
            0 <= k < 7 ==> {
                &&& (#[trigger] bounds@[k]).0 <= bounds@[k].1 <= line@.len()
                &&& split(line@, ' ')[k] == line@.subrange(bounds@[k].0 as int, bounds@[k].1 as int)
            },
    ensures
        r@ == line_event(line@, strategy@, instant),
{
    let timestamp = match instant {
        Some(t) => t,
        None => {
            return LineEvent::ParseError(ParseFault::Timestamp);
        },
    };
    let side = match parse_side(field(line, bounds, 2)) {
        Some(s) => s,
        None => {
            return LineEvent::ParseError(ParseFault::Side);
        },
    };
    let quantity = match parse_decimal(field(line, bounds, 3)) {
        Some(q) => q,
        None => {
            return LineEvent::ParseError(ParseFault::Quantity);
        },
    };
    let symbol = field(line, bounds, 4);
    if bounds[4].0 == bounds[4].1 {
        return LineEvent::ParseError(ParseFault::Symbol);
    }
    let price = match parse_decimal(field(line, bounds, 6)) {
        Some(p) => p,
        None => {
            return LineEvent::ParseError(ParseFault::Price);
        },
    };
    LineEvent::Trade(
        Trade {
            timestamp,
            symbol: symbol.to_owned(),
            side,
            quantity,
            price,
            strategy: strategy.to_owned(),
        },
    )
}

/// Classifies `line`, given what its first field reads as an instant.
///
/// This is the whole of the line's validation but for the reading of the
/// instant, which the caller supplies.
pub fn classify_line(line: &str, strategy: &str, instant: Option<i64>) -> (r: LineEvent)
    ensures
        r@ == line_event(line@, strategy@, instant),
{
    match trade_fields(line) {
        Some(bounds) => build_event(line, &bounds, strategy, instant),
        None => LineEvent::NotTrade,
    }
}

/// Reads one line of the log of `strategy`.
///
/// A line that is not in the shape of a trade line is [`LineEvent::NotTrade`];
/// one in that shape is a trade where every field is valid and a
/// [`LineEvent::ParseError`] that names the first invalid field otherwise.
pub fn parse_line(line: &str, strategy: &str) -> (r: LineEvent)
    ensures
        r@ == line_event(line@, strategy@, rfc3339_millis(timestamp_field(line@))),
{
    match trade_fields(line) {
        Some(bounds) => {
            let instant = read_rfc3339(field(line, &bounds, 0));
            build_event(line, &bounds, strategy, instant)
        },
        None => LineEvent::NotTrade,
    }
}

/// The views of a sequence of line events.
pub open spec fn event_views(s: Seq<LineEvent>) -> Seq<LineEventView> {
    s.map_values(|e: LineEvent| e@)
}

/// The texts of a sequence of lines.
pub open spec fn line_texts(s: Seq<String>) -> Seq<Seq<char>> {
    s.map_values(|l: String| l@)
}

/// What `line` is in the log of `strategy`.
pub open spec fn parsed_line(line: Seq<char>, strategy: Seq<char>) -> LineEventView {
    line_event(line, strategy, rfc3339_millis(timestamp_field(line)))
}

/// What each of `lines` is in the log of `strategy`, one for one.
pub open spec fn parsed_lines(lines: Seq<Seq<char>>, strategy: Seq<char>) -> Seq<LineEventView> {
    lines.map_values(|l: Seq<char>| parsed_line(l, strategy))
}

/// Reads the lines of the log of `strategy`, one event for each line. A
/// line with a fault becomes a [`LineEvent::ParseError`] and the lines after
/// it are read all the same.
pub fn parse_lines(lines: &Vec<String>, strategy: &str) -> (r: Vec<LineEvent>)
    ensures
        event_views(r@) == parsed_lines(line_texts(lines@), strategy@),
{
    let ghost texts = line_texts(lines@);
    let mut r: Vec<LineEvent> = Vec::new();
    let mut i: usize = 0;
    assert(event_views(r@) =~= parsed_lines(texts.take(0), strategy@));
    while i < lines.len()
        invariant
            i <= lines.len(),
            texts == line_texts(lines@),
            event_views(r@) == parsed_lines(texts.take(i as int), strategy@),
        decreases lines.len() - i,
    {
        let e = parse_line(lines[i].as_str(), strategy);
        let ghost before = event_views(r@);
        r.push(e);
        proof {
            assert(event_views(r@) =~= before.push(e@));
            assert(parsed_lines(texts.take(i + 1), strategy@) =~= before.push(e@));
        }
        i = i + 1;
    }
    proof {
        assert(texts.take(lines.len() as int) =~= texts);
    }
    r
}

} // verus!
