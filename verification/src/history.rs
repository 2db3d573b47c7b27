//! The bounded history of recent trades of one strategy.
//!
//! The history is kept in the order of the trades' instants, holds no event
//! twice, and gives up its oldest entries when it grows beyond its limit.

use vstd::prelude::*;
use crate::data::{distinct_events, ordered_by_time, same_event, trade_views, Trade, TradeView};

verus! {

/// Whether `h` holds an entry that is the same event as `t`.
pub open spec fn contains_event(h: Seq<TradeView>, t: TradeView) -> bool {
    exists|i: int| 0 <= i < h.len() && same_event(#[trigger] h[i], t)
}

/// Where a trade made at `ts` enters `h`: behind the last entry that is
/// not later than `ts`.
pub open spec fn insertion_point(h: Seq<TradeView>, ts: i64) -> int
    decreases h.len(),
{
    if h.len() > 0 && h.last().timestamp > ts {
        insertion_point(h.drop_last(), ts)
    } else {
        h.len() as int
    }
}

/// The last `cap` entries of `h`, or all of `h` where it has no more.
pub open spec fn keep_latest(h: Seq<TradeView>, cap: int) -> Seq<TradeView> {
    if h.len() > cap && cap >= 0 {
        h.skip(h.len() - cap)
    } else {
        h
    }
}

/// The history after the trade `t` was offered to `h` under the limit `cap`:
/// unchanged where `h` holds the event already; otherwise `t` enters at its
/// place in time and the oldest entries beyond `cap` leave.
pub open spec fn record(h: Seq<TradeView>, t: TradeView, cap: int) -> Seq<TradeView> {
    if contains_event(h, t) {
        h
    } else {
        keep_latest(h.insert(insertion_point(h, t.timestamp), t), cap)
    }
}

/// The insertion point lies within the history, every entry from it on is
/// later than `ts`, and the entry before it, if any, is not.
pub proof fn lemma_insertion_point(h: Seq<TradeView>, ts: i64)
    ensures
        0 <= insertion_point(h, ts) <= h.len(),
        forall|i: int| insertion_point(h, ts) <= i < h.len() ==> (#[trigger] h[i]).timestamp > ts,
        insertion_point(h, ts) > 0 ==> h[insertion_point(h, ts) - 1].timestamp <= ts,
    decreases h.len(),
{
    if h.len() > 0 && h.last().timestamp > ts {
        let g = h.drop_last();
        lemma_insertion_point(g, ts);
        assert forall|i: int| insertion_point(h, ts) <= i < h.len() implies (#[trigger] h[i]).timestamp
            > ts by {
            if i < g.len() {
                assert(h[i] == g[i]);
            }
        }
    }
}

/// In an ordered history every entry before the insertion point is not
/// later than `ts`.
pub proof fn lemma_insertion_point_ordered(h: Seq<TradeView>, ts: i64)
    requires
        ordered_by_time(h),
    ensures
        forall|i: int| 0 <= i < insertion_point(h, ts) ==> (#[trigger] h[i]).timestamp <= ts,
{
    lemma_insertion_point(h, ts);
    let p = insertion_point(h, ts);
    assert forall|i: int| 0 <= i < p implies (#[trigger] h[i]).timestamp <= ts by {
        assert(h[i].timestamp <= h[p - 1].timestamp);
    }
}

/// A place that separates the entries not later than `ts` from the later
/// ones is the insertion point.
pub proof fn lemma_insertion_point_unique(h: Seq<TradeView>, ts: i64, p: int)
    requires
        0 <= p <= h.len(),
        forall|i: int| p <= i < h.len() ==> (#[trigger] h[i]).timestamp > ts,
        p > 0 ==> h[p - 1].timestamp <= ts,
    ensures
        insertion_point(h, ts) == p,
    decreases h.len(),
{
    if p < h.len() {
        assert(h.last() == h[h.len() - 1]);
        let g = h.drop_last();
        assert forall|i: int| p <= i < g.len() implies (#[trigger] g[i]).timestamp > ts by {
            assert(g[i] == h[i]);
        }
        if p > 0 {
            assert(g[p - 1] == h[p - 1]);
        }
        lemma_insertion_point_unique(g, ts, p);
    } else if p > 0 {
        assert(h.last() == h[p - 1]);
    }
}

/// Offering a trade keeps an ordered history ordered.
pub proof fn lemma_record_keeps_order(h: Seq<TradeView>, t: TradeView, cap: int)
    requires
        ordered_by_time(h),
    ensures
        ordered_by_time(record(h, t, cap)),
{
    if !contains_event(h, t) {
        let p = insertion_point(h, t.timestamp);
        lemma_insertion_point(h, t.timestamp);
        lemma_insertion_point_ordered(h, t.timestamp);
        let g = h.insert(p, t);
        assert forall|i: int, j: int| 0 <= i <= j < g.len() implies (#[trigger] g[i]).timestamp <= (
        #[trigger] g[j]).timestamp by {
            lemma_insert_index(h, p, t, i);
            lemma_insert_index(h, p, t, j);
        }
        let r = keep_latest(g, cap);
        if g.len() > cap && cap >= 0 {
            let d = g.len() - cap;
            assert forall|i: int, j: int| 0 <= i <= j < r.len() implies (#[trigger] r[i]).timestamp
                <= (#[trigger] r[j]).timestamp by {
                assert(r[i] == g[i + d]);
                assert(r[j] == g[j + d]);
            }
        }
    }
}

/// What stands at each place after an insertion.
pub proof fn lemma_insert_index(h: Seq<TradeView>, p: int, t: TradeView, i: int)
    requires
        0 <= p <= h.len(),
        0 <= i <= h.len(),
    ensures
        h.insert(p, t).len() == h.len() + 1,
        i < p ==> h.insert(p, t)[i] == h[i],
        i == p ==> h.insert(p, t)[i] == t,
        i > p ==> h.insert(p, t)[i] == h[i - 1],
{
}

/// Offering a trade keeps a history without duplicates free of them.
pub proof fn lemma_record_keeps_distinct(h: Seq<TradeView>, t: TradeView, cap: int)
    requires
        distinct_events(h),
    ensures
        distinct_events(record(h, t, cap)),
{
    if !contains_event(h, t) {
        let p = insertion_point(h, t.timestamp);
        lemma_insertion_point(h, t.timestamp);
        let g = h.insert(p, t);
        assert forall|i: int, j: int| 0 <= i < j < g.len() implies !same_event(
            #[trigger] g[i],
            #[trigger] g[j],
        ) by {
            lemma_insert_index(h, p, t, i);
            lemma_insert_index(h, p, t, j);
            if i == p {
                assert(!same_event(h[j - 1], t));
            } else if j == p {
                assert(!same_event(h[i], t));
            }
        }
        let r = keep_latest(g, cap);
        if g.len() > cap && cap >= 0 {
            let d = g.len() - cap;
            assert forall|i: int, j: int| 0 <= i < j < r.len() implies !same_event(
                #[trigger] r[i],
                #[trigger] r[j],
            ) by {
                assert(r[i] == g[i + d]);
                assert(r[j] == g[j + d]);
            }
        }
    }
}

/// A history within its limit stays within it; no offer makes a history
/// longer than the greater of its length and the limit.
pub proof fn lemma_record_len(h: Seq<TradeView>, t: TradeView, cap: int)
    requires
        cap >= 0,
    ensures
        h.len() <= cap ==> record(h, t, cap).len() <= cap,
        record(h, t, cap).len() <= h.len() || record(h, t, cap).len() <= cap,
{
    lemma_insertion_point(h, t.timestamp);
}

/// Offering the same trade a second time changes nothing: an ordered
/// history is the same after one offer and after two.
pub proof fn lemma_record_twice(h: Seq<TradeView>, t: TradeView, cap: int)
    requires
        ordered_by_time(h),
        cap >= 0,
    ensures
        record(record(h, t, cap), t, cap) == record(h, t, cap),
{
    if !contains_event(h, t) {
        let p = insertion_point(h, t.timestamp);
        lemma_insertion_point(h, t.timestamp);
        let g = h.insert(p, t);
        let r = keep_latest(g, cap);
        lemma_insert_index(h, p, t, p);
        if g.len() > cap {
            let d = g.len() - cap;
            if p >= d {
                assert(r[p - d] == g[p]);
                assert(same_event(r[p - d], t));
            } else {
                // The trade left at once; every entry that stayed is later.
                assert forall|i: int| 0 <= i < r.len() implies (#[trigger] r[i]).timestamp
                    > t.timestamp by {
                    assert(r[i] == g[i + d]);
                    lemma_insert_index(h, p, t, i + d);
                    assert(g[i + d] == h[i + d - 1]);
                }
                assert(!contains_event(r, t)) by {
                    if contains_event(r, t) {
                        let i = choose|i: int| 0 <= i < r.len() && same_event(#[trigger] r[i], t);
                        assert(r[i].timestamp > t.timestamp);
                    }
                }
                lemma_insertion_point_unique(r, t.timestamp, 0);
                let g2 = r.insert(0, t);
                assert(r.len() == cap);
                assert(keep_latest(g2, cap) =~= r);
            }
        } else {
            assert(r[p] == g[p]);
            assert(same_event(r[p], t));
        }
    }
}

/// Tells whether `history` holds the event `trade`.
pub fn holds_event(history: &Vec<Trade>, trade: &Trade) -> (r: bool)
    ensures
        r == contains_event(trade_views(history@), trade@),
{
    let ghost h = trade_views(history@);
    let mut i: usize = 0;
    while i < history.len()
        invariant
            i <= history.len(),
            h == trade_views(history@),
            forall|j: int| 0 <= j < i ==> !same_event(#[trigger] h[j], trade@),
        decreases history.len() - i,
    {
        if history[i].same_event(trade) {
            assert(same_event(h[i as int], trade@));
            return true;
        }
        i = i + 1;
    }
    false
}

/// Finds where a trade made at `ts` enters `history`.
pub fn find_insertion_point(history: &Vec<Trade>, ts: i64) -> (p: usize)
    ensures
        p == insertion_point(trade_views(history@), ts),
        p <= history.len(),
{
    let ghost h = trade_views(history@);
    let mut p: usize = history.len();
    proof {
        assert(h.take(p as int) =~= h);
    }
    while p > 0 && history[p - 1].timestamp > ts
        invariant
            p <= history.len(),
            h == trade_views(history@),
            insertion_point(h, ts) == insertion_point(h.take(p as int), ts),
        decreases p,
    {
        proof {
            let g = h.take(p as int);
            assert(g.last() == h[p - 1]);
            assert(g.drop_last() =~= h.take(p - 1));
        }
        p = p - 1;
    }
    proof {
        let g = h.take(p as int);
        if p > 0 {
            assert(g.last() == h[p - 1]);
        }
    }
    p
}

/// Offers `trade` to `history` under the limit `cap`.
///
/// Returns whether the event was new to the history. A new trade enters at
/// its place in time; then the oldest entries beyond `cap` leave, which may
/// be the new trade itself.
pub fn record_trade(history: &mut Vec<Trade>, trade: Trade, cap: usize) -> (fresh: bool)
    ensures
        trade_views(final(history)@) == record(trade_views(old(history)@), trade@, cap as int),
        fresh == !contains_event(trade_views(old(history)@), trade@),
{
    if holds_event(history, &trade) {
        return false;
    }
    let ghost h = trade_views(history@);
    let ghost t = trade@;
    let p = find_insertion_point(history, trade.timestamp);
    history.insert(p, trade);
    let ghost g = h.insert(p as int, t);
    assert(trade_views(history@) =~= g);
    assert(g.len() == history.len());
    let mut dropped: usize = 0;
    while history.len() > cap
        invariant
            dropped + history.len() == g.len(),
            g.len() <= usize::MAX,
            dropped > 0 ==> history.len() >= cap,
            trade_views(history@) == g.skip(dropped as int),
        decreases history.len(),
    {
        let ghost before = trade_views(history@);
        history.remove(0);
        assert(trade_views(history@) =~= before.skip(1));
        assert(before.skip(1) =~= g.skip(dropped + 1));
        dropped = dropped + 1;
    }
    proof {
        if dropped == 0 {
            assert(g.skip(0) =~= g);
        }
    }
    true
}

} // verus!
