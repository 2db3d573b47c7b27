//! The open positions of a strategy, one for each symbol.

use vstd::prelude::*;
use crate::data::{distinct_symbols, position_views, Position, PositionView};
use crate::keyed::{find_key, lemma_find_key, lemma_find_key_absent, lemma_find_key_at};

verus! {

/// The symbols of a sequence of positions.
pub open spec fn symbols(ps: Seq<PositionView>) -> Seq<Seq<char>> {
    ps.map_values(|p: PositionView| p.symbol)
}

/// The positions `acc` once `p` is known: `p` stands where `acc` had a
/// position for its symbol, or at the end where it had none.
pub open spec fn put_position(acc: Seq<PositionView>, p: PositionView) -> Seq<PositionView> {
    match find_key(symbols(acc), p.symbol) {
        Some(i) => acc.update(i, p),
        None => acc.push(p),
    }
}

/// The positions that a report `ps` amounts to: for each symbol the last
/// position reported for it, in the order in which the symbols first occur.
pub open spec fn keyed_positions(ps: Seq<PositionView>) -> Seq<PositionView>
    decreases ps.len(),
{
    if ps.len() == 0 {
        Seq::<PositionView>::empty()
    } else {
        put_position(keyed_positions(ps.drop_last()), ps.last())
    }
}

/// Adding a position keeps the symbols distinct.
pub proof fn lemma_put_position_distinct(acc: Seq<PositionView>, p: PositionView)
    requires
        distinct_symbols(acc),
    ensures
        distinct_symbols(put_position(acc, p)),
{
    let keys = symbols(acc);
    lemma_find_key(keys, p.symbol);
    let r = put_position(acc, p);
    match find_key(keys, p.symbol) {
        Some(i) => {
            assert(keys[i] == acc[i].symbol);
            assert forall|a: int, b: int| 0 <= a < b < r.len() implies (#[trigger] r[a]).symbol != (
            #[trigger] r[b]).symbol by {
                assert(acc[a].symbol != acc[b].symbol);
            }
        },
        None => {
            assert forall|a: int, b: int| 0 <= a < b < r.len() implies (#[trigger] r[a]).symbol != (
            #[trigger] r[b]).symbol by {
                if b == acc.len() {
                    assert(keys[a] == acc[a].symbol);
                } else {
                    assert(acc[a].symbol != acc[b].symbol);
                }
            }
        },
    }
}

/// No symbol has two positions in what a report amounts to.
pub proof fn lemma_keyed_positions_distinct(ps: Seq<PositionView>)
    ensures
        distinct_symbols(keyed_positions(ps)),
    decreases ps.len(),
{
    if ps.len() > 0 {
        lemma_keyed_positions_distinct(ps.drop_last());
        lemma_put_position_distinct(keyed_positions(ps.drop_last()), ps.last());
    }
}

/// A report in which no symbol occurs twice amounts to itself.
pub proof fn lemma_keyed_positions_of_distinct(ps: Seq<PositionView>)
    requires
        distinct_symbols(ps),
    ensures
        keyed_positions(ps) == ps,
    decreases ps.len(),
{
    if ps.len() > 0 {
        let front = ps.drop_last();
        assert forall|a: int, b: int| 0 <= a < b < front.len() implies (#[trigger] front[a]).symbol != (
        #[trigger] front[b]).symbol by {
            assert(ps[a].symbol != ps[b].symbol);
        }
        lemma_keyed_positions_of_distinct(front);
        let keys = symbols(front);
        assert forall|j: int| 0 <= j < keys.len() implies #[trigger] keys[j] != ps.last().symbol by {
            assert(ps[j].symbol != ps[ps.len() - 1].symbol);
        }
        lemma_find_key_absent(keys, ps.last().symbol);
        assert(front.push(ps.last()) =~= ps);
    }
}

/// Finds the position for `symbol` in `acc`.
pub fn find_position(acc: &Vec<Position>, symbol: &String) -> (r: Option<usize>)
    ensures
        match r {
            Some(i) => i < acc.len() && find_key(symbols(position_views(acc@)), symbol@) == Some(
                i as int,
            ),
            None => find_key(symbols(position_views(acc@)), symbol@) is None,
        },
{
    let ghost keys = symbols(position_views(acc@));
    let mut i: usize = 0;
    while i < acc.len()
        invariant
            i <= acc.len(),
            keys == symbols(position_views(acc@)),
            forall|j: int| 0 <= j < i ==> #[trigger] keys[j] != symbol@,
        decreases acc.len() - i,
    {
        if acc[i].symbol == *symbol {
            proof {
                assert(keys[i as int] == symbol@);
                lemma_find_key_at(keys, symbol@, i as int);
            }
            return Some(i);
        }
        i = i + 1;
    }
    proof {
        lemma_find_key_absent(keys, symbol@);
    }
    None
}

/// Brings a report of positions to one position for each symbol.
pub fn key_positions(report: Vec<Position>) -> (r: Vec<Position>)
    ensures
        position_views(r@) == keyed_positions(position_views(report@)),
        distinct_symbols(position_views(r@)),
{
    let ghost ps = position_views(report@);
    let mut r: Vec<Position> = Vec::new();
    let mut i: usize = 0;
    proof {
        assert(ps.take(0) =~= Seq::<PositionView>::empty());
        assert(position_views(r@) =~= Seq::<PositionView>::empty());
    }
    while i < report.len()
        invariant
            i <= report.len(),
            ps == position_views(report@),
            position_views(r@) == keyed_positions(ps.take(i as int)),
        decreases report.len() - i,
    {
        let p = report[i].clone();
        let ghost acc = position_views(r@);
        proof {
            let t = ps.take(i + 1);
            assert(t.drop_last() =~= ps.take(i as int));
            assert(t.last() == p@);
        }
        match find_position(&r, &p.symbol) {
            Some(k) => {
                r.set(k, p);
                assert(position_views(r@) =~= acc.update(k as int, p@));
            },
            None => {
                r.push(p);
                assert(position_views(r@) =~= acc.push(p@));
            },
        }
        i = i + 1;
    }
    proof {
        assert(ps.take(report.len() as int) =~= ps);
        lemma_keyed_positions_distinct(ps);
    }
    r
}

} // verus!
