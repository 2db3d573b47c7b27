//! The canonical per-strategy state and the records it is made of.
//!
//! Amounts are whole numbers of millionths (see [`crate::decimal`]) and
//! instants are milliseconds since the Unix epoch.

use vstd::prelude::*;

verus! {

/// The number of day trades allowed in the rolling window.
pub const PDT_LIMIT: u32 = 3;

/// The day trades still allowed once `used` have been made.
pub open spec fn remaining_day_trades(used: u32) -> u32 {
    if used >= 3 {
        0u32
    } else {
        (3 - used) as u32
    }
}

/// Computes the day trades still allowed once `used` have been made.
pub fn day_trades_left(used: u32) -> (r: u32)
    ensures
        r == remaining_day_trades(used),
{
    if used >= PDT_LIMIT {
        0
    } else {
        PDT_LIMIT - used
    }
}

/// The direction of a trade.
#[derive(Clone, Copy, Debug, PartialEq, Eq, Structural)]
pub enum Side {
    Buy,
    Sell,
}

/// Why a fetch did not deliver a snapshot.
#[derive(Clone, Copy, Debug, PartialEq, Eq, Structural)]
pub enum FailureCause {
    /// No answer within the configured time.
    Timeout,
    /// The connection was closed before an answer came.
    ConnectionReset,
    /// The brokerage answered with a 5xx status.
    ServerError,
    /// The brokerage refused the request for its rate (status 429).
    RateLimited,
    /// The credentials were refused (status 401 or 403).
    AuthRejected,
    /// No credentials are configured for the strategy.
    MissingCredentials,
    /// Any other refusal, which a retry would not mend.
    Rejected,
}

/// Marks state that the latest tick could not refresh.
#[derive(Clone, Copy, Debug, PartialEq, Eq, Structural)]
pub struct StaleMarker {
    /// When the first failed refresh since the last good one happened.
    pub since: i64,
    /// Why the latest refresh failed.
    pub cause: FailureCause,
}

/// One open position as the brokerage reports it.
#[derive(Debug, PartialEq, Eq)]
pub struct Position {
    pub symbol: String,
    pub quantity: i64,
    pub market_value: i64,
    pub unrealized_pl: i64,
    pub unrealized_plpc: i64,
}

/// What a [`Position`] holds, with its text as a sequence of characters.
pub struct PositionView {
    pub symbol: Seq<char>,
    pub quantity: i64,
    pub market_value: i64,
    pub unrealized_pl: i64,
    pub unrealized_plpc: i64,
}

impl View for Position {
    type V = PositionView;

    open spec fn view(&self) -> PositionView {
        PositionView {
            symbol: self.symbol@,
            quantity: self.quantity,
            market_value: self.market_value,
            unrealized_pl: self.unrealized_pl,
            unrealized_plpc: self.unrealized_plpc,
        }
    }
}

impl Clone for Position {
    fn clone(&self) -> (r: Self)
        ensures
            r == *self,
    {
        Position {
            symbol: self.symbol.clone(),
            quantity: self.quantity,
            market_value: self.market_value,
            unrealized_pl: self.unrealized_pl,
            unrealized_plpc: self.unrealized_plpc,
        }
    }
}

/// One executed trade, read from a strategy's log.
#[derive(Debug, PartialEq, Eq)]
pub struct Trade {
    pub timestamp: i64,
    pub symbol: String,
    pub side: Side,
    pub quantity: i64,
    pub price: i64,
    pub strategy: String,
}

/// What a [`Trade`] holds, with its text as sequences of characters.
pub struct TradeView {
    pub timestamp: i64,
    pub symbol: Seq<char>,
    pub side: Side,
    pub quantity: i64,
    pub price: i64,
    pub strategy: Seq<char>,
}

impl View for Trade {
    type V = TradeView;

    open spec fn view(&self) -> TradeView {
        TradeView {
            timestamp: self.timestamp,
            symbol: self.symbol@,
            side: self.side,
            quantity: self.quantity,
            price: self.price,
            strategy: self.strategy@,
        }
    }
}

impl Clone for Trade {
    fn clone(&self) -> (r: Self)
        ensures
            r == *self,
    {
        Trade {
            timestamp: self.timestamp,
            symbol: self.symbol.clone(),
            side: self.side,
            quantity: self.quantity,
            price: self.price,
            strategy: self.strategy.clone(),
        }
    }
}

/// Whether two trades are one event: the same instant, symbol, side,
/// quantity and price.
pub open spec fn same_event(a: TradeView, b: TradeView) -> bool {
    &&& a.timestamp == b.timestamp
    &&& a.symbol == b.symbol
    &&& a.side == b.side
    &&& a.quantity == b.quantity
    &&& a.price == b.price
}

impl Trade {
    /// Tells whether `self` and `other` are one event.
    pub fn same_event(&self, other: &Trade) -> (r: bool)
        ensures
            r == same_event(self@, other@),
    {
        self.timestamp == other.timestamp && self.symbol == other.symbol && self.side == other.side
            && self.quantity == other.quantity && self.price == other.price
    }
}

/// The account figures of one successful fetch.
#[derive(Clone, Copy, Debug, PartialEq, Eq, Structural)]
pub struct AccountSnapshot {
    pub portfolio_value: i64,
    pub buying_power: i64,
    pub cash: i64,
    pub day_trades_used: u32,
    pub as_of: i64,
}

/// The views of a sequence of positions.
pub open spec fn position_views(s: Seq<Position>) -> Seq<PositionView> {
    s.map_values(|p: Position| p@)
}

/// The views of a sequence of trades.
pub open spec fn trade_views(s: Seq<Trade>) -> Seq<TradeView> {
    s.map_values(|t: Trade| t@)
}

/// A copy of a list of positions.
pub fn copy_positions(v: &Vec<Position>) -> (r: Vec<Position>)
    ensures
        r@ == v@,
{
    let mut r: Vec<Position> = Vec::new();
    let mut i: usize = 0;
    while i < v.len()
        invariant
            i <= v.len(),
            r@ == v@.take(i as int),
        decreases v.len() - i,
    {
        r.push(v[i].clone());
        assert(v@.take(i + 1) =~= v@.take(i as int).push(v@[i as int]));
        i = i + 1;
    }
    assert(v@.take(v.len() as int) =~= v@);
    r
}

/// A copy of a list of trades.
pub fn copy_trades(v: &Vec<Trade>) -> (r: Vec<Trade>)
    ensures
        r@ == v@,
{
    let mut r: Vec<Trade> = Vec::new();
    let mut i: usize = 0;
    while i < v.len()
        invariant
            i <= v.len(),
            r@ == v@.take(i as int),
        decreases v.len() - i,
    {
        r.push(v[i].clone());
        assert(v@.take(i + 1) =~= v@.take(i as int).push(v@[i as int]));
        i = i + 1;
    }
    assert(v@.take(v.len() as int) =~= v@);
    r
}

/// Everything known of one strategy.
#[derive(Debug, PartialEq, Eq)]
pub struct StrategyData {
    pub name: String,
    pub portfolio_value: i64,
    pub buying_power: i64,
    pub cash: i64,
    pub day_trades_used: u32,
    pub day_trades_remaining: u32,
    pub positions: Vec<Position>,
    pub recent_trades: Vec<Trade>,
    pub last_updated: i64,
    pub stale: Option<StaleMarker>,
}

/// What a [`StrategyData`] holds, as mathematical values.
pub struct StrategyDataView {
    pub name: Seq<char>,
    pub portfolio_value: i64,
    pub buying_power: i64,
    pub cash: i64,
    pub day_trades_used: u32,
    pub day_trades_remaining: u32,
    pub positions: Seq<PositionView>,
    pub recent_trades: Seq<TradeView>,
    pub last_updated: i64,
    pub stale: Option<StaleMarker>,
}

impl View for StrategyData {
    type V = StrategyDataView;

    open spec fn view(&self) -> StrategyDataView {
        StrategyDataView {
            name: self.name@,
            portfolio_value: self.portfolio_value,
            buying_power: self.buying_power,
            cash: self.cash,
            day_trades_used: self.day_trades_used,
            day_trades_remaining: self.day_trades_remaining,
            positions: position_views(self.positions@),
            recent_trades: trade_views(self.recent_trades@),
            last_updated: self.last_updated,
            stale: self.stale,
        }
    }
}

/// Whether no two entries of `h` are one event.
pub open spec fn distinct_events(h: Seq<TradeView>) -> bool {
    forall|i: int, j: int| 0 <= i < j < h.len() ==> !same_event(#[trigger] h[i], #[trigger] h[j])
}

/// Whether the entries of `h` are in the order of their instants.
pub open spec fn ordered_by_time(h: Seq<TradeView>) -> bool {
    forall|i: int, j: int|
        0 <= i <= j < h.len() ==> (#[trigger] h[i]).timestamp <= (#[trigger] h[j]).timestamp
}

/// Whether no two entries of `ps` have the same symbol.
pub open spec fn distinct_symbols(ps: Seq<PositionView>) -> bool {
    forall|i: int, j: int|
        0 <= i < j < ps.len() ==> (#[trigger] ps[i]).symbol != (#[trigger] ps[j]).symbol
}

impl StrategyDataView {
    /// The state that a strategy has before anything is known of it.
    pub open spec fn blank(name: Seq<char>) -> StrategyDataView {
        StrategyDataView {
            name,
            portfolio_value: 0,
            buying_power: 0,
            cash: 0,
            day_trades_used: 0,
            day_trades_remaining: 3,
            positions: Seq::empty(),
            recent_trades: Seq::empty(),
            last_updated: 0,
            stale: None,
        }
    }

    /// The invariants of the canonical state: the day trades left follow
    /// from those used, the trade history is in time order and free of
    /// duplicates, and no symbol has two positions.
    pub open spec fn wf(self) -> bool {
        &&& self.day_trades_remaining == remaining_day_trades(self.day_trades_used)
        &&& ordered_by_time(self.recent_trades)
        &&& distinct_events(self.recent_trades)
        &&& distinct_symbols(self.positions)
    }
}

impl StrategyData {
    /// The state of a strategy of which nothing is known yet.
    pub fn new(name: String) -> (r: StrategyData)
        ensures
            r@ == StrategyDataView::blank(name@),
            r@.wf(),
    {
        let r = StrategyData {
            name,
            portfolio_value: 0,
            buying_power: 0,
            cash: 0,
            day_trades_used: 0,
            day_trades_remaining: PDT_LIMIT,
            positions: Vec::new(),
            recent_trades: Vec::new(),
            last_updated: 0,
            stale: None,
        };
        assert(r@.positions =~= Seq::empty());
        assert(r@.recent_trades =~= Seq::empty());
        r
    }
}

impl Clone for StrategyData {
    fn clone(&self) -> (r: Self)
        ensures
            r@ == self@,
    {
        let positions = copy_positions(&self.positions);
        let recent_trades = copy_trades(&self.recent_trades);
        StrategyData {
            name: self.name.clone(),
            portfolio_value: self.portfolio_value,
            buying_power: self.buying_power,
            cash: self.cash,
            day_trades_used: self.day_trades_used,
            day_trades_remaining: self.day_trades_remaining,
            positions,
            recent_trades,
            last_updated: self.last_updated,
            stale: self.stale,
        }
    }
}

/// Tells whether the trades are in the order of their instants.
pub fn is_ordered_by_time(history: &Vec<Trade>) -> (r: bool)
    ensures
        r == ordered_by_time(trade_views(history@)),
{
    let ghost h = trade_views(history@);
    if history.len() < 2 {
        return true;
    }
    let mut i: usize = 1;
    while i < history.len()
        invariant
            1 <= i <= history.len(),
            h == trade_views(history@),
            forall|a: int, b: int| 0 <= a <= b < i ==> (#[trigger] h[a]).timestamp <= (#[trigger] h[b]).timestamp,
        decreases history.len() - i,
    {
        if history[i - 1].timestamp > history[i].timestamp {
            assert(h[i - 1].timestamp > h[i as int].timestamp);
            return false;
        }
        proof {
            assert forall|a: int, b: int| 0 <= a <= b < i + 1 implies (#[trigger] h[a]).timestamp <= (
            #[trigger] h[b]).timestamp by {
                if b == i && a < i {
                    assert(h[a].timestamp <= h[i - 1].timestamp);
                }
            }
        }
        i = i + 1;
    }
    true
}

/// Tells whether no two of the trades are one event.
pub fn has_distinct_events(history: &Vec<Trade>) -> (r: bool)
    ensures
        r == distinct_events(trade_views(history@)),
{
    let ghost h = trade_views(history@);
    let mut j: usize = 0;
    while j < history.len()
        invariant
            j <= history.len(),
            h == trade_views(history@),
            forall|a: int, b: int| 0 <= a < b < j ==> !same_event(#[trigger] h[a], #[trigger] h[b]),
        decreases history.len() - j,
    {
        let mut i: usize = 0;
        while i < j
            invariant
                i <= j < history.len(),
                h == trade_views(history@),
                forall|a: int| 0 <= a < i ==> !same_event(#[trigger] h[a], h[j as int]),
            decreases j - i,
        {
            if history[i].same_event(&history[j]) {
                assert(same_event(h[i as int], h[j as int]));
                return false;
            }
            i = i + 1;
        }
        j = j + 1;
    }
    true
}

/// Tells whether no two of the positions have the same symbol.
pub fn has_distinct_symbols(positions: &Vec<Position>) -> (r: bool)
    ensures
        r == distinct_symbols(position_views(positions@)),
{
    let ghost ps = position_views(positions@);
    let mut j: usize = 0;
    while j < positions.len()
        invariant
            j <= positions.len(),
            ps == position_views(positions@),
            forall|a: int, b: int| 0 <= a < b < j ==> (#[trigger] ps[a]).symbol != (#[trigger] ps[b]).symbol,
        decreases positions.len() - j,
    {
        let mut i: usize = 0;
        while i < j
            invariant
                i <= j < positions.len(),
                ps == position_views(positions@),
                forall|a: int| 0 <= a < i ==> (#[trigger] ps[a]).symbol != ps[j as int].symbol,
            decreases j - i,
        {
            if positions[i].symbol == positions[j].symbol {
                assert(ps[i as int].symbol == ps[j as int].symbol);
                return false;
            }
            i = i + 1;
        }
        j = j + 1;
    }
    true
}

impl StrategyData {
    /// Tells whether the state keeps its invariants: see
    /// [`StrategyDataView::wf`].
    pub fn is_valid(&self) -> (r: bool)
        ensures
            r == self@.wf(),
    {
        self.day_trades_remaining == day_trades_left(self.day_trades_used) && is_ordered_by_time(
            &self.recent_trades,
        ) && has_distinct_events(&self.recent_trades) && has_distinct_symbols(&self.positions)
    }
}

} // verus!
