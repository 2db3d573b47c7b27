//! The rules of fetching an account snapshot: which failures are tried
//! again and how often, and how the brokerage's text becomes numbers.

use vstd::prelude::*;
use crate::api::{AccountInfo, PositionInfo};
use crate::data::{position_views, AccountSnapshot, FailureCause, Position, PositionView};
use crate::decimal::{decimal_micros, parse_decimal};

verus! {

/// How one attempt to fetch failed.
#[derive(Clone, Copy, Debug, PartialEq, Eq, Structural)]
pub enum AttemptError {
    /// No answer within the configured time.
    Timeout,
    /// The connection was closed before an answer came.
    ConnectionReset,
    /// The brokerage answered with this HTTP status.
    Status(u16),
    /// The brokerage answered with what could not be read.
    Malformed,
}

/// The cause that a failed attempt is filed under.
pub open spec fn cause_of(e: AttemptError) -> FailureCause {
    match e {
        AttemptError::Timeout => FailureCause::Timeout,
        AttemptError::ConnectionReset => FailureCause::ConnectionReset,
        AttemptError::Malformed => FailureCause::Rejected,
        AttemptError::Status(s) => if s == 401 || s == 403 {
            FailureCause::AuthRejected
        } else if s == 429 {
            FailureCause::RateLimited
        } else if 500 <= s <= 599 {
            FailureCause::ServerError
        } else {
            FailureCause::Rejected
        },
    }
}

/// Whether a failure may pass by itself: a timeout, a closed connection or
/// a server error.
pub open spec fn is_transient(c: FailureCause) -> bool {
    c == FailureCause::Timeout || c == FailureCause::ConnectionReset || c == FailureCause::ServerError
}

/// Whether a failure disables fetching until an operator mends the
/// credentials.
pub open spec fn is_fatal(c: FailureCause) -> bool {
    c == FailureCause::AuthRejected || c == FailureCause::MissingCredentials
}

/// What to do after a failed attempt.
#[derive(Clone, Copy, Debug, PartialEq, Eq, Structural)]
pub enum FetchStep {
    /// Try again.
    Retry,
    /// Stop; the fetch has failed for this cause.
    GiveUp(FailureCause),
}

/// What to do after the attempt number `attempts_made` failed with `e`,
/// where `retry_attempts` retries are allowed: retry while the failure is
/// transient and retries are left.
pub open spec fn step_after(attempts_made: u32, retry_attempts: u32, e: AttemptError) -> FetchStep {
    if is_transient(cause_of(e)) && attempts_made <= retry_attempts {
        FetchStep::Retry
    } else {
        FetchStep::GiveUp(cause_of(e))
    }
}

/// A fetch makes at most one attempt more than the retries allowed, and a
/// refusal of the credentials, of the rate or of the request is never
/// tried again.
pub proof fn lemma_retry_bounds(attempts_made: u32, retry_attempts: u32, e: AttemptError)
    ensures
        step_after(attempts_made, retry_attempts, e) == FetchStep::Retry ==> attempts_made
            <= retry_attempts && is_transient(cause_of(e)),
        !is_transient(cause_of(e)) ==> step_after(attempts_made, retry_attempts, e)
            == FetchStep::GiveUp(cause_of(e)),
        (e == AttemptError::Status(401) || e == AttemptError::Status(403)) ==> step_after(
            attempts_made,
            retry_attempts,
            e,
        ) == FetchStep::GiveUp(FailureCause::AuthRejected),
        attempts_made > retry_attempts ==> step_after(attempts_made, retry_attempts, e)
            == FetchStep::GiveUp(cause_of(e)),
{
}

/// Files a failed attempt under its cause.
pub fn classify(e: AttemptError) -> (r: FailureCause)
    ensures
        r == cause_of(e),
{
    match e {
        AttemptError::Timeout => FailureCause::Timeout,
        AttemptError::ConnectionReset => FailureCause::ConnectionReset,
        AttemptError::Malformed => FailureCause::Rejected,
        AttemptError::Status(s) => if s == 401 || s == 403 {
            FailureCause::AuthRejected
        } else if s == 429 {
            FailureCause::RateLimited
        } else if 500 <= s && s <= 599 {
            FailureCause::ServerError
        } else {
            FailureCause::Rejected
        },
    }
}

/// Tells whether a failure may pass by itself.
pub fn transient(c: FailureCause) -> (r: bool)
    ensures
        r == is_transient(c),
{
    match c {
        FailureCause::Timeout => true,
        FailureCause::ConnectionReset => true,
        FailureCause::ServerError => true,
        _ => false,
    }
}

/// Tells whether a failure disables fetching.
pub fn fatal(c: FailureCause) -> (r: bool)
    ensures
        r == is_fatal(c),
{
    match c {
        FailureCause::AuthRejected => true,
        FailureCause::MissingCredentials => true,
        _ => false,
    }
}

/// Decides what to do after the attempt number `attempts_made` (counted
/// from one) failed with `e`.
pub fn after_failure(attempts_made: u32, retry_attempts: u32, e: AttemptError) -> (r: FetchStep)
    ensures
        r == step_after(attempts_made, retry_attempts, e),
{
    let cause = classify(e);
    if transient(cause) && attempts_made <= retry_attempts {
        FetchStep::Retry
    } else {
        FetchStep::GiveUp(cause)
    }
}

/// The amount that `text` denotes, or zero and a flag where it denotes none.
pub open spec fn amount_or_zero(text: Seq<char>) -> (i64, bool) {
    match decimal_micros(text) {
        Some(v) => (v as i64, false),
        None => (0i64, true),
    }
}

/// Reads an amount, falling back to zero with a flag.
pub fn read_amount(text: &str) -> (r: (i64, bool))
    ensures
        r == amount_or_zero(text@),
{
    match parse_decimal(text) {
        Some(v) => (v, false),
        None => (0, true),
    }
}

/// The day trades that a reported count amounts to: a negative count is
/// zero and flagged.
pub open spec fn day_trades_or_zero(count: i32) -> (u32, bool) {
    if count < 0 {
        (0u32, true)
    } else {
        (count as u32, false)
    }
}

/// Which figures of an account could not be read and were taken as zero.
#[derive(Clone, Copy, Debug, PartialEq, Eq, Structural)]
pub struct AccountQuality {
    pub portfolio_value: bool,
    pub buying_power: bool,
    pub cash: bool,
    pub day_trades: bool,
}

impl AccountQuality {
    /// Whether any figure was taken as zero.
    pub open spec fn flagged(self) -> bool {
        self.portfolio_value || self.buying_power || self.cash || self.day_trades
    }

    /// Tells whether any figure was taken as zero.
    pub fn any(&self) -> (r: bool)
        ensures
            r == self.flagged(),
    {
        self.portfolio_value || self.buying_power || self.cash || self.day_trades
    }
}

/// The snapshot that the reported figures amount to at the instant `now`,
/// with a flag for each figure that was taken as zero.
pub open spec fn snapshot_of(
    portfolio_value: Seq<char>,
    buying_power: Seq<char>,
    cash: Seq<char>,
    daytrade_count: i32,
    now: i64,
) -> (AccountSnapshot, AccountQuality) {
    (
        AccountSnapshot {
            portfolio_value: amount_or_zero(portfolio_value).0,
            buying_power: amount_or_zero(buying_power).0,
            cash: amount_or_zero(cash).0,
            day_trades_used: day_trades_or_zero(daytrade_count).0,
            as_of: now,
        },
        AccountQuality {
            portfolio_value: amount_or_zero(portfolio_value).1,
            buying_power: amount_or_zero(buying_power).1,
            cash: amount_or_zero(cash).1,
            day_trades: day_trades_or_zero(daytrade_count).1,
        },
    )
}

/// Reads a reported account into a snapshot taken at `now`.
///
/// A figure that cannot be read is taken as zero and flagged; the fetch
/// does not fail for it.
pub fn read_account(info: &AccountInfo, now: i64) -> (r: (AccountSnapshot, AccountQuality))
    ensures
        r == snapshot_of(
            info.portfolio_value@,
            info.buying_power@,
            info.cash@,
            info.daytrade_count,
            now,
        ),
{
    let (portfolio_value, f1) = read_amount(info.portfolio_value.as_str());
    let (buying_power, f2) = read_amount(info.buying_power.as_str());
    let (cash, f3) = read_amount(info.cash.as_str());
    let negative = info.daytrade_count < 0;
    let day_trades_used: u32 = if negative {
        0
    } else {
        info.daytrade_count as u32
    };
    (
        AccountSnapshot { portfolio_value, buying_power, cash, day_trades_used, as_of: now },
        AccountQuality { portfolio_value: f1, buying_power: f2, cash: f3, day_trades: negative },
    )
}

/// What a [`PositionInfo`] holds, with its text as sequences of characters.
pub struct PositionInfoView {
    pub symbol: Seq<char>,
    pub qty: Seq<char>,
    pub market_value: Seq<char>,
    pub unrealized_pl: Seq<char>,
    pub unrealized_plpc: Seq<char>,
}

impl View for PositionInfo {
    type V = PositionInfoView;

    open spec fn view(&self) -> PositionInfoView {
        PositionInfoView {
            symbol: self.symbol@,
            qty: self.qty@,
            market_value: self.market_value@,
            unrealized_pl: self.unrealized_pl@,
            unrealized_plpc: self.unrealized_plpc@,
        }
    }
}

/// The views of a sequence of reported positions.
pub open spec fn info_views(s: Seq<PositionInfo>) -> Seq<PositionInfoView> {
    s.map_values(|p: PositionInfo| p@)
}

/// The position that a reported position amounts to.
pub open spec fn position_of(info: PositionInfoView) -> PositionView {
    PositionView {
        symbol: info.symbol,
        quantity: amount_or_zero(info.qty).0,
        market_value: amount_or_zero(info.market_value).0,
        unrealized_pl: amount_or_zero(info.unrealized_pl).0,
        unrealized_plpc: amount_or_zero(info.unrealized_plpc).0,
    }
}

/// Whether a figure of a reported position was taken as zero.
pub open spec fn position_flagged(info: PositionInfoView) -> bool {
    amount_or_zero(info.qty).1 || amount_or_zero(info.market_value).1 || amount_or_zero(
        info.unrealized_pl,
    ).1 || amount_or_zero(info.unrealized_plpc).1
}

/// The positions that reported positions amount to, one for one.
pub open spec fn positions_of(infos: Seq<PositionInfoView>) -> Seq<PositionView> {
    infos.map_values(|i: PositionInfoView| position_of(i))
}

/// How many of the reported positions have a figure that was taken as zero.
pub open spec fn flagged_count(infos: Seq<PositionInfoView>) -> nat
    decreases infos.len(),
{
    if infos.len() == 0 {
        0
    } else {
        flagged_count(infos.drop_last()) + if position_flagged(infos.last()) {
            1nat
        } else {
            0nat
        }
    }
}

/// Reads one reported position; the flag tells whether a figure was taken
/// as zero.
pub fn read_position(info: &PositionInfo) -> (r: (Position, bool))
    ensures
        r.0@ == position_of(info@),
        r.1 == position_flagged(info@),
{
    let (quantity, f1) = read_amount(info.qty.as_str());
    let (market_value, f2) = read_amount(info.market_value.as_str());
    let (unrealized_pl, f3) = read_amount(info.unrealized_pl.as_str());
    let (unrealized_plpc, f4) = read_amount(info.unrealized_plpc.as_str());
    (
        Position { symbol: info.symbol.clone(), quantity, market_value, unrealized_pl, unrealized_plpc },
        f1 || f2 || f3 || f4,
    )
}

/// Reads the reported positions; the number tells how many of them have a
/// figure that was taken as zero.
pub fn read_positions(infos: &Vec<PositionInfo>) -> (r: (Vec<Position>, usize))
    ensures
        position_views(r.0@) == positions_of(info_views(infos@)),
        r.1 == flagged_count(info_views(infos@)),
{
    let ghost all = info_views(infos@);
    let mut out: Vec<Position> = Vec::new();
    let mut flagged: usize = 0;
    let mut i: usize = 0;
    proof {
        assert(all.take(0) =~= Seq::<PositionInfoView>::empty());
        assert(position_views(out@) =~= positions_of(all.take(0)));
    }
    while i < infos.len()
        invariant
            i <= infos.len(),
            all == info_views(infos@),
            position_views(out@) == positions_of(all.take(i as int)),
            flagged == flagged_count(all.take(i as int)),
            flagged <= i,
        decreases infos.len() - i,
    {
        let (p, f) = read_position(&infos[i]);
        proof {
            let t = all.take(i + 1);
            assert(t.drop_last() =~= all.take(i as int));
            assert(t.last() == infos@[i as int]@);
        }
        let ghost before = position_views(out@);
        out.push(p);
        if f {
            flagged = flagged + 1;
        }
        proof {
            assert(position_views(out@) =~= before.push(p@));
            assert(positions_of(all.take(i + 1)) =~= before.push(p@));
        }
        i = i + 1;
    }
    proof {
        assert(all.take(infos.len() as int) =~= all);
    }
    (out, flagged)
}

} // verus!
