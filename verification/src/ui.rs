//! What the dashboard shows, as text, and the state of the dashboard.
//!
//! Drawing is the caller's. This module says which lines stand in the pane
//! of a strategy and which strategies get a pane.

use vstd::prelude::*;
use vstd::string::*;
use crate::data::{StrategyData, StrategyDataView};
use crate::store::{data_views, StrategyStateStore};

verus! {

/// The character of the digit `d`.
pub open spec fn digit_char(d: int) -> char {
    if d == 0 {
        '0'
    } else if d == 1 {
        '1'
    } else if d == 2 {
        '2'
    } else if d == 3 {
        '3'
    } else if d == 4 {
        '4'
    } else if d == 5 {
        '5'
    } else if d == 6 {
        '6'
    } else if d == 7 {
        '7'
    } else if d == 8 {
        '8'
    } else {
        '9'
    }
}

/// The number `n` in decimal digits, without leading zeros.
pub open spec fn decimal_digits(n: nat) -> Seq<char>
    decreases n,
{
    if n < 10 {
        seq![digit_char(n as int)]
    } else {
        decimal_digits(n / 10).push(digit_char((n % 10) as int))
    }
}

/// The amount of `micros` millionths in hundredths, rounded to the nearest
/// and without its sign.
pub open spec fn cents_of(micros: i64) -> int {
    let m = if micros < 0 {
        -(micros as int)
    } else {
        micros as int
    };
    (m + 5000) / 10000
}

/// An amount of money as text: a dollar sign, a minus sign where the
/// amount is negative and does not round to zero, the dollars, a point and
/// two digits of cents.
pub open spec fn money_text(micros: i64) -> Seq<char> {
    let c = cents_of(micros);
    let sign = if micros < 0 && c > 0 {
        seq!['-']
    } else {
        Seq::<char>::empty()
    };
    seq!['$'] + sign + decimal_digits((c / 100) as nat) + seq![
        '.',
        digit_char((c / 10) % 10),
        digit_char(c % 10),
    ]
}

/// The lines of the pane of a strategy: the portfolio value, the buying
/// power, the day trades used of the three allowed, and the number of open
/// positions.
pub open spec fn pane_lines(d: StrategyDataView) -> Seq<Seq<char>> {
    seq![
        money_text(d.portfolio_value),
        "Buying Power: "@ + money_text(d.buying_power),
        "Day Trades: "@ + decimal_digits(d.day_trades_used as nat) + "/3"@,
        "Positions: "@ + decimal_digits(d.positions.len()),
    ]
}

/// The text of one digit.
fn digit_text(d: u64) -> (r: &'static str)
    requires
        d < 10,
    ensures
        r@ == seq![digit_char(d as int)],
{
    proof {
        reveal_strlit("0");
        reveal_strlit("1");
        reveal_strlit("2");
        reveal_strlit("3");
        reveal_strlit("4");
        reveal_strlit("5");
        reveal_strlit("6");
        reveal_strlit("7");
        reveal_strlit("8");
        reveal_strlit("9");
    }
    let r = if d == 0 {
        "0"
    } else if d == 1 {
        "1"
    } else if d == 2 {
        "2"
    } else if d == 3 {
        "3"
    } else if d == 4 {
        "4"
    } else if d == 5 {
        "5"
    } else if d == 6 {
        "6"
    } else if d == 7 {
        "7"
    } else if d == 8 {
        "8"
    } else {
        "9"
    };
    assert(r@ =~= seq![digit_char(d as int)]);
    r
}

/// Appends the decimal digits of `n` to `out`.
pub fn append_number(out: &mut String, n: u64)
    ensures
        final(out)@ == old(out)@ + decimal_digits(n as nat),
    decreases n,
{
    let ghost start = out@;
    if n >= 10 {
        append_number(out, n / 10);
    }
    let ghost mid = out@;
    out.append(digit_text(n % 10));
    proof {
        if n >= 10 {
            assert(out@ =~= start + decimal_digits((n / 10) as nat).push(digit_char((n % 10) as int)));
        } else {
            assert(out@ =~= start + seq![digit_char(n as int)]);
        }
    }
}

/// Writes an amount of money: see [`money_text`].
pub fn format_money(micros: i64) -> (r: String)
    ensures
        r@ == money_text(micros),
{
    let magnitude: u64 = if micros < 0 {
        (-(micros as i128)) as u64
    } else {
        micros as u64
    };
    let cents: u64 = (magnitude + 5000) / 10000;
    assert(cents == cents_of(micros));
    let mut r = String::new();
    proof {
        reveal_strlit("$");
        reveal_strlit("-");
        reveal_strlit(".");
    }
    r.append("$");
    if micros < 0 && cents > 0 {
        r.append("-");
    }
    let ghost head = r@;
    append_number(&mut r, cents / 100);
    r.append(".");
    r.append(digit_text((cents / 10) % 10));
    r.append(digit_text(cents % 10));
    assert(r@ =~= money_text(micros));
    r
}

/// Writes the lines of the pane of a strategy.
pub fn strategy_lines(data: &StrategyData) -> (r: Vec<String>)
    ensures
        r@.map_values(|l: String| l@) == pane_lines(data@),
{
    let value = format_money(data.portfolio_value);
    let mut power = "Buying Power: ".to_owned();
    power.append(format_money(data.buying_power).as_str());
    let mut trades = "Day Trades: ".to_owned();
    append_number(&mut trades, data.day_trades_used as u64);
    trades.append("/3");
    let mut positions = "Positions: ".to_owned();
    append_number(&mut positions, data.positions.len() as u64);
    let mut r: Vec<String> = Vec::new();
    r.push(value);
    r.push(power);
    r.push(trades);
    r.push(positions);
    assert(r@.map_values(|l: String| l@) =~= pane_lines(data@));
    r
}

/// How many strategies the overview shows side by side.
pub const OVERVIEW_PANES: usize = 3;

/// The state of the dashboard.
pub struct App {
    /// Whether the dashboard is running; it ends when this is false.
    pub running: bool,
    /// The state that the dashboard shows.
    pub strategies: StrategyStateStore,
}

impl App {
    /// A running dashboard that has nothing to show yet.
    pub fn new() -> (r: App)
        ensures
            r.running,
            r.strategies@ == Seq::<StrategyDataView>::empty(),
    {
        App { running: true, strategies: StrategyStateStore::new() }
    }

    /// Ends the dashboard: the main loop stops at its next turn.
    pub fn quit(&mut self)
        ensures
            !final(self).running,
            final(self).strategies@ == old(self).strategies@,
    {
        self.running = false;
    }

    /// Takes a key: `q` ends the dashboard, any other key does nothing.
    pub fn on_key(&mut self, key: char)
        ensures
            final(self).running == (old(self).running && key != 'q'),
            final(self).strategies@ == old(self).strategies@,
    {
        if key == 'q' {
            self.quit();
        }
    }

    /// The titles of the tabs: the names of the strategies, in the order
    /// of the store.
    pub fn tab_titles(&self) -> (r: Vec<String>)
        ensures
            r@.map_values(|t: String| t@) == crate::store::names(self.strategies@),
    {
        let all = self.strategies.snapshot_all();
        let mut r: Vec<String> = Vec::new();
        let mut i: usize = 0;
        let ghost want = crate::store::names(self.strategies@);
        assert(r@.map_values(|t: String| t@) =~= want.take(0));
        while i < all.len()
            invariant
                i <= all.len(),
                data_views(all@) == self.strategies@,
                want == crate::store::names(self.strategies@),
                r@.map_values(|t: String| t@) == want.take(i as int),
            decreases all.len() - i,
        {
            let ghost before = r@.map_values(|t: String| t@);
            let name = all[i].name.clone();
            r.push(name);
            proof {
                assert(data_views(all@)[i as int] == all@[i as int]@);
                assert(r@.map_values(|t: String| t@) =~= before.push(name@));
                assert(want.take(i + 1) =~= before.push(name@));
            }
            i = i + 1;
        }
        assert(want.take(all.len() as int) =~= want);
        r
    }

    /// The panes of the overview: the lines of the first three strategies
    /// of the store, or of all where there are fewer.
    pub fn overview(&self) -> (r: Vec<Vec<String>>)
        ensures
            r@.len() == if self.strategies@.len() < 3 {
                self.strategies@.len()
            } else {
                3
            },
            forall|i: int|
                0 <= i < r@.len() ==> (#[trigger] r@[i])@.map_values(|l: String| l@) == pane_lines(
                    self.strategies@[i],
                ),
    {
        let all = self.strategies.snapshot_all();
        let mut r: Vec<Vec<String>> = Vec::new();
        let mut i: usize = 0;
        while i < all.len() && i < OVERVIEW_PANES
            invariant
                i <= all.len(),
                i <= 3,
                data_views(all@) == self.strategies@,
                r@.len() == i,
                forall|k: int|
                    0 <= k < i ==> (#[trigger] r@[k])@.map_values(|l: String| l@) == pane_lines(
                        self.strategies@[k],
                    ),
            decreases all.len() - i,
        {
            let lines = strategy_lines(&all[i]);
            proof {
                assert(data_views(all@)[i as int] == all@[i as int]@);
            }
            r.push(lines);
            i = i + 1;
        }
        assert(all@.len() == self.strategies@.len());
        r
    }
}

} // verus!
