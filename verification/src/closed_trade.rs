//! Closed trades: converting closed position records into trade records with
//! realized profit/loss and holding time, and the overall statistics.

use vstd::prelude::*;

use chrono::Datelike;

use crate::error::AppError;
use crate::position::{Position, PositionStatus, PositionV, MAX_POSITIONS};
use crate::portfolio_service::TRADE_COST_CAP;
use crate::rational::{Rational, RationalV};

verus! {

/// What the calendar reads as a date's day number; only chrono's date parser
/// and day count define it.
pub uninterp spec fn day_number_of(s: Seq<char>) -> Option<i32>;

/// Relies on `chrono::NaiveDate::parse_from_str` with the `%Y-%m-%d` format
/// and `chrono::Datelike::num_days_from_ce`: a date's day number is a function
/// of the text alone, named here as `day_number_of`.
#[verifier::external_body]
fn date_day_number(s: &str) -> (r: Option<i32>)
    ensures
        r == day_number_of(s@),
{
    chrono::NaiveDate::parse_from_str(s, "%Y-%m-%d").ok().map(|d| d.num_days_from_ce())
}

/// Days held: the difference of the two dates' day numbers, zero when either
/// date does not parse.
pub open spec fn spec_holding_days(buy_date: Seq<char>, sell_date: Seq<char>) -> int {
    match (day_number_of(buy_date), day_number_of(sell_date)) {
        (Some(b), Some(s)) => s - b,
        _ => 0,
    }
}

/// Number of days between the buy date and the sell date, zero when either
/// date is malformed.
pub fn calculate_holding_days(buy_date: &str, sell_date: &str) -> (r: i64)
    ensures
        r == spec_holding_days(buy_date@, sell_date@),
        -10_000_000_000 <= r <= 10_000_000_000,
{
    match (date_day_number(buy_date), date_day_number(sell_date)) {
        (Some(b), Some(s)) => (s as i64) - (b as i64),
        _ => 0,
    }
}

/// Mathematical image of a `ClosedTrade`.
pub struct ClosedTradeV {
    pub id: Seq<char>,
    pub code: Seq<char>,
    pub name: Seq<char>,
    pub buy_date: Seq<char>,
    pub buy_price: int,
    pub sell_date: Seq<char>,
    pub sell_price: int,
    pub quantity: int,
    pub profit_loss: int,
    pub profit_loss_rate: RationalV,
    pub portfolio: Seq<char>,
    pub holding_days: int,
}

/// One realized trade: a closed lot with its profit/loss and holding time.
#[derive(Debug, Clone)]
pub struct ClosedTrade {
    pub id: String,
    pub code: String,
    pub name: String,
    pub buy_date: String,
    /// Buy price in minor units.
    pub buy_price: i64,
    pub sell_date: String,
    /// Sell price in minor units; zero when the record carries none.
    pub sell_price: i64,
    pub quantity: i64,
    /// `(sell_price - buy_price) * quantity`.
    pub profit_loss: i64,
    /// Profit/loss over cost, zero when the cost is zero.
    pub profit_loss_rate: Rational,
    pub portfolio: String,
    /// Days between buy and sell date, zero when either is malformed.
    pub holding_days: i64,
}

impl DeepView for ClosedTrade {
    type V = ClosedTradeV;

    open spec fn deep_view(&self) -> ClosedTradeV {
        ClosedTradeV {
            id: self.id@,
            code: self.code@,
            name: self.name@,
            buy_date: self.buy_date@,
            buy_price: self.buy_price as int,
            sell_date: self.sell_date@,
            sell_price: self.sell_price as int,
            quantity: self.quantity as int,
            profit_loss: self.profit_loss as int,
            profit_loss_rate: self.profit_loss_rate.deep_view(),
            portfolio: self.portfolio@,
            holding_days: self.holding_days as int,
        }
    }
}

/// The realized trade derived from one closed position record.
pub open spec fn spec_closed_trade(p: PositionV) -> ClosedTradeV {
    let sell_price = match p.sell_price {
        Some(sp) => sp,
        None => 0,
    };
    let sell_date = match p.sell_date {
        Some(d) => d,
        None => Seq::<char>::empty(),
    };
    let cost = p.buy_price * p.quantity;
    let pl = (sell_price - p.buy_price) * p.quantity;
    ClosedTradeV {
        id: p.id,
        code: p.code,
        name: p.name,
        buy_date: p.buy_date,
        buy_price: p.buy_price,
        sell_date: sell_date,
        sell_price: sell_price,
        quantity: p.quantity,
        profit_loss: pl,
        profit_loss_rate: if cost != 0 {
            RationalV { num: pl, den: cost }
        } else {
            RationalV::zero()
        },
        portfolio: p.portfolio,
        holding_days: spec_holding_days(p.buy_date, sell_date),
    }
}

impl ClosedTrade {
    /// Derive the realized trade from a closed position record.
    pub fn from_position(pos: Position) -> (r: ClosedTrade)
        requires
            pos.deep_view().wf(),
        ensures
            r.deep_view() == spec_closed_trade(pos.deep_view()),
    {
        let sell_price: i64 = match pos.sell_price {
            Some(sp) => sp,
            None => 0,
        };
        let sell_date: String = match pos.sell_date {
            Some(d) => d,
            None => String::new(),
        };
        proof {
            crate::position::lemma_trade_product_bounded(pos.buy_price as int, pos.quantity as int);
            crate::position::lemma_trade_product_bounded(
                sell_price - pos.buy_price,
                pos.quantity as int,
            );
        }
        let cost: i64 = pos.buy_price * pos.quantity;
        let profit_loss: i64 = (sell_price - pos.buy_price) * pos.quantity;
        let profit_loss_rate = if cost != 0 {
            Rational::new(profit_loss as i128, cost as i128)
        } else {
            Rational::zero()
        };
        let holding_days = calculate_holding_days(pos.buy_date.as_str(), sell_date.as_str());
        ClosedTrade {
            id: pos.id,
            code: pos.code,
            name: pos.name,
            buy_date: pos.buy_date,
            buy_price: pos.buy_price,
            sell_date,
            sell_price,
            quantity: pos.quantity,
            profit_loss,
            profit_loss_rate,
            portfolio: pos.portfolio,
            holding_days,
        }
    }
}

/// Overall statistics of the realized trades.  Counts, win rate, total and
/// extreme profit/losses, and the average holding time, all exact.
#[derive(Debug, Clone, PartialEq, Eq, Structural)]
pub struct ClosedTradesStatistics {
    pub total_trades: usize,
    pub profitable_trades: usize,
    pub loss_trades: usize,
    /// Profitable trades over total trades.
    pub win_rate: Rational,
    /// Σ profit/loss, in minor units.
    pub total_profit_loss: i128,
    /// Largest single-trade profit, in minor units.
    pub max_profit: i64,
    /// Largest single-trade loss, in minor units.
    pub max_loss: i64,
    /// Σ holding days over total trades.
    pub average_holding_days: Rational,
}

/// Closed trades together with their statistics.
#[derive(Debug, Clone)]
pub struct ClosedTradesSummary {
    /// The realized trades, in the order supplied by the storage collaborator
    /// (most recently sold first).
    pub trades: Vec<ClosedTrade>,
    pub statistics: ClosedTradesStatistics,
}

/// Number of trades with a strictly positive profit/loss.
pub open spec fn count_profitable(s: Seq<ClosedTradeV>) -> int
    decreases s.len(),
{
    if s.len() == 0 {
        0
    } else {
        count_profitable(s.drop_last()) + if s.last().profit_loss > 0 {
            1int
        } else {
            0int
        }
    }
}

/// Number of trades with a strictly negative profit/loss.
pub open spec fn count_loss(s: Seq<ClosedTradeV>) -> int
    decreases s.len(),
{
    if s.len() == 0 {
        0
    } else {
        count_loss(s.drop_last()) + if s.last().profit_loss < 0 {
            1int
        } else {
            0int
        }
    }
}

/// Σ profit/loss over the trades.
pub open spec fn sum_trades_pl(s: Seq<ClosedTradeV>) -> int
    decreases s.len(),
{
    if s.len() == 0 {
        0
    } else {
        sum_trades_pl(s.drop_last()) + s.last().profit_loss
    }
}

/// Σ holding days over the trades.
pub open spec fn sum_trades_days(s: Seq<ClosedTradeV>) -> int
    decreases s.len(),
{
    if s.len() == 0 {
        0
    } else {
        sum_trades_days(s.drop_last()) + s.last().holding_days
    }
}

/// Largest profit/loss among the trades (zero for no trades).
pub open spec fn max_trades_pl(s: Seq<ClosedTradeV>) -> int
    decreases s.len(),
{
    if s.len() == 0 {
        0
    } else if s.len() == 1 {
        s.last().profit_loss
    } else if s.last().profit_loss > max_trades_pl(s.drop_last()) {
        s.last().profit_loss
    } else {
        max_trades_pl(s.drop_last())
    }
}

/// Smallest profit/loss among the trades (zero for no trades).
pub open spec fn min_trades_pl(s: Seq<ClosedTradeV>) -> int
    decreases s.len(),
{
    if s.len() == 0 {
        0
    } else if s.len() == 1 {
        s.last().profit_loss
    } else if s.last().profit_loss < min_trades_pl(s.drop_last()) {
        s.last().profit_loss
    } else {
        min_trades_pl(s.drop_last())
    }
}

/// Bounds the engine relies on for every realized trade.
pub open spec fn closed_trade_wf(t: ClosedTradeV) -> bool {
    &&& -TRADE_COST_CAP <= t.profit_loss <= TRADE_COST_CAP
    &&& -10_000_000_000 <= t.holding_days <= 10_000_000_000
}

/// The statistics over a trade list.
pub open spec fn spec_statistics(s: Seq<ClosedTradeV>) -> ClosedTradesStatistics {
    if s.len() == 0 {
        ClosedTradesStatistics {
            total_trades: 0,
            profitable_trades: 0,
            loss_trades: 0,
            win_rate: Rational { num: 0, den: 1 },
            total_profit_loss: 0,
            max_profit: 0,
            max_loss: 0,
            average_holding_days: Rational { num: 0, den: 1 },
        }
    } else {
        ClosedTradesStatistics {
            total_trades: s.len() as usize,
            profitable_trades: count_profitable(s) as usize,
            loss_trades: count_loss(s) as usize,
            win_rate: Rational { num: count_profitable(s) as i128, den: s.len() as i128 },
            total_profit_loss: sum_trades_pl(s) as i128,
            max_profit: max_trades_pl(s) as i64,
            max_loss: min_trades_pl(s) as i64,
            average_holding_days: Rational { num: sum_trades_days(s) as i128, den: s.len() as i128 },
        }
    }
}

/// Closed-trade statistics service.
pub struct ClosedTradeService;

/// Basic bounds on the counting and summing functions.
proof fn lemma_trade_sums_bounded(s: Seq<ClosedTradeV>)
    requires
        forall|j: int| 0 <= j < s.len() ==> closed_trade_wf(#[trigger] s[j]),
    ensures
        0 <= count_profitable(s) <= s.len(),
        0 <= count_loss(s) <= s.len(),
        -s.len() * (TRADE_COST_CAP as int) <= sum_trades_pl(s) <= s.len() * (
        TRADE_COST_CAP as int),
        -s.len() * 10_000_000_000 <= sum_trades_days(s) <= s.len() * 10_000_000_000,
        -TRADE_COST_CAP <= max_trades_pl(s) <= TRADE_COST_CAP,
        -TRADE_COST_CAP <= min_trades_pl(s) <= TRADE_COST_CAP,
    decreases s.len(),
{
    if s.len() > 0 {
        assert(forall|j: int|
            0 <= j < s.drop_last().len() ==> (#[trigger] s.drop_last()[j]) == s[j]);
        lemma_trade_sums_bounded(s.drop_last());
        assert(closed_trade_wf(s[s.len() - 1]));
    }
}

impl ClosedTradeService {
    /// Compute the overall statistics of the given trades.
    pub fn calculate_statistics(trades: &Vec<ClosedTrade>) -> (r: ClosedTradesStatistics)
        requires
            trades.deep_view().len() <= MAX_POSITIONS,
            forall|j: int|
                0 <= j < trades.deep_view().len() ==> closed_trade_wf(
                    #[trigger] trades.deep_view()[j],
                ),
        ensures
            r == spec_statistics(trades.deep_view()),
    {
        let ghost tv = trades.deep_view();
        let n = trades.len();
        if n == 0 {
            return ClosedTradesStatistics {
                total_trades: 0,
                profitable_trades: 0,
                loss_trades: 0,
                win_rate: Rational::zero(),
                total_profit_loss: 0,
                max_profit: 0,
                max_loss: 0,
                average_holding_days: Rational::zero(),
            };
        }
        let mut profitable: usize = 0;
        let mut losses: usize = 0;
        let mut total_pl: i128 = 0;
        let mut total_days: i64 = 0;
        let mut max_profit: i64 = trades[0].profit_loss;
        let mut max_loss: i64 = trades[0].profit_loss;
        let mut i: usize = 0;
        proof {
            assert(tv.take(0) =~= Seq::<ClosedTradeV>::empty());
            assert(tv[0] == trades@[0].deep_view());
        }
        while i < n
            invariant
                tv == trades.deep_view(),
                tv.len() == trades@.len(),
                tv.len() == n,
                0 < n <= MAX_POSITIONS,
                forall|j: int| 0 <= j < tv.len() ==> closed_trade_wf(#[trigger] tv[j]),
                0 <= i <= n,
                profitable == count_profitable(tv.take(i as int)),
                losses == count_loss(tv.take(i as int)),
                profitable <= i,
                losses <= i,
                total_pl == sum_trades_pl(tv.take(i as int)),
                total_days == sum_trades_days(tv.take(i as int)),
                i == 0 ==> max_profit == tv[0].profit_loss && max_loss == tv[0].profit_loss,
                i > 0 ==> max_profit == max_trades_pl(tv.take(i as int)) && max_loss
                    == min_trades_pl(tv.take(i as int)),
                -TRADE_COST_CAP <= max_profit <= TRADE_COST_CAP,
                -TRADE_COST_CAP <= max_loss <= TRADE_COST_CAP,
            decreases n - i,
        {
            proof {
                assert(tv[i as int] == trades@[i as int].deep_view());
                assert(closed_trade_wf(tv[i as int]));
                assert(tv.take(i + 1 as int).drop_last() =~= tv.take(i as int));
                assert(tv.take(i + 1 as int).last() == tv[i as int]);
                lemma_trade_sums_bounded(tv.take(i as int));
                assert(forall|j: int|
                    0 <= j < tv.take(i as int).len() ==> (#[trigger] tv.take(i as int)[j])
                        == tv[j]);
            }
            let t = &trades[i];
            if t.profit_loss > 0 {
                profitable = profitable + 1;
            }
            if t.profit_loss < 0 {
                losses = losses + 1;
            }
            total_pl = total_pl + (t.profit_loss as i128);
            total_days = total_days + t.holding_days;
            if i == 0 {
                max_profit = t.profit_loss;
                max_loss = t.profit_loss;
            } else {
                if t.profit_loss > max_profit {
                    max_profit = t.profit_loss;
                }
                if t.profit_loss < max_loss {
                    max_loss = t.profit_loss;
                }
            }
            i = i + 1;
        }
        proof {
            assert(tv.take(n as int) =~= tv);
            lemma_trade_sums_bounded(tv);
        }
        let win_rate = Rational::new(profitable as i128, n as i128);
        let average_holding_days = Rational::new(total_days as i128, n as i128);
        ClosedTradesStatistics {
            total_trades: n,
            profitable_trades: profitable,
            loss_trades: losses,
            win_rate,
            total_profit_loss: total_pl,
            max_profit,
            max_loss,
            average_holding_days,
        }
    }

    /// Convert the closed position records into realized trades and compute
    /// the overall statistics.  Records that are not closed are skipped.
    pub fn get_closed_trades_summary(closed_positions: Vec<Position>) -> (r: Result<
        ClosedTradesSummary,
        AppError,
    >)
        requires
            crate::portfolio_service::positions_wf(closed_positions.deep_view()),
            closed_positions.deep_view().len() <= MAX_POSITIONS,
        ensures
            r matches Ok(s) && s.trades.deep_view() == closed_trades_of(
                closed_positions.deep_view(),
            ) && s.statistics == spec_statistics(closed_trades_of(closed_positions.deep_view())),
    {
        let ghost pv = closed_positions.deep_view();
        let mut rest = closed_positions;
        let mut trades: Vec<ClosedTrade> = Vec::new();
        let ghost mut i: int = 0;
        proof {
            assert(trades.deep_view() =~~= closed_trades_of(pv.take(0)));
            lemma_closed_trades_len(pv.take(0));
        }
        while rest.len() > 0
            invariant
                0 <= i <= pv.len(),
                crate::portfolio_service::positions_wf(pv),
                pv.len() <= MAX_POSITIONS,
                pv.len() == rest.deep_view().len() + i,
                rest.deep_view() == pv.skip(i),
                trades.deep_view() == closed_trades_of(pv.take(i)),
                trades.deep_view().len() <= i,
                forall|j: int|
                    0 <= j < trades.deep_view().len() ==> closed_trade_wf(
                        #[trigger] trades.deep_view()[j],
                    ),
            decreases rest@.len(),
        {
            let ghost rest_pre = rest.deep_view();
            let ghost restv_pre = rest@;
            let p = rest.remove(0);
            proof {
                assert(p.deep_view() == rest_pre[0]);
                assert(rest_pre[0] == pv[i]);
                assert forall|j: int|
                    0 <= j < rest.deep_view().len() implies (#[trigger] rest.deep_view()[j])
                    == pv.skip(i + 1)[j] by {
                    assert(rest@[j] == restv_pre[j + 1]);
                    assert(rest.deep_view()[j] == rest@[j].deep_view());
                    assert(rest_pre[j + 1] == restv_pre[j + 1].deep_view());
                    assert(rest_pre[j + 1] == pv.skip(i)[j + 1]);
                }
                assert(rest.deep_view() =~= pv.skip(i + 1));
                assert(pv.take(i + 1).drop_last() =~= pv.take(i));
                assert(pv.take(i + 1).last() == pv[i]);
                assert(pv[i].wf());
            }
            if p.is_closed() {
                proof {
                    crate::position::lemma_trade_product_bounded(
                        (match pv[i].sell_price {
                            Some(sp) => sp,
                            None => 0,
                        }) - pv[i].buy_price,
                        pv[i].quantity,
                    );
                }
                let t = ClosedTrade::from_position(p);
                let ghost trades_pre = trades.deep_view();
                trades.push(t);
                proof {
                    assert(trades.deep_view() =~~= trades_pre.push(spec_closed_trade(pv[i])));
                }
            }
            proof {
                i = i + 1;
            }
        }
        proof {
            assert(pv.skip(i).len() == 0);
            assert(pv.take(i) =~= pv);
        }
        let statistics = Self::calculate_statistics(&trades);
        Ok(ClosedTradesSummary { trades, statistics })
    }
}

/// One realized trade per closed record, in input order.
pub open spec fn closed_trades_of(s: Seq<PositionV>) -> Seq<ClosedTradeV>
    decreases s.len(),
{
    if s.len() == 0 {
        Seq::empty()
    } else {
        let rest = closed_trades_of(s.drop_last());
        if s.last().status == PositionStatus::Closed {
            rest.push(spec_closed_trade(s.last()))
        } else {
            rest
        }
    }
}

/// There are no more realized trades than records.
proof fn lemma_closed_trades_len(s: Seq<PositionV>)
    ensures
        closed_trades_of(s).len() <= s.len(),
    decreases s.len(),
{
    if s.len() > 0 {
        lemma_closed_trades_len(s.drop_last());
    }
}

} // verus!
