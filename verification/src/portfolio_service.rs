//! The aggregation engine: group open positions by portfolio and by
//! instrument, price each instrument with its quote, and roll the results up
//! into ordered portfolio aggregates.
//!
//! An instrument whose code has no quote is silently excluded: it contributes
//! nothing to any total (a documented, deliberate behavior).  Within a
//! portfolio, instruments are ordered by cost-exposure ratio descending;
//! within an instrument, trades are ordered by buy date descending.
//! Portfolios appear in order of first appearance in the input, which makes
//! the whole result a function of the inputs alone.

use vstd::prelude::*;

use crate::error::AppError;
use crate::ordering::{sort_targets, sort_trades, target_entry_wf};
use crate::position::{Position, PositionStatus, PositionV, MAX_FULL_POSITION, MAX_POSITIONS,
    MAX_PRICE, MAX_QUANTITY};
use crate::profit_loss::{
    insert_target_desc, sort_targets_desc, sort_trades_desc, spec_trade_profit_loss,
    PortfolioProfitLoss, PortfolioProfitLossV, PositionProfitLoss, PositionProfitLossV,
    TargetProfitLoss, TargetProfitLossV,
};
use crate::quote::{prices_in_range, QuoteMap, QuoteV, RealQuote};
use crate::rational::{Rational, RationalV, RAT_BOUND};

verus! {

/// The default full-position capital constant, in minor units.
pub const FULL_POSITION: i64 = 5_000_000;

/// Cost or profit/loss magnitude of a single trade never exceeds this bound
/// (`MAX_PRICE * MAX_QUANTITY`).
pub const TRADE_COST_CAP: i64 = 1_000_000_000_000_000;

/// The open positions, in input order.
pub open spec fn open_positions(s: Seq<PositionV>) -> Seq<PositionV>
    decreases s.len(),
{
    if s.len() == 0 {
        Seq::empty()
    } else {
        let rest = open_positions(s.drop_last());
        if s.last().status == PositionStatus::Open {
            rest.push(s.last())
        } else {
            rest
        }
    }
}

/// Every position is within the engine's bounds.
pub open spec fn positions_wf(s: Seq<PositionV>) -> bool {
    forall|i: int| 0 <= i < s.len() ==> (#[trigger] s[i]).wf()
}

/// The distinct portfolio names, in order of first appearance.
pub open spec fn portfolio_keys(s: Seq<PositionV>) -> Seq<Seq<char>>
    decreases s.len(),
{
    if s.len() == 0 {
        Seq::empty()
    } else {
        let rest = portfolio_keys(s.drop_last());
        if rest.contains(s.last().portfolio) {
            rest
        } else {
            rest.push(s.last().portfolio)
        }
    }
}

/// The positions belonging to one portfolio, in input order.
pub open spec fn positions_of_portfolio(s: Seq<PositionV>, name: Seq<char>) -> Seq<PositionV>
    decreases s.len(),
{
    if s.len() == 0 {
        Seq::empty()
    } else {
        let rest = positions_of_portfolio(s.drop_last(), name);
        if s.last().portfolio == name {
            rest.push(s.last())
        } else {
            rest
        }
    }
}

/// The distinct instrument codes, in order of first appearance.
pub open spec fn code_keys(s: Seq<PositionV>) -> Seq<Seq<char>>
    decreases s.len(),
{
    if s.len() == 0 {
        Seq::empty()
    } else {
        let rest = code_keys(s.drop_last());
        if rest.contains(s.last().code) {
            rest
        } else {
            rest.push(s.last().code)
        }
    }
}

/// The positions holding one instrument, in input order.
pub open spec fn positions_of_code(s: Seq<PositionV>, code: Seq<char>) -> Seq<PositionV>
    decreases s.len(),
{
    if s.len() == 0 {
        Seq::empty()
    } else {
        let rest = positions_of_code(s.drop_last(), code);
        if s.last().code == code {
            rest.push(s.last())
        } else {
            rest
        }
    }
}

/// One trade record per position, in input order.
pub open spec fn trades_of(ps: Seq<PositionV>, price: int) -> Seq<PositionProfitLossV>
    decreases ps.len(),
{
    if ps.len() == 0 {
        Seq::empty()
    } else {
        trades_of(ps.drop_last(), price).push(spec_trade_profit_loss(ps.last(), price))
    }
}

/// Sum of a per-position weight.
pub open spec fn sum_w(s: Seq<PositionV>, w: spec_fn(PositionV) -> int) -> int
    decreases s.len(),
{
    if s.len() == 0 {
        0
    } else {
        sum_w(s.drop_last(), w) + w(s.last())
    }
}

/// Cost of one position: buy price times quantity.
pub open spec fn cost_w() -> spec_fn(PositionV) -> int {
    |p: PositionV| p.buy_price * p.quantity
}

/// Profit/loss of one position at the given price.
pub open spec fn pl_w(price: int) -> spec_fn(PositionV) -> int {
    |p: PositionV| (price - p.buy_price) * p.quantity
}

/// Quantity of one position.
pub open spec fn qty_w() -> spec_fn(PositionV) -> int {
    |p: PositionV| p.quantity
}

/// The constant per-trade magnitude cap.
pub open spec fn cap_w() -> spec_fn(PositionV) -> int {
    |p: PositionV| (MAX_PRICE as int) * (MAX_QUANTITY as int)
}

/// The instrument aggregate for one code: its trades sorted by buy date
/// descending, exact totals, exposure ratios over the full-position constant,
/// and recommendation bands at ±10% of the most recent buy price.
pub open spec fn spec_target(code: Seq<char>, q: QuoteV, ps: Seq<PositionV>, full: int)
    -> TargetProfitLossV {
    let trades = sort_trades_desc(trades_of(ps, q.price));
    let total_cost = sum_w(ps, cost_w());
    let total_qty = sum_w(ps, qty_w());
    let total_pl = sum_w(ps, pl_w(q.price));
    let last_buy = if trades.len() > 0 {
        trades[0].buy_price
    } else {
        0
    };
    TargetProfitLossV {
        code: code,
        name: q.name,
        real_price: q.price,
        position_profit_losses: trades,
        cost_position_rate: if full != 0 {
            RationalV { num: total_cost, den: full }
        } else {
            RationalV::zero()
        },
        current_position_rate: if full != 0 {
            RationalV { num: q.price * total_qty, den: full }
        } else {
            RationalV::zero()
        },
        target_profit_loss: total_pl,
        target_profit_loss_rate: if total_cost != 0 {
            RationalV { num: total_pl, den: total_cost }
        } else {
            RationalV::zero()
        },
        recommended_buy_in_point: RationalV { num: 9 * last_buy, den: 10 },
        recommended_sale_out_point: RationalV { num: 11 * last_buy, den: 10 },
    }
}

/// One instrument aggregate per quoted code, in code order; unquoted codes
/// are silently excluded.
pub open spec fn targets_raw(
    ks: Seq<Seq<char>>,
    ps: Seq<PositionV>,
    quotes: Map<Seq<char>, QuoteV>,
    full: int,
) -> Seq<TargetProfitLossV>
    decreases ks.len(),
{
    if ks.len() == 0 {
        Seq::empty()
    } else {
        let rest = targets_raw(ks.drop_last(), ps, quotes, full);
        if quotes.contains_key(ks.last()) {
            rest.push(spec_target(ks.last(), quotes[ks.last()], positions_of_code(ps, ks.last()), full))
        } else {
            rest
        }
    }
}

/// The instrument list of one portfolio: quoted codes only, sorted by
/// cost-exposure ratio descending.
pub open spec fn portfolio_targets(
    ps: Seq<PositionV>,
    quotes: Map<Seq<char>, QuoteV>,
    full: int,
) -> Seq<TargetProfitLossV> {
    sort_targets_desc(targets_raw(code_keys(ps), ps, quotes, full))
}

/// Portfolio total cost, re-derived through each instrument's cost-exposure
/// ratio: Σ (ratio numerator × full position ÷ ratio denominator).
pub open spec fn sum_targets_cost(ts: Seq<TargetProfitLossV>, full: int) -> int
    decreases ts.len(),
{
    if ts.len() == 0 {
        0
    } else {
        sum_targets_cost(ts.drop_last(), full) + (ts.last().cost_position_rate.num * full
            / ts.last().cost_position_rate.den)
    }
}

/// Portfolio total profit/loss: Σ instrument profit/loss.
pub open spec fn sum_targets_pl(ts: Seq<TargetProfitLossV>) -> int
    decreases ts.len(),
{
    if ts.len() == 0 {
        0
    } else {
        sum_targets_pl(ts.drop_last()) + ts.last().target_profit_loss
    }
}

/// Σ of the magnitudes of the instrument profit/losses.
pub open spec fn sum_targets_abs_pl(ts: Seq<TargetProfitLossV>) -> int
    decreases ts.len(),
{
    if ts.len() == 0 {
        0
    } else {
        sum_targets_abs_pl(ts.drop_last()) + vstd::math::abs(ts.last().target_profit_loss)
    }
}

/// The portfolio aggregate over a given instrument list.
pub open spec fn portfolio_from_targets(
    name: Seq<char>,
    ts: Seq<TargetProfitLossV>,
    full: int,
) -> PortfolioProfitLossV {
    let sum_cost = sum_targets_cost(ts, full);
    let sum_pl = sum_targets_pl(ts);
    PortfolioProfitLossV {
        portfolio: name,
        full_position: full,
        target_profit_losses: ts,
        sum_position_cost: sum_cost,
        sum_profit_losses: sum_pl,
        sum_profit_losses_rate: if sum_cost != 0 {
            RationalV { num: sum_pl, den: sum_cost }
        } else {
            RationalV::zero()
        },
    }
}

/// The aggregate of one portfolio's positions.
pub open spec fn spec_portfolio(
    name: Seq<char>,
    ps: Seq<PositionV>,
    quotes: Map<Seq<char>, QuoteV>,
    full: int,
) -> PortfolioProfitLossV {
    portfolio_from_targets(name, portfolio_targets(ps, quotes, full), full)
}

/// The whole engine: filter to open positions, group by portfolio in order of
/// first appearance, aggregate each portfolio.
pub open spec fn spec_aggregate(
    positions: Seq<PositionV>,
    quotes: Map<Seq<char>, QuoteV>,
    full: int,
) -> Seq<PortfolioProfitLossV> {
    let opened = open_positions(positions);
    let keys = portfolio_keys(opened);
    Seq::new(
        keys.len(),
        |k: int| spec_portfolio(keys[k], positions_of_portfolio(opened, keys[k]), quotes, full),
    )
}

/// Aggregation service.
pub struct PortfolioService;

/// The buy price of every trade record lies in `(0, MAX_PRICE]`.
proof fn lemma_trades_of_buy_bounded(ps: Seq<PositionV>, price: int)
    requires
        positions_wf(ps),
    ensures
        forall|j: int|
            0 <= j < trades_of(ps, price).len() ==> 0 < (#[trigger] trades_of(
                ps,
                price,
            )[j]).buy_price <= MAX_PRICE,
        trades_of(ps, price).len() == ps.len(),
    decreases ps.len(),
{
    if ps.len() > 0 {
        assert(forall|j: int|
            0 <= j < ps.drop_last().len() ==> (#[trigger] ps.drop_last()[j]) == ps[j]);
        lemma_trades_of_buy_bounded(ps.drop_last(), price);
        let r = trades_of(ps, price);
        assert forall|j: int| 0 <= j < r.len() implies 0 < (#[trigger] r[j]).buy_price
            <= MAX_PRICE by {
            if j < r.len() - 1 {
                assert(r[j] == trades_of(ps.drop_last(), price)[j]);
            } else {
                assert(r[j] == spec_trade_profit_loss(ps.last(), price));
                assert(ps[ps.len() - 1].wf());
            }
        }
    }
}

/// A cost-exposure term `num * full / den` of a well-formed instrument entry
/// is non-negative.
proof fn lemma_target_cost_term_nonneg(t: TargetProfitLossV, full: int)
    requires
        target_entry_wf(t),
        0 < full,
    ensures
        0 <= t.cost_position_rate.num * full / t.cost_position_rate.den,
{
    assert(0 <= t.cost_position_rate.num * full) by (nonlinear_arith)
        requires
            0 <= t.cost_position_rate.num,
            0 < full,
    ;
    vstd::arithmetic::div_mod::lemma_div_pos_is_pos(
        t.cost_position_rate.num * full,
        t.cost_position_rate.den,
    );
}

/// Prefix sums of the cost re-derivation are between zero and the whole sum.
proof fn lemma_sum_targets_cost_prefix(ts: Seq<TargetProfitLossV>, full: int, i: int)
    requires
        0 < full,
        forall|j: int| 0 <= j < ts.len() ==> target_entry_wf(#[trigger] ts[j]),
        0 <= i <= ts.len(),
    ensures
        0 <= sum_targets_cost(ts.take(i), full) <= sum_targets_cost(ts, full),
    decreases ts.len() - i,
{
    if i == ts.len() {
        assert(ts.take(i) =~= ts);
        lemma_sum_targets_cost_nonneg(ts, full);
    } else {
        lemma_sum_targets_cost_prefix(ts, full, i + 1);
        assert(ts.take(i + 1).drop_last() =~= ts.take(i));
        assert(ts.take(i + 1).last() == ts[i]);
        lemma_target_cost_term_nonneg(ts[i], full);
        lemma_sum_targets_cost_nonneg(ts.take(i), full);
    }
}

/// The cost re-derivation of well-formed entries is non-negative.
proof fn lemma_sum_targets_cost_nonneg(ts: Seq<TargetProfitLossV>, full: int)
    requires
        0 < full,
        forall|j: int| 0 <= j < ts.len() ==> target_entry_wf(#[trigger] ts[j]),
    ensures
        0 <= sum_targets_cost(ts, full),
    decreases ts.len(),
{
    if ts.len() > 0 {
        assert(forall|j: int|
            0 <= j < ts.drop_last().len() ==> (#[trigger] ts.drop_last()[j]) == ts[j]);
        lemma_sum_targets_cost_nonneg(ts.drop_last(), full);
        lemma_target_cost_term_nonneg(ts.last(), full);
    }
}

/// Σ |profit/loss| is non-negative and grows with the list.
proof fn lemma_sum_targets_abs_pl_prefix(ts: Seq<TargetProfitLossV>, i: int)
    requires
        0 <= i <= ts.len(),
    ensures
        0 <= sum_targets_abs_pl(ts.take(i)) <= sum_targets_abs_pl(ts),
    decreases ts.len() - i,
{
    if i == ts.len() {
        assert(ts.take(i) =~= ts);
        lemma_sum_targets_abs_pl_nonneg(ts);
    } else {
        lemma_sum_targets_abs_pl_prefix(ts, i + 1);
        assert(ts.take(i + 1).drop_last() =~= ts.take(i));
        assert(ts.take(i + 1).last() == ts[i]);
        lemma_sum_targets_abs_pl_nonneg(ts.take(i));
    }
}

/// Σ |profit/loss| is non-negative.
proof fn lemma_sum_targets_abs_pl_nonneg(ts: Seq<TargetProfitLossV>)
    ensures
        0 <= sum_targets_abs_pl(ts),
    decreases ts.len(),
{
    if ts.len() > 0 {
        lemma_sum_targets_abs_pl_nonneg(ts.drop_last());
    }
}

/// The profit/loss sum is bounded by the sum of magnitudes.
proof fn lemma_sum_targets_pl_abs(ts: Seq<TargetProfitLossV>)
    ensures
        -sum_targets_abs_pl(ts) <= sum_targets_pl(ts) <= sum_targets_abs_pl(ts),
    decreases ts.len(),
{
    if ts.len() > 0 {
        lemma_sum_targets_pl_abs(ts.drop_last());
    }
}

impl PortfolioService {
    /// Build the aggregate for one instrument: one trade record per position
    /// (most recent buy first), exact totals, exposure ratios, and the ±10%
    /// recommendation bands.  Never fails; the `Result` mirrors the engine's
    /// calling convention.
    pub fn create_target_profit_loss(
        code: &str,
        quote: &RealQuote,
        positions: Vec<Position>,
        full_position: i64,
    ) -> (r: Result<TargetProfitLoss, AppError>)
        requires
            positions_wf(positions.deep_view()),
            positions.deep_view().len() <= MAX_POSITIONS,
            0 <= quote.real_price <= MAX_PRICE,
            0 < full_position <= MAX_FULL_POSITION,
        ensures
            r matches Ok(t) && t.deep_view() == spec_target(
                code@,
                quote.deep_view(),
                positions.deep_view(),
                full_position as int,
            ),
    {
        let ghost psv = positions.deep_view();
        let ghost price: int = quote.real_price as int;
        let mut rest = positions;
        let mut trades: Vec<PositionProfitLoss> = Vec::new();
        let mut total_cost: i128 = 0;
        let mut total_quantity: i64 = 0;
        let mut total_pl: i128 = 0;
        let ghost mut i: int = 0;
        proof {
            assert(rest.deep_view() =~~= psv.skip(0));
            assert(trades.deep_view() =~~= trades_of(psv.take(0), price));
        }
        while rest.len() > 0
            invariant
                0 <= i <= psv.len(),
                psv.len() <= MAX_POSITIONS,
                positions_wf(psv),
                0 <= quote.real_price <= MAX_PRICE,
                price == quote.real_price as int,
                psv.len() == rest.deep_view().len() + i,
                rest.deep_view() == psv.skip(i),
                trades.deep_view() == trades_of(psv.take(i), price),
                total_cost == sum_w(psv.take(i), cost_w()),
                0 <= total_cost <= i * (TRADE_COST_CAP as int),
                total_quantity == sum_w(psv.take(i), qty_w()),
                0 <= total_quantity <= i * (MAX_QUANTITY as int),
                total_pl == sum_w(psv.take(i), pl_w(price)),
                -i * (TRADE_COST_CAP as int) <= total_pl <= i * (TRADE_COST_CAP as int),
            decreases rest@.len(),
        {
            let ghost rest_pre = rest.deep_view();
            let ghost restv_pre = rest@;
            let x = rest.remove(0);
            proof {
                assert(x.deep_view() == rest_pre[0]);
                assert(rest_pre[0] == psv[i]);
                assert forall|j: int|
                    0 <= j < rest.deep_view().len() implies (#[trigger] rest.deep_view()[j])
                    == psv.skip(i + 1)[j] by {
                    assert(rest@[j] == restv_pre[j + 1]);
                    assert(rest.deep_view()[j] == rest@[j].deep_view());
                    assert(rest_pre[j + 1] == restv_pre[j + 1].deep_view());
                    assert(rest_pre[j + 1] == psv.skip(i)[j + 1]);
                }
                assert(rest.deep_view() =~= psv.skip(i + 1));
                assert(psv[i].wf());
            }
            let tr = PositionProfitLoss::from_position(x, quote.real_price);
            proof {
                assert(psv.take(i + 1).drop_last() =~= psv.take(i));
                assert(psv.take(i + 1).last() == psv[i]);
                crate::position::lemma_trade_product_bounded(psv[i].buy_price, psv[i].quantity);
                crate::position::lemma_trade_product_bounded(
                    price - psv[i].buy_price,
                    psv[i].quantity,
                );
                assert(cost_w()(psv[i]) == psv[i].buy_price * psv[i].quantity);
                assert(pl_w(price)(psv[i]) == (price - psv[i].buy_price) * psv[i].quantity);
                assert(qty_w()(psv[i]) == psv[i].quantity);
            }
            let tr_cost = tr.position_cost;
            let tr_quantity = tr.quantity;
            let tr_pl = tr.profit_loss;
            let ghost trades_pre = trades.deep_view();
            trades.push(tr);
            proof {
                assert(trades.deep_view() =~~= trades_pre.push(
                    spec_trade_profit_loss(psv[i], price),
                ));
            }
            total_cost = total_cost + (tr_cost as i128);
            total_quantity = total_quantity + tr_quantity;
            total_pl = total_pl + (tr_pl as i128);
            proof {
                i = i + 1;
            }
        }
        proof {
            assert(psv.skip(i).len() == 0);
            assert(psv.take(i) =~= psv);
        }
        let sorted = sort_trades(trades);
        proof {
            lemma_trades_of_buy_bounded(psv, price);
            crate::ordering::lemma_sort_trades_buy_bounded(trades_of(psv, price));
        }
        let last_buy: i64 = if sorted.len() > 0 {
            proof {
                assert(sorted.deep_view()[0] == sorted@[0].deep_view());
            }
            sorted[0].buy_price
        } else {
            0
        };
        let cost_position_rate = if full_position != 0 {
            Rational::new(total_cost, full_position as i128)
        } else {
            Rational::zero()
        };
        proof {
            assert(0 <= (quote.real_price as i128) * (total_quantity as i128) <= RAT_BOUND)
                by (nonlinear_arith)
                requires
                    0 <= quote.real_price <= MAX_PRICE,
                    0 <= total_quantity <= (MAX_POSITIONS as int) * (MAX_QUANTITY as int),
            ;
        }
        let current_value: i128 = (quote.real_price as i128) * (total_quantity as i128);
        let current_position_rate = if full_position != 0 {
            Rational::new(current_value, full_position as i128)
        } else {
            Rational::zero()
        };
        let target_profit_loss_rate = if total_cost != 0 {
            Rational::new(total_pl, total_cost)
        } else {
            Rational::zero()
        };
        let recommended_buy_in_point = Rational::new(9 * (last_buy as i128), 10);
        let recommended_sale_out_point = Rational::new(11 * (last_buy as i128), 10);
        let t = TargetProfitLoss {
            code: code.to_owned(),
            name: quote.name.clone(),
            real_price: quote.real_price,
            position_profit_losses: sorted,
            cost_position_rate,
            current_position_rate,
            target_profit_loss: total_pl,
            target_profit_loss_rate,
            recommended_buy_in_point,
            recommended_sale_out_point,
        };
        proof {
            assert(t.deep_view() == spec_target(code@, quote.deep_view(), psv, full_position as int));
        }
        Ok(t)
    }

    /// Roll the (already ordered) instrument list up into the portfolio
    /// aggregate: total cost re-derived through the cost-exposure ratios,
    /// total profit/loss, and the portfolio profit/loss rate.  Never fails.
    pub fn create_portfolio_profit_loss(
        portfolio: String,
        target_losses: Vec<TargetProfitLoss>,
        full_position: i64,
    ) -> (r: Result<PortfolioProfitLoss, AppError>)
        requires
            0 < full_position <= MAX_FULL_POSITION,
            forall|j: int|
                0 <= j < target_losses.deep_view().len() ==> target_entry_wf(
                    #[trigger] target_losses.deep_view()[j],
                ),
            sum_targets_cost(target_losses.deep_view(), full_position as int) <= RAT_BOUND,
            sum_targets_abs_pl(target_losses.deep_view()) <= RAT_BOUND,
        ensures
            r matches Ok(p) && p.deep_view() == portfolio_from_targets(
                portfolio@,
                target_losses.deep_view(),
                full_position as int,
            ),
    {
        let ghost tv = target_losses.deep_view();
        let ghost full: int = full_position as int;
        let mut sum_cost: i128 = 0;
        let mut sum_pl: i128 = 0;
        let mut i: usize = 0;
        proof {
            assert(tv.take(0) =~= Seq::<TargetProfitLossV>::empty());
        }
        while i < target_losses.len()
            invariant
                tv == target_losses.deep_view(),
                full == full_position as int,
                0 < full_position <= MAX_FULL_POSITION,
                forall|j: int| 0 <= j < tv.len() ==> target_entry_wf(#[trigger] tv[j]),
                sum_targets_cost(tv, full) <= RAT_BOUND,
                sum_targets_abs_pl(tv) <= RAT_BOUND,
                0 <= i <= tv.len(),
                tv.len() == target_losses@.len(),
                sum_cost == sum_targets_cost(tv.take(i as int), full),
                sum_pl == sum_targets_pl(tv.take(i as int)),
            decreases tv.len() - i,
        {
            proof {
                assert(tv[i as int] == target_losses@[i as int].deep_view());
                assert(target_entry_wf(tv[i as int]));
                assert(0 <= tv[i as int].cost_position_rate.num * full <= RAT_BOUND
                    * RAT_BOUND) by (nonlinear_arith)
                    requires
                        0 <= tv[i as int].cost_position_rate.num <= RAT_BOUND,
                        0 < full <= RAT_BOUND,
                ;
            }
            let t = &target_losses[i];
            let term: i128 = t.cost_position_rate.num * (full_position as i128)
                / t.cost_position_rate.den;
            proof {
                assert(tv.take(i + 1 as int).drop_last() =~= tv.take(i as int));
                assert(tv.take(i + 1 as int).last() == tv[i as int]);
                lemma_target_cost_term_nonneg(tv[i as int], full);
                lemma_sum_targets_cost_prefix(tv, full, i + 1 as int);
                lemma_sum_targets_cost_prefix(tv, full, i as int);
                lemma_sum_targets_abs_pl_prefix(tv, i + 1 as int);
                lemma_sum_targets_pl_abs(tv.take(i as int));
                lemma_sum_targets_pl_abs(tv.take(i + 1 as int));
                lemma_sum_targets_abs_pl_prefix(tv, i as int);
            }
            sum_cost = sum_cost + term;
            sum_pl = sum_pl + t.target_profit_loss;
            i = i + 1;
        }
        proof {
            assert(tv.take(tv.len() as int) =~= tv);
            lemma_sum_targets_cost_prefix(tv, full, tv.len() as int);
            lemma_sum_targets_pl_abs(tv);
            lemma_sum_targets_abs_pl_nonneg(tv);
        }
        let sum_profit_losses_rate = if sum_cost != 0 {
            Rational::new(sum_pl, sum_cost)
        } else {
            Rational::zero()
        };
        let p = PortfolioProfitLoss {
            portfolio,
            full_position,
            target_profit_losses: target_losses,
            sum_position_cost: sum_cost,
            sum_profit_losses: sum_pl,
            sum_profit_losses_rate,
        };
        Ok(p)
    }
}

/// The code keys are pairwise distinct.
proof fn lemma_code_keys_distinct(s: Seq<PositionV>)
    ensures
        forall|a: int, b: int|
            0 <= a < b < code_keys(s).len() ==> (#[trigger] code_keys(s)[a]) != (
            #[trigger] code_keys(s)[b]),
    decreases s.len(),
{
    if s.len() > 0 {
        lemma_code_keys_distinct(s.drop_last());
        let rest = code_keys(s.drop_last());
        if !rest.contains(s.last().code) {
            assert(forall|a: int| 0 <= a < rest.len() ==> (#[trigger] rest[a]) != s.last().code);
            assert(forall|a: int|
                0 <= a < code_keys(s).len() - 1 ==> (#[trigger] code_keys(s)[a]) == rest[a]);
        }
    }
}

/// A code is a key exactly when some position holds it.
proof fn lemma_code_keys_contains(s: Seq<PositionV>, c: Seq<char>)
    ensures
        code_keys(s).contains(c) <==> exists|i: int| 0 <= i < s.len() && (#[trigger] s[i]).code == c,
    decreases s.len(),
{
    if s.len() > 0 {
        lemma_code_keys_contains(s.drop_last(), c);
        let rest = code_keys(s.drop_last());
        if s.last().code == c {
            assert((#[trigger] s[s.len() - 1]).code == c);
            if rest.contains(c) {
            } else {
                assert(code_keys(s)[code_keys(s).len() - 1] == c);
                assert(code_keys(s).contains(c));
            }
        } else {
            if code_keys(s).contains(c) {
                let a = choose|a: int| 0 <= a < code_keys(s).len() && code_keys(s)[a] == c;
                if rest.contains(s.last().code) {
                    assert(rest[a] == c);
                    assert(rest.contains(c));
                } else {
                    assert(a < code_keys(s).len() - 1);
                    assert(rest[a] == c);
                    assert(rest.contains(c));
                }
                let i = choose|i: int|
                    0 <= i < s.drop_last().len() && (#[trigger] s.drop_last()[i]).code == c;
                assert((#[trigger] s[i]).code == c);
            }
            if exists|i: int| 0 <= i < s.len() && (#[trigger] s[i]).code == c {
                let i = choose|i: int| 0 <= i < s.len() && (#[trigger] s[i]).code == c;
                assert(i != s.len() - 1);
                assert((#[trigger] s.drop_last()[i]).code == c);
                assert(rest.contains(c));
                let a = choose|a: int| 0 <= a < rest.len() && rest[a] == c;
                if rest.contains(s.last().code) {
                    assert(code_keys(s)[a] == c);
                } else {
                    assert(code_keys(s)[a] == c);
                }
                assert(code_keys(s).contains(c));
            }
        }
    }
}

/// No position of an absent code, so its group is empty.
proof fn lemma_positions_of_code_absent(s: Seq<PositionV>, c: Seq<char>)
    requires
        forall|i: int| 0 <= i < s.len() ==> (#[trigger] s[i]).code != c,
    ensures
        positions_of_code(s, c) == Seq::<PositionV>::empty(),
    decreases s.len(),
{
    if s.len() > 0 {
        assert(forall|i: int|
            0 <= i < s.drop_last().len() ==> (#[trigger] s.drop_last()[i]) == s[i]);
        lemma_positions_of_code_absent(s.drop_last(), c);
    }
}

/// A code group is a well-formed sub-list of its source.
proof fn lemma_positions_of_code_sub(s: Seq<PositionV>, c: Seq<char>)
    requires
        positions_wf(s),
    ensures
        positions_wf(positions_of_code(s, c)),
        positions_of_code(s, c).len() <= s.len(),
    decreases s.len(),
{
    if s.len() > 0 {
        assert(forall|i: int|
            0 <= i < s.drop_last().len() ==> (#[trigger] s.drop_last()[i]) == s[i]);
        lemma_positions_of_code_sub(s.drop_last(), c);
        let r = positions_of_code(s, c);
        let rest = positions_of_code(s.drop_last(), c);
        if s.last().code == c {
            assert forall|i: int| 0 <= i < r.len() implies (#[trigger] r[i]).wf() by {
                if i < r.len() - 1 {
                    assert(r[i] == rest[i]);
                } else {
                    assert(r[i] == s.last());
                }
            }
        }
    }
}

/// Σ of a weight over the code groups of a key list.
pub open spec fn sum_groups_w(
    ks: Seq<Seq<char>>,
    s: Seq<PositionV>,
    w: spec_fn(PositionV) -> int,
) -> int
    decreases ks.len(),
{
    if ks.len() == 0 {
        0
    } else {
        sum_groups_w(ks.drop_last(), s, w) + sum_w(positions_of_code(s, ks.last()), w)
    }
}

/// Appending a position raises its own group's sum by its weight.
proof fn lemma_sum_w_push(s: Seq<PositionV>, p: PositionV, w: spec_fn(PositionV) -> int)
    ensures
        sum_w(s.push(p), w) == sum_w(s, w) + w(p),
{
    assert(s.push(p).drop_last() =~= s);
    assert(s.push(p).last() == p);
}

/// Appending a position whose code none of the keys carries leaves every
/// group sum unchanged.
proof fn lemma_groups_push_nomatch(
    ks: Seq<Seq<char>>,
    s: Seq<PositionV>,
    p: PositionV,
    w: spec_fn(PositionV) -> int,
)
    requires
        forall|a: int| 0 <= a < ks.len() ==> (#[trigger] ks[a]) != p.code,
    ensures
        sum_groups_w(ks, s.push(p), w) == sum_groups_w(ks, s, w),
    decreases ks.len(),
{
    if ks.len() > 0 {
        assert(forall|a: int|
            0 <= a < ks.drop_last().len() ==> (#[trigger] ks.drop_last()[a]) == ks[a]);
        lemma_groups_push_nomatch(ks.drop_last(), s, p, w);
        assert(s.push(p).drop_last() =~= s);
        assert(positions_of_code(s.push(p), ks.last()) == positions_of_code(s, ks.last()));
    }
}

/// Appending a position whose code is among the (distinct) keys raises the
/// total of the group sums by exactly its weight.
proof fn lemma_groups_push_match(
    ks: Seq<Seq<char>>,
    s: Seq<PositionV>,
    p: PositionV,
    w: spec_fn(PositionV) -> int,
)
    requires
        forall|a: int, b: int| 0 <= a < b < ks.len() ==> (#[trigger] ks[a]) != (#[trigger] ks[b]),
        ks.contains(p.code),
    ensures
        sum_groups_w(ks, s.push(p), w) == sum_groups_w(ks, s, w) + w(p),
    decreases ks.len(),
{
    assert(ks.len() > 0);
    assert(forall|a: int|
        0 <= a < ks.drop_last().len() ==> (#[trigger] ks.drop_last()[a]) == ks[a]);
    assert(s.push(p).drop_last() =~= s);
    if ks.last() == p.code {
        lemma_sum_w_push(positions_of_code(s, ks.last()), p, w);
        assert(forall|a: int| 0 <= a < ks.len() - 1 ==> (#[trigger] ks.drop_last()[a]) != p.code);
        lemma_groups_push_nomatch(ks.drop_last(), s, p, w);
    } else {
        let a = choose|a: int| 0 <= a < ks.len() && ks[a] == p.code;
        assert(a < ks.len() - 1);
        assert(ks.drop_last()[a] == p.code);
        assert(ks.drop_last().contains(p.code));
        assert(forall|x: int, y: int|
            0 <= x < y < ks.drop_last().len() ==> (#[trigger] ks.drop_last()[x]) != (
            #[trigger] ks.drop_last()[y]));
        lemma_groups_push_match(ks.drop_last(), s, p, w);
        assert(positions_of_code(s.push(p), ks.last()) == positions_of_code(s, ks.last()));
    }
}

/// The code groups partition the positions: summing any weight group by
/// group gives the sum over all positions.
proof fn lemma_code_partition(s: Seq<PositionV>, w: spec_fn(PositionV) -> int)
    ensures
        sum_groups_w(code_keys(s), s, w) == sum_w(s, w),
    decreases s.len(),
{
    if s.len() > 0 {
        let s0 = s.drop_last();
        let p = s.last();
        lemma_code_partition(s0, w);
        lemma_code_keys_distinct(s0);
        assert(s0.push(p) =~= s);
        let ks0 = code_keys(s0);
        if ks0.contains(p.code) {
            lemma_groups_push_match(ks0, s0, p, w);
        } else {
            lemma_groups_push_nomatch(ks0, s0, p, w);
            assert(code_keys(s) == ks0.push(p.code));
            assert(code_keys(s).drop_last() =~= ks0);
            lemma_code_keys_contains(s0, p.code);
            assert(forall|i: int| 0 <= i < s0.len() ==> (#[trigger] s0[i]).code != p.code);
            lemma_positions_of_code_absent(s0, p.code);
            assert(positions_of_code(s, p.code) == positions_of_code(s0, p.code).push(p));
            lemma_sum_w_push(positions_of_code(s0, p.code), p, w);
        }
    }
}

/// A weight sum over a constant cap is the length times the cap.
proof fn lemma_sum_w_cap(s: Seq<PositionV>)
    ensures
        sum_w(s, cap_w()) == s.len() * (TRADE_COST_CAP as int),
    decreases s.len(),
{
    if s.len() > 0 {
        lemma_sum_w_cap(s.drop_last());
    }
}

/// Cost, quantity, and profit/loss sums of well-formed positions are bounded
/// by the constant-cap sum.
proof fn lemma_group_sums(g: Seq<PositionV>, price: int)
    requires
        positions_wf(g),
        0 <= price <= MAX_PRICE,
    ensures
        0 <= sum_w(g, cost_w()) <= sum_w(g, cap_w()),
        -sum_w(g, cap_w()) <= sum_w(g, pl_w(price)) <= sum_w(g, cap_w()),
        0 <= sum_w(g, qty_w()) <= g.len() * (MAX_QUANTITY as int),
        0 <= sum_w(g, cap_w()),
    decreases g.len(),
{
    if g.len() > 0 {
        assert(forall|i: int|
            0 <= i < g.drop_last().len() ==> (#[trigger] g.drop_last()[i]) == g[i]);
        lemma_group_sums(g.drop_last(), price);
        assert(g[g.len() - 1].wf());
        crate::position::lemma_trade_product_bounded(g.last().buy_price, g.last().quantity);
        crate::position::lemma_trade_product_bounded(price - g.last().buy_price, g.last().quantity);
        assert(cost_w()(g.last()) == g.last().buy_price * g.last().quantity);
        assert(pl_w(price)(g.last()) == (price - g.last().buy_price) * g.last().quantity);
        assert(cap_w()(g.last()) == (MAX_PRICE as int) * (MAX_QUANTITY as int));
    }
}

/// Every instrument entry built over a key list is well-formed, and the
/// portfolio-level sums over those entries are bounded by the constant-cap
/// sums of the groups.
proof fn lemma_targets_raw_wf(
    ks: Seq<Seq<char>>,
    ps: Seq<PositionV>,
    quotes: Map<Seq<char>, QuoteV>,
    full: int,
)
    requires
        positions_wf(ps),
        ps.len() <= MAX_POSITIONS,
        prices_in_range(quotes),
        0 < full <= MAX_FULL_POSITION,
    ensures
        forall|j: int|
            0 <= j < targets_raw(ks, ps, quotes, full).len() ==> target_entry_wf(
                #[trigger] targets_raw(ks, ps, quotes, full)[j],
            ),
        0 <= sum_targets_cost(targets_raw(ks, ps, quotes, full), full) <= sum_groups_w(
            ks,
            ps,
            cap_w(),
        ),
        0 <= sum_targets_abs_pl(targets_raw(ks, ps, quotes, full)) <= sum_groups_w(
            ks,
            ps,
            cap_w(),
        ),
    decreases ks.len(),
{
    if ks.len() == 0 {
    } else {
        lemma_targets_raw_wf(ks.drop_last(), ps, quotes, full);
        let g = positions_of_code(ps, ks.last());
        lemma_positions_of_code_sub(ps, ks.last());
        let r = targets_raw(ks, ps, quotes, full);
        let rest = targets_raw(ks.drop_last(), ps, quotes, full);
        if quotes.contains_key(ks.last()) {
            let q = quotes[ks.last()];
            assert(0 <= q.price <= MAX_PRICE);
            lemma_group_sums(g, q.price);
            lemma_sum_w_cap(g);
            lemma_sum_w_cap(ps);
            let t = spec_target(ks.last(), q, g, full);
            assert(g.len() * (TRADE_COST_CAP as int) <= ps.len() * (TRADE_COST_CAP as int));
            assert(target_entry_wf(t));
            assert forall|j: int| 0 <= j < r.len() implies target_entry_wf(#[trigger] r[j]) by {
                if j < r.len() - 1 {
                    assert(r[j] == rest[j]);
                } else {
                    assert(r[j] == t);
                }
            }
            // The cost term re-derived through the ratio is exactly the group cost.
            assert(t.cost_position_rate.num * full == full * sum_w(g, cost_w()));
            vstd::arithmetic::div_mod::lemma_div_multiples_vanish(sum_w(g, cost_w()), full);
            assert(t.cost_position_rate.num * full / t.cost_position_rate.den == sum_w(
                g,
                cost_w(),
            ));
            assert(r.drop_last() =~= rest);
            assert(r.last() == t);
            assert(sum_targets_cost(r, full) == sum_targets_cost(rest, full) + (
            t.cost_position_rate.num * full / t.cost_position_rate.den));
            assert(sum_targets_abs_pl(r) == sum_targets_abs_pl(rest) + vstd::math::abs(
                t.target_profit_loss,
            ));
            assert(sum_groups_w(ks, ps, cap_w()) == sum_groups_w(ks.drop_last(), ps, cap_w())
                + sum_w(g, cap_w()));
            assert(vstd::math::abs(t.target_profit_loss) <= sum_w(g, cap_w()));
        } else {
            assert(r == rest);
            lemma_group_sums(g, 0);
            lemma_sum_w_cap(g);
            assert(sum_groups_w(ks, ps, cap_w()) == sum_groups_w(ks.drop_last(), ps, cap_w())
                + sum_w(g, cap_w()));
        }
    }
}

/// Prepending an instrument entry raises each portfolio-level sum by its term.
proof fn lemma_sum_targets_prepend(a: TargetProfitLossV, s: Seq<TargetProfitLossV>, full: int)
    ensures
        sum_targets_cost(seq![a] + s, full) == (a.cost_position_rate.num * full
            / a.cost_position_rate.den) + sum_targets_cost(s, full),
        sum_targets_pl(seq![a] + s) == a.target_profit_loss + sum_targets_pl(s),
        sum_targets_abs_pl(seq![a] + s) == vstd::math::abs(a.target_profit_loss)
            + sum_targets_abs_pl(s),
    decreases s.len(),
{
    let r = seq![a] + s;
    if s.len() == 0 {
        assert(r.drop_last() =~= Seq::<TargetProfitLossV>::empty());
        assert(r.last() == a);
        assert(r.len() == 1);
        assert(sum_targets_cost(r, full) == sum_targets_cost(r.drop_last(), full) + (
        r.last().cost_position_rate.num * full / r.last().cost_position_rate.den));
        assert(sum_targets_cost(Seq::<TargetProfitLossV>::empty(), full) == 0);
        assert(sum_targets_pl(Seq::<TargetProfitLossV>::empty()) == 0);
        assert(sum_targets_abs_pl(Seq::<TargetProfitLossV>::empty()) == 0);
        assert(sum_targets_cost(s, full) == 0);
        assert(sum_targets_pl(s) == 0);
        assert(sum_targets_abs_pl(s) == 0);
    } else {
        lemma_sum_targets_prepend(a, s.drop_last(), full);
        assert(r.drop_last() =~= seq![a] + s.drop_last());
        assert(r.last() == s.last());
        assert(sum_targets_cost(r, full) == sum_targets_cost(r.drop_last(), full) + (
        r.last().cost_position_rate.num * full / r.last().cost_position_rate.den));
        assert(sum_targets_cost(s, full) == sum_targets_cost(s.drop_last(), full) + (
        s.last().cost_position_rate.num * full / s.last().cost_position_rate.den));
        assert(sum_targets_pl(s) == sum_targets_pl(s.drop_last()) + s.last().target_profit_loss);
        assert(sum_targets_abs_pl(s) == sum_targets_abs_pl(s.drop_last()) + vstd::math::abs(
            s.last().target_profit_loss,
        ));
    }
}

/// Inserting an instrument entry raises each portfolio-level sum by its term.
proof fn lemma_insert_target_sums(s: Seq<TargetProfitLossV>, x: TargetProfitLossV, full: int)
    ensures
        sum_targets_cost(insert_target_desc(s, x), full) == sum_targets_cost(s, full) + (
        x.cost_position_rate.num * full / x.cost_position_rate.den),
        sum_targets_pl(insert_target_desc(s, x)) == sum_targets_pl(s)
            + x.target_profit_loss,
        sum_targets_abs_pl(insert_target_desc(s, x)) == sum_targets_abs_pl(s)
            + vstd::math::abs(x.target_profit_loss),
    decreases s.len(),
{
    if s.len() > 0 && x.cost_position_rate.le_spec(s[0].cost_position_rate) {
        lemma_insert_target_sums(s.drop_first(), x, full);
        let rest = insert_target_desc(s.drop_first(), x);
        assert(insert_target_desc(s, x) == seq![s[0]] + rest);
        lemma_sum_targets_prepend(s[0], rest, full);
        lemma_sum_targets_prepend(s[0], s.drop_first(), full);
        assert(seq![s[0]] + s.drop_first() =~= s);
    } else {
        assert(insert_target_desc(s, x) == seq![x] + s);
        lemma_sum_targets_prepend(x, s, full);
    }
}

/// Sorting the instrument list leaves every portfolio-level sum unchanged.
proof fn lemma_sort_targets_sums(s: Seq<TargetProfitLossV>, full: int)
    ensures
        sum_targets_cost(sort_targets_desc(s), full) == sum_targets_cost(s, full),
        sum_targets_pl(sort_targets_desc(s)) == sum_targets_pl(s),
        sum_targets_abs_pl(sort_targets_desc(s)) == sum_targets_abs_pl(s),
    decreases s.len(),
{
    if s.len() > 0 {
        lemma_sort_targets_sums(s.drop_last(), full);
        lemma_insert_target_sums(sort_targets_desc(s.drop_last()), s.last(), full);
    }
}

/// The portfolio keys are pairwise distinct.
proof fn lemma_portfolio_keys_distinct(s: Seq<PositionV>)
    ensures
        forall|a: int, b: int|
            0 <= a < b < portfolio_keys(s).len() ==> (#[trigger] portfolio_keys(s)[a]) != (
            #[trigger] portfolio_keys(s)[b]),
    decreases s.len(),
{
    if s.len() > 0 {
        lemma_portfolio_keys_distinct(s.drop_last());
        let rest = portfolio_keys(s.drop_last());
        if !rest.contains(s.last().portfolio) {
            assert(forall|a: int|
                0 <= a < rest.len() ==> (#[trigger] rest[a]) != s.last().portfolio);
            assert(forall|a: int|
                0 <= a < portfolio_keys(s).len() - 1 ==> (#[trigger] portfolio_keys(s)[a])
                    == rest[a]);
        }
    }
}

/// A name is a key exactly when some position belongs to it.
proof fn lemma_portfolio_keys_contains(s: Seq<PositionV>, c: Seq<char>)
    ensures
        portfolio_keys(s).contains(c) <==> exists|i: int|
            0 <= i < s.len() && (#[trigger] s[i]).portfolio == c,
    decreases s.len(),
{
    if s.len() > 0 {
        lemma_portfolio_keys_contains(s.drop_last(), c);
        let rest = portfolio_keys(s.drop_last());
        if s.last().portfolio == c {
            assert((#[trigger] s[s.len() - 1]).portfolio == c);
            if rest.contains(c) {
            } else {
                assert(portfolio_keys(s)[portfolio_keys(s).len() - 1] == c);
                assert(portfolio_keys(s).contains(c));
            }
        } else {
            if portfolio_keys(s).contains(c) {
                let a = choose|a: int|
                    0 <= a < portfolio_keys(s).len() && portfolio_keys(s)[a] == c;
                if rest.contains(s.last().portfolio) {
                    assert(rest[a] == c);
                } else {
                    assert(a < portfolio_keys(s).len() - 1);
                    assert(rest[a] == c);
                }
                assert(rest.contains(c));
                let i = choose|i: int|
                    0 <= i < s.drop_last().len() && (#[trigger] s.drop_last()[i]).portfolio == c;
                assert((#[trigger] s[i]).portfolio == c);
            }
            if exists|i: int| 0 <= i < s.len() && (#[trigger] s[i]).portfolio == c {
                let i = choose|i: int| 0 <= i < s.len() && (#[trigger] s[i]).portfolio == c;
                assert(i != s.len() - 1);
                assert((#[trigger] s.drop_last()[i]).portfolio == c);
                assert(rest.contains(c));
                let a = choose|a: int| 0 <= a < rest.len() && rest[a] == c;
                if rest.contains(s.last().portfolio) {
                    assert(portfolio_keys(s)[a] == c);
                } else {
                    assert(portfolio_keys(s)[a] == c);
                }
                assert(portfolio_keys(s).contains(c));
            }
        }
    }
}

/// No position of an absent portfolio, so its group is empty.
proof fn lemma_positions_of_portfolio_absent(s: Seq<PositionV>, c: Seq<char>)
    requires
        forall|i: int| 0 <= i < s.len() ==> (#[trigger] s[i]).portfolio != c,
    ensures
        positions_of_portfolio(s, c) == Seq::<PositionV>::empty(),
    decreases s.len(),
{
    if s.len() > 0 {
        assert(forall|i: int|
            0 <= i < s.drop_last().len() ==> (#[trigger] s.drop_last()[i]) == s[i]);
        lemma_positions_of_portfolio_absent(s.drop_last(), c);
    }
}

/// A portfolio group is a well-formed sub-list of its source.
proof fn lemma_positions_of_portfolio_sub(s: Seq<PositionV>, c: Seq<char>)
    requires
        positions_wf(s),
    ensures
        positions_wf(positions_of_portfolio(s, c)),
        positions_of_portfolio(s, c).len() <= s.len(),
    decreases s.len(),
{
    if s.len() > 0 {
        assert(forall|i: int|
            0 <= i < s.drop_last().len() ==> (#[trigger] s.drop_last()[i]) == s[i]);
        lemma_positions_of_portfolio_sub(s.drop_last(), c);
        let r = positions_of_portfolio(s, c);
        let rest = positions_of_portfolio(s.drop_last(), c);
        if s.last().portfolio == c {
            assert forall|i: int| 0 <= i < r.len() implies (#[trigger] r[i]).wf() by {
                if i < r.len() - 1 {
                    assert(r[i] == rest[i]);
                } else {
                    assert(r[i] == s.last());
                }
            }
        }
    }
}

/// The open positions form a well-formed sub-list of the input.
proof fn lemma_open_positions_sub(s: Seq<PositionV>)
    requires
        positions_wf(s),
    ensures
        positions_wf(open_positions(s)),
        open_positions(s).len() <= s.len(),
    decreases s.len(),
{
    if s.len() > 0 {
        assert(forall|i: int|
            0 <= i < s.drop_last().len() ==> (#[trigger] s.drop_last()[i]) == s[i]);
        lemma_open_positions_sub(s.drop_last());
        let r = open_positions(s);
        let rest = open_positions(s.drop_last());
        if s.last().status == PositionStatus::Open {
            assert forall|i: int| 0 <= i < r.len() implies (#[trigger] r[i]).wf() by {
                if i < r.len() - 1 {
                    assert(r[i] == rest[i]);
                } else {
                    assert(r[i] == s.last());
                }
            }
        }
    }
}

/// First index whose key reads exactly as `code`, scanning left to right.
fn find_key(keys: &Vec<String>, code: &str) -> (r: Option<usize>)
    ensures
        match r {
            Some(k) => 0 <= k < keys@.len() && keys@[k as int]@ == code@,
            None => forall|j: int| 0 <= j < keys@.len() ==> (#[trigger] keys@[j])@ != code@,
        },
{
    let mut k: usize = 0;
    while k < keys.len()
        invariant
            0 <= k <= keys@.len(),
            forall|j: int| 0 <= j < k ==> (#[trigger] keys@[j])@ != code@,
        decreases keys@.len() - k,
    {
        if crate::text::str_eq(keys[k].as_str(), code) {
            return Some(k);
        }
        k = k + 1;
    }
    None
}

impl PortfolioService {
    /// Aggregate one portfolio's open positions: group them by code, build
    /// one instrument aggregate per quoted code (unquoted codes are silently
    /// excluded), order the instruments by cost-exposure ratio descending,
    /// and roll up the portfolio totals.
    fn build_portfolio(
        name: String,
        group: Vec<Position>,
        quotes: &QuoteMap,
        full_position: i64,
    ) -> (r: Result<PortfolioProfitLoss, AppError>)
        requires
            positions_wf(group.deep_view()),
            group.deep_view().len() <= MAX_POSITIONS,
            quotes.wf(),
            0 < full_position <= MAX_FULL_POSITION,
        ensures
            r matches Ok(p) && p.deep_view() == spec_portfolio(
                name@,
                group.deep_view(),
                quotes@,
                full_position as int,
            ),
    {
        let ghost gv = group.deep_view();
        let ghost full: int = full_position as int;
        let mut rest = group;
        let mut ckeys: Vec<String> = Vec::new();
        let mut cgroups: Vec<Vec<Position>> = Vec::new();
        let ghost mut i: int = 0;
        proof {
            assert(ckeys.deep_view() =~~= code_keys(gv.take(0)));
        }
        while rest.len() > 0
            invariant
                0 <= i <= gv.len(),
                positions_wf(gv),
                gv.len() == rest.deep_view().len() + i,
                rest.deep_view() == gv.skip(i),
                ckeys.deep_view() == code_keys(gv.take(i)),
                ckeys@.len() == cgroups@.len(),
                ckeys@.len() == ckeys.deep_view().len(),
                forall|k: int|
                    0 <= k < cgroups@.len() ==> (#[trigger] cgroups@[k]).deep_view()
                        == positions_of_code(gv.take(i), ckeys.deep_view()[k]),
            decreases rest@.len(),
        {
            let ghost rest_pre = rest.deep_view();
            let ghost restv_pre = rest@;
            let ghost tk = gv.take(i);
            let ghost tk1 = gv.take(i + 1);
            let p = rest.remove(0);
            proof {
                assert(p.deep_view() == rest_pre[0]);
                assert(rest_pre[0] == gv[i]);
                assert forall|j: int|
                    0 <= j < rest.deep_view().len() implies (#[trigger] rest.deep_view()[j])
                    == gv.skip(i + 1)[j] by {
                    assert(rest@[j] == restv_pre[j + 1]);
                    assert(rest.deep_view()[j] == rest@[j].deep_view());
                    assert(rest_pre[j + 1] == restv_pre[j + 1].deep_view());
                    assert(rest_pre[j + 1] == gv.skip(i)[j + 1]);
                }
                assert(rest.deep_view() =~= gv.skip(i + 1));
                assert(tk1.drop_last() =~= tk);
                assert(tk1.last() == gv[i]);
                lemma_code_keys_distinct(tk);
            }
            let ghost pv = p.deep_view();
            match find_key(&ckeys, p.code.as_str()) {
                Some(k) => {
                    proof {
                        assert(ckeys.deep_view()[k as int] == ckeys@[k as int]@);
                        assert(code_keys(tk)[k as int] == pv.code);
                        assert(code_keys(tk).contains(pv.code));
                        assert(code_keys(tk1) == code_keys(tk));
                    }
                    let ghost groups_pre = cgroups@;
                    let ghost cg_pre = cgroups@[k as int].deep_view();
                    let mut cg = cgroups.remove(k);
                    cg.push(p);
                    cgroups.insert(k, cg);
                    proof {
                        assert forall|j: int|
                            0 <= j < cgroups@.len() implies (#[trigger] cgroups@[j]).deep_view()
                            == positions_of_code(tk1, code_keys(tk1)[j]) by {
                            if j == k {
                                assert(cgroups@[j]@ == groups_pre[j]@.push(p));
                                assert(cgroups@[j].deep_view() =~~= cg_pre.push(pv));
                                assert(positions_of_code(tk1, pv.code) == positions_of_code(
                                    tk,
                                    pv.code,
                                ).push(gv[i]));
                            } else {
                                assert(cgroups@[j] == groups_pre[j]);
                                assert(code_keys(tk)[j] != code_keys(tk)[k as int]);
                                assert(positions_of_code(tk1, code_keys(tk1)[j])
                                    == positions_of_code(tk, code_keys(tk)[j]));
                            }
                        }
                    }
                },
                None => {
                    proof {
                        assert(!code_keys(tk).contains(pv.code)) by {
                            if code_keys(tk).contains(pv.code) {
                                let a = choose|a: int|
                                    0 <= a < code_keys(tk).len() && code_keys(tk)[a] == pv.code;
                                assert(ckeys@[a]@ == pv.code);
                            }
                        }
                        assert(code_keys(tk1) == code_keys(tk).push(pv.code));
                        lemma_code_keys_contains(tk, pv.code);
                        assert(forall|j: int|
                            0 <= j < tk.len() ==> (#[trigger] tk[j]).code != pv.code);
                        lemma_positions_of_code_absent(tk, pv.code);
                        assert(positions_of_code(tk1, pv.code) == positions_of_code(
                            tk,
                            pv.code,
                        ).push(gv[i]));
                    }
                    let ghost keys_pre = ckeys.deep_view();
                    let ghost groups_pre = cgroups@;
                    let key = p.code.clone();
                    ckeys.push(key);
                    let mut ng: Vec<Position> = Vec::new();
                    ng.push(p);
                    cgroups.push(ng);
                    proof {
                        assert(ckeys.deep_view() =~~= keys_pre.push(pv.code));
                        assert forall|j: int|
                            0 <= j < cgroups@.len() implies (#[trigger] cgroups@[j]).deep_view()
                            == positions_of_code(tk1, ckeys.deep_view()[j]) by {
                            if j < cgroups@.len() - 1 {
                                assert(cgroups@[j] == groups_pre[j]);
                                assert(ckeys.deep_view()[j] == keys_pre[j]);
                                assert(code_keys(tk)[j] != pv.code) by {
                                    if code_keys(tk)[j] == pv.code {
                                        assert(code_keys(tk).contains(pv.code));
                                    }
                                }
                                assert(positions_of_code(tk1, keys_pre[j]) == positions_of_code(
                                    tk,
                                    keys_pre[j],
                                ));
                            } else {
                                assert(cgroups@[j]@ == Seq::<Position>::empty().push(p));
                                assert(cgroups@[j].deep_view() =~~= Seq::<
                                    PositionV,
                                >::empty().push(pv));
                                assert(ckeys.deep_view()[j] == pv.code);
                            }
                        }
                    }
                },
            }
            proof {
                i = i + 1;
            }
        }
        proof {
            assert(gv.skip(i).len() == 0);
            assert(gv.take(i) =~= gv);
        }
        // One instrument aggregate per quoted code, in key order.
        let ghost ks0 = code_keys(gv);
        let mut targets: Vec<TargetProfitLoss> = Vec::new();
        let ghost mut k: int = 0;
        proof {
            assert(targets.deep_view() =~~= targets_raw(ks0.take(0), gv, quotes@, full));
        }
        while ckeys.len() > 0
            invariant
                0 <= k <= ks0.len(),
                positions_wf(gv),
                gv.len() <= MAX_POSITIONS,
                quotes.wf(),
                0 < full_position <= MAX_FULL_POSITION,
                full == full_position as int,
                ks0 == code_keys(gv),
                ks0.len() == ckeys.deep_view().len() + k,
                ckeys.deep_view() == ks0.skip(k),
                ckeys@.len() == cgroups@.len(),
                ckeys@.len() == ckeys.deep_view().len(),
                forall|j: int|
                    0 <= j < cgroups@.len() ==> (#[trigger] cgroups@[j]).deep_view()
                        == positions_of_code(gv, ckeys.deep_view()[j]),
                targets.deep_view() == targets_raw(ks0.take(k), gv, quotes@, full),
            decreases ckeys@.len(),
        {
            let ghost keys_pre = ckeys.deep_view();
            let ghost keysv_pre = ckeys@;
            let ghost groups_pre = cgroups@;
            let key = ckeys.remove(0);
            let cg = cgroups.remove(0);
            proof {
                assert(key@ == keys_pre[0]);
                assert(keys_pre[0] == ks0[k]);
                assert(cg.deep_view() == positions_of_code(gv, ks0[k]));
                assert forall|j: int|
                    0 <= j < ckeys.deep_view().len() implies (#[trigger] ckeys.deep_view()[j])
                    == ks0.skip(k + 1)[j] by {
                    assert(ckeys@[j] == keysv_pre[j + 1]);
                    assert(ckeys.deep_view()[j] == ckeys@[j]@);
                    assert(keys_pre[j + 1] == keysv_pre[j + 1]@);
                    assert(keys_pre[j + 1] == ks0.skip(k)[j + 1]);
                }
                assert(ckeys.deep_view() =~= ks0.skip(k + 1));
                assert forall|j: int|
                    0 <= j < cgroups@.len() implies (#[trigger] cgroups@[j]).deep_view()
                    == positions_of_code(gv, ckeys.deep_view()[j]) by {
                    assert(cgroups@[j] == groups_pre[j + 1]);
                    assert(ckeys.deep_view()[j] == keys_pre[j + 1]);
                }
                assert(ks0.take(k + 1).drop_last() =~= ks0.take(k));
                assert(ks0.take(k + 1).last() == ks0[k]);
                lemma_positions_of_code_sub(gv, ks0[k]);
            }
            match quotes.get(key.as_str()) {
                Some(q) => {
                    let t = match Self::create_target_profit_loss(
                        key.as_str(),
                        q,
                        cg,
                        full_position,
                    ) {
                        Ok(t) => t,
                        Err(e) => {
                            return Err(e);
                        },
                    };
                    let ghost targets_pre = targets.deep_view();
                    targets.push(t);
                    proof {
                        assert(targets.deep_view() =~~= targets_pre.push(t.deep_view()));
                        assert(t.deep_view() == spec_target(
                            ks0[k],
                            quotes@[ks0[k]],
                            positions_of_code(gv, ks0[k]),
                            full,
                        ));
                    }
                },
                None => {
                },
            }
            proof {
                k = k + 1;
            }
        }
        proof {
            assert(ks0.skip(k).len() == 0);
            assert(ks0.take(k) =~= ks0);
        }
        let ghost raw = targets_raw(ks0, gv, quotes@, full);
        proof {
            quotes.lemma_prices_in_range();
            lemma_targets_raw_wf(ks0, gv, quotes@, full);
        }
        let sorted = sort_targets(targets);
        proof {
            lemma_sort_targets_sums(raw, full);
            lemma_sort_targets_preserves_alias(raw);
            lemma_code_partition(gv, cap_w());
            lemma_sum_w_cap(gv);
            assert(gv.len() * (TRADE_COST_CAP as int) <= (MAX_POSITIONS as int) * (
            TRADE_COST_CAP as int));
        }
        let pp = match Self::create_portfolio_profit_loss(name, sorted, full_position) {
            Ok(p) => p,
            Err(e) => {
                return Err(e);
            },
        };
        Ok(pp)
    }

    /// Aggregate all positions: keep the open ones, group them by portfolio
    /// in order of first appearance, and aggregate each portfolio.  The
    /// engine itself raises no errors.
    pub fn aggregate_positions(
        positions: Vec<Position>,
        quotes: &QuoteMap,
        full_position: i64,
    ) -> (r: Result<Vec<PortfolioProfitLoss>, AppError>)
        requires
            positions_wf(positions.deep_view()),
            positions.deep_view().len() <= MAX_POSITIONS,
            quotes.wf(),
            0 < full_position <= MAX_FULL_POSITION,
        ensures
            r matches Ok(v) && v.deep_view() == spec_aggregate(
                positions.deep_view(),
                quotes@,
                full_position as int,
            ),
    {
        let ghost pv = positions.deep_view();
        let ghost full: int = full_position as int;
        // Keep the open positions.
        let mut rest = positions;
        let mut opened: Vec<Position> = Vec::new();
        let ghost mut i: int = 0;
        proof {
            assert(opened.deep_view() =~~= open_positions(pv.take(0)));
        }
        while rest.len() > 0
            invariant
                0 <= i <= pv.len(),
                positions_wf(pv),
                pv.len() == rest.deep_view().len() + i,
                rest.deep_view() == pv.skip(i),
                opened.deep_view() == open_positions(pv.take(i)),
            decreases rest@.len(),
        {
            let ghost rest_pre = rest.deep_view();
            let ghost restv_pre = rest@;
            let p = rest.remove(0);
            proof {
                assert(p.deep_view() == rest_pre[0]);
                assert(rest_pre[0] == pv[i]);
                assert forall|j: int|
                    0 <= j < rest.deep_view().len() implies (#[trigger] rest.deep_view()[j])
                    == pv.skip(i + 1)[j] by {
                    assert(rest@[j] == restv_pre[j + 1]);
                    assert(rest.deep_view()[j] == rest@[j].deep_view());
                    assert(rest_pre[j + 1] == restv_pre[j + 1].deep_view());
                    assert(rest_pre[j + 1] == pv.skip(i)[j + 1]);
                }
                assert(rest.deep_view() =~= pv.skip(i + 1));
                assert(pv.take(i + 1).drop_last() =~= pv.take(i));
                assert(pv.take(i + 1).last() == pv[i]);
            }
            let ghost opened_pre = opened.deep_view();
            if p.is_position() {
                opened.push(p);
                proof {
                    assert(opened.deep_view() =~~= opened_pre.push(pv[i]));
                }
            }
            proof {
                i = i + 1;
            }
        }
        proof {
            assert(pv.skip(i).len() == 0);
            assert(pv.take(i) =~= pv);
        }
        let ghost ov = open_positions(pv);
        proof {
            lemma_open_positions_sub(pv);
        }
        // Group by portfolio, in order of first appearance.
        let mut keys: Vec<String> = Vec::new();
        let mut groups: Vec<Vec<Position>> = Vec::new();
        let mut orest = opened;
        let ghost mut oi: int = 0;
        proof {
            assert(keys.deep_view() =~~= portfolio_keys(ov.take(0)));
        }
        while orest.len() > 0
            invariant
                0 <= oi <= ov.len(),
                positions_wf(ov),
                ov.len() == orest.deep_view().len() + oi,
                orest.deep_view() == ov.skip(oi),
                keys.deep_view() == portfolio_keys(ov.take(oi)),
                keys@.len() == groups@.len(),
                keys@.len() == keys.deep_view().len(),
                forall|k: int|
                    0 <= k < groups@.len() ==> (#[trigger] groups@[k]).deep_view()
                        == positions_of_portfolio(ov.take(oi), keys.deep_view()[k]),
            decreases orest@.len(),
        {
            let ghost rest_pre = orest.deep_view();
            let ghost restv_pre = orest@;
            let ghost tk = ov.take(oi);
            let ghost tk1 = ov.take(oi + 1);
            let p = orest.remove(0);
            proof {
                assert(p.deep_view() == rest_pre[0]);
                assert(rest_pre[0] == ov[oi]);
                assert forall|j: int|
                    0 <= j < orest.deep_view().len() implies (#[trigger] orest.deep_view()[j])
                    == ov.skip(oi + 1)[j] by {
                    assert(orest@[j] == restv_pre[j + 1]);
                    assert(orest.deep_view()[j] == orest@[j].deep_view());
                    assert(rest_pre[j + 1] == restv_pre[j + 1].deep_view());
                    assert(rest_pre[j + 1] == ov.skip(oi)[j + 1]);
                }
                assert(orest.deep_view() =~= ov.skip(oi + 1));
                assert(tk1.drop_last() =~= tk);
                assert(tk1.last() == ov[oi]);
                lemma_portfolio_keys_distinct(tk);
            }
            let ghost pw = p.deep_view();
            match find_key(&keys, p.portfolio.as_str()) {
                Some(k) => {
                    proof {
                        assert(keys.deep_view()[k as int] == keys@[k as int]@);
                        assert(portfolio_keys(tk)[k as int] == pw.portfolio);
                        assert(portfolio_keys(tk).contains(pw.portfolio));
                        assert(portfolio_keys(tk1) == portfolio_keys(tk));
                    }
                    let ghost groups_pre = groups@;
                    let ghost g_pre = groups@[k as int].deep_view();
                    let mut g = groups.remove(k);
                    g.push(p);
                    groups.insert(k, g);
                    proof {
                        assert forall|j: int|
                            0 <= j < groups@.len() implies (#[trigger] groups@[j]).deep_view()
                            == positions_of_portfolio(tk1, portfolio_keys(tk1)[j]) by {
                            if j == k {
                                assert(groups@[j]@ == groups_pre[j]@.push(p));
                                assert(groups@[j].deep_view() =~~= g_pre.push(pw));
                                assert(positions_of_portfolio(tk1, pw.portfolio)
                                    == positions_of_portfolio(tk, pw.portfolio).push(ov[oi]));
                            } else {
                                assert(groups@[j] == groups_pre[j]);
                                assert(portfolio_keys(tk)[j] != portfolio_keys(tk)[k as int]);
                                assert(positions_of_portfolio(tk1, portfolio_keys(tk1)[j])
                                    == positions_of_portfolio(tk, portfolio_keys(tk)[j]));
                            }
                        }
                    }
                },
                None => {
                    proof {
                        assert(!portfolio_keys(tk).contains(pw.portfolio)) by {
                            if portfolio_keys(tk).contains(pw.portfolio) {
                                let a = choose|a: int|
                                    0 <= a < portfolio_keys(tk).len() && portfolio_keys(tk)[a]
                                        == pw.portfolio;
                                assert(keys@[a]@ == pw.portfolio);
                            }
                        }
                        assert(portfolio_keys(tk1) == portfolio_keys(tk).push(pw.portfolio));
                        lemma_portfolio_keys_contains(tk, pw.portfolio);
                        assert(forall|j: int|
                            0 <= j < tk.len() ==> (#[trigger] tk[j]).portfolio != pw.portfolio);
                        lemma_positions_of_portfolio_absent(tk, pw.portfolio);
                        assert(positions_of_portfolio(tk1, pw.portfolio)
                            == positions_of_portfolio(tk, pw.portfolio).push(ov[oi]));
                    }
                    let ghost keys_pre = keys.deep_view();
                    let ghost groups_pre = groups@;
                    let key = p.portfolio.clone();
                    keys.push(key);
                    let mut ng: Vec<Position> = Vec::new();
                    ng.push(p);
                    groups.push(ng);
                    proof {
                        assert(keys.deep_view() =~~= keys_pre.push(pw.portfolio));
                        assert forall|j: int|
                            0 <= j < groups@.len() implies (#[trigger] groups@[j]).deep_view()
                            == positions_of_portfolio(tk1, keys.deep_view()[j]) by {
                            if j < groups@.len() - 1 {
                                assert(groups@[j] == groups_pre[j]);
                                assert(keys.deep_view()[j] == keys_pre[j]);
                                assert(portfolio_keys(tk)[j] != pw.portfolio) by {
                                    if portfolio_keys(tk)[j] == pw.portfolio {
                                        assert(portfolio_keys(tk).contains(pw.portfolio));
                                    }
                                }
                                assert(positions_of_portfolio(tk1, keys_pre[j])
                                    == positions_of_portfolio(tk, keys_pre[j]));
                            } else {
                                assert(groups@[j]@ == Seq::<Position>::empty().push(p));
                                assert(groups@[j].deep_view() =~~= Seq::<
                                    PositionV,
                                >::empty().push(pw));
                                assert(keys.deep_view()[j] == pw.portfolio);
                            }
                        }
                    }
                },
            }
            proof {
                oi = oi + 1;
            }
        }
        proof {
            assert(ov.skip(oi).len() == 0);
            assert(ov.take(oi) =~= ov);
        }
        // Aggregate each portfolio.
        let ghost keys0 = portfolio_keys(ov);
        let mut result: Vec<PortfolioProfitLoss> = Vec::new();
        let ghost mut k: int = 0;
        while keys.len() > 0
            invariant
                0 <= k <= keys0.len(),
                positions_wf(ov),
                ov.len() <= MAX_POSITIONS,
                quotes.wf(),
                0 < full_position <= MAX_FULL_POSITION,
                full == full_position as int,
                keys0 == portfolio_keys(ov),
                keys0.len() == keys.deep_view().len() + k,
                keys.deep_view() == keys0.skip(k),
                keys@.len() == groups@.len(),
                keys@.len() == keys.deep_view().len(),
                forall|j: int|
                    0 <= j < groups@.len() ==> (#[trigger] groups@[j]).deep_view()
                        == positions_of_portfolio(ov, keys.deep_view()[j]),
                result.deep_view().len() == k,
                forall|j: int|
                    0 <= j < k ==> (#[trigger] result.deep_view()[j]) == spec_portfolio(
                        keys0[j],
                        positions_of_portfolio(ov, keys0[j]),
                        quotes@,
                        full,
                    ),
            decreases keys@.len(),
        {
            let ghost keys_pre = keys.deep_view();
            let ghost keysv_pre = keys@;
            let ghost groups_pre = groups@;
            let name = keys.remove(0);
            let g = groups.remove(0);
            proof {
                assert(name@ == keys_pre[0]);
                assert(keys_pre[0] == keys0[k]);
                assert(g.deep_view() == positions_of_portfolio(ov, keys0[k]));
                assert forall|j: int|
                    0 <= j < keys.deep_view().len() implies (#[trigger] keys.deep_view()[j])
                    == keys0.skip(k + 1)[j] by {
                    assert(keys@[j] == keysv_pre[j + 1]);
                    assert(keys.deep_view()[j] == keys@[j]@);
                    assert(keys_pre[j + 1] == keysv_pre[j + 1]@);
                    assert(keys_pre[j + 1] == keys0.skip(k)[j + 1]);
                }
                assert(keys.deep_view() =~= keys0.skip(k + 1));
                assert forall|j: int|
                    0 <= j < groups@.len() implies (#[trigger] groups@[j]).deep_view()
                    == positions_of_portfolio(ov, keys.deep_view()[j]) by {
                    assert(groups@[j] == groups_pre[j + 1]);
                    assert(keys.deep_view()[j] == keys_pre[j + 1]);
                }
                lemma_positions_of_portfolio_sub(ov, keys0[k]);
            }
            let pp = match Self::build_portfolio(name, g, quotes, full_position) {
                Ok(p) => p,
                Err(e) => {
                    return Err(e);
                },
            };
            let ghost result_pre = result.deep_view();
            result.push(pp);
            proof {
                assert(result.deep_view() =~~= result_pre.push(pp.deep_view()));
                k = k + 1;
            }
        }
        proof {
            assert(keys0.skip(k).len() == 0);
            assert(k == keys0.len());
            assert(result.deep_view() =~= spec_aggregate(pv, quotes@, full));
        }
        Ok(result)
    }
}

/// Σ of the instruments' cost-exposure numerators — each numerator is, by
/// construction, that instrument's total cost.
pub open spec fn sum_target_cost_nums(ts: Seq<TargetProfitLossV>) -> int
    decreases ts.len(),
{
    if ts.len() == 0 {
        0
    } else {
        sum_target_cost_nums(ts.drop_last()) + ts.last().cost_position_rate.num
    }
}

/// Law: a portfolio's total cost, recomputed as Σ(cost-exposure ratio ×
/// full-position constant), equals the direct sum of the instruments' total
/// costs — exactly, not merely within tolerance, because the arithmetic is
/// exact.
pub proof fn lemma_portfolio_cost_rederivation(ts: Seq<TargetProfitLossV>, full: int)
    requires
        0 < full,
        forall|j: int| 0 <= j < ts.len() ==> (#[trigger] ts[j]).cost_position_rate.den == full,
    ensures
        sum_targets_cost(ts, full) == sum_target_cost_nums(ts),
    decreases ts.len(),
{
    if ts.len() > 0 {
        assert(forall|j: int|
            0 <= j < ts.drop_last().len() ==> (#[trigger] ts.drop_last()[j]) == ts[j]);
        lemma_portfolio_cost_rederivation(ts.drop_last(), full);
        let t = ts.last();
        assert(t.cost_position_rate.num * full == full * t.cost_position_rate.num);
        vstd::arithmetic::div_mod::lemma_div_multiples_vanish(t.cost_position_rate.num, full);
    }
}

/// Every instrument entry over a key list carries the full-position constant
/// as its ratio denominator.
proof fn lemma_targets_raw_dens(
    ks: Seq<Seq<char>>,
    ps: Seq<PositionV>,
    quotes: Map<Seq<char>, QuoteV>,
    full: int,
)
    requires
        full != 0,
    ensures
        forall|j: int|
            0 <= j < targets_raw(ks, ps, quotes, full).len() ==> (#[trigger] targets_raw(
                ks,
                ps,
                quotes,
                full,
            )[j]).cost_position_rate.den == full,
    decreases ks.len(),
{
    if ks.len() > 0 {
        lemma_targets_raw_dens(ks.drop_last(), ps, quotes, full);
        let r = targets_raw(ks, ps, quotes, full);
        let rest = targets_raw(ks.drop_last(), ps, quotes, full);
        if quotes.contains_key(ks.last()) {
            assert forall|j: int| 0 <= j < r.len() implies (
            #[trigger] r[j]).cost_position_rate.den == full by {
                if j < r.len() - 1 {
                    assert(r[j] == rest[j]);
                }
            }
        }
    }
}

/// Every instrument entry over a key list carries a quoted code.
proof fn lemma_targets_raw_quoted(
    ks: Seq<Seq<char>>,
    ps: Seq<PositionV>,
    quotes: Map<Seq<char>, QuoteV>,
    full: int,
)
    ensures
        forall|j: int|
            0 <= j < targets_raw(ks, ps, quotes, full).len() ==> quotes.contains_key(
                (#[trigger] targets_raw(ks, ps, quotes, full)[j]).code,
            ),
    decreases ks.len(),
{
    if ks.len() > 0 {
        lemma_targets_raw_quoted(ks.drop_last(), ps, quotes, full);
        let r = targets_raw(ks, ps, quotes, full);
        let rest = targets_raw(ks.drop_last(), ps, quotes, full);
        if quotes.contains_key(ks.last()) {
            assert forall|j: int| 0 <= j < r.len() implies quotes.contains_key(
                (#[trigger] r[j]).code,
            ) by {
                if j < r.len() - 1 {
                    assert(r[j] == rest[j]);
                }
            }
        }
    }
}

/// Every instrument entry over a key list carries trades sorted by buy date
/// descending.
proof fn lemma_targets_raw_trades_sorted(
    ks: Seq<Seq<char>>,
    ps: Seq<PositionV>,
    quotes: Map<Seq<char>, QuoteV>,
    full: int,
)
    ensures
        forall|j: int|
            0 <= j < targets_raw(ks, ps, quotes, full).len() ==> crate::profit_loss::trades_sorted_desc(
                (#[trigger] targets_raw(ks, ps, quotes, full)[j]).position_profit_losses,
            ),
    decreases ks.len(),
{
    if ks.len() > 0 {
        lemma_targets_raw_trades_sorted(ks.drop_last(), ps, quotes, full);
        let r = targets_raw(ks, ps, quotes, full);
        let rest = targets_raw(ks.drop_last(), ps, quotes, full);
        if quotes.contains_key(ks.last()) {
            crate::ordering::lemma_sort_trades_sorted(
                trades_of(positions_of_code(ps, ks.last()), quotes[ks.last()].price),
            );
            assert forall|j: int| 0 <= j < r.len() implies crate::profit_loss::trades_sorted_desc(
                (#[trigger] r[j]).position_profit_losses,
            ) by {
                if j < r.len() - 1 {
                    assert(r[j] == rest[j]);
                }
            }
        }
    }
}

/// Law: every portfolio the engine emits has its total cost equal to the sum
/// of its instruments' total costs, through the exact ratio re-derivation.
pub proof fn lemma_aggregate_cost_rederivation(
    positions: Seq<PositionV>,
    quotes: Map<Seq<char>, QuoteV>,
    full: int,
)
    requires
        0 < full,
    ensures
        forall|k: int|
            0 <= k < spec_aggregate(positions, quotes, full).len() ==> (#[trigger] spec_aggregate(
                positions,
                quotes,
                full,
            )[k]).sum_position_cost == sum_target_cost_nums(
                spec_aggregate(positions, quotes, full)[k].target_profit_losses,
            ),
{
    let agg = spec_aggregate(positions, quotes, full);
    let opened = open_positions(positions);
    let keys = portfolio_keys(opened);
    assert forall|k: int| 0 <= k < agg.len() implies (#[trigger] agg[k]).sum_position_cost
        == sum_target_cost_nums(agg[k].target_profit_losses) by {
        let ps = positions_of_portfolio(opened, keys[k]);
        let raw = targets_raw(code_keys(ps), ps, quotes, full);
        lemma_targets_raw_dens(code_keys(ps), ps, quotes, full);
        crate::ordering::lemma_sort_targets_preserves(
            raw,
            |t: TargetProfitLossV| t.cost_position_rate.den == full,
        );
        lemma_portfolio_cost_rederivation(sort_targets_desc(raw), full);
    }
}

/// Law: no instrument whose code lacks a quote appears anywhere in the
/// aggregate.
pub proof fn lemma_aggregate_all_quoted(
    positions: Seq<PositionV>,
    quotes: Map<Seq<char>, QuoteV>,
    full: int,
)
    ensures
        forall|k: int, j: int|
            0 <= k < spec_aggregate(positions, quotes, full).len() && 0 <= j < spec_aggregate(
                positions,
                quotes,
                full,
            )[k].target_profit_losses.len() ==> quotes.contains_key(
                (#[trigger] spec_aggregate(positions, quotes, full)[k].target_profit_losses[j]).code,
            ),
{
    let agg = spec_aggregate(positions, quotes, full);
    let opened = open_positions(positions);
    let keys = portfolio_keys(opened);
    assert forall|k: int, j: int|
        0 <= k < agg.len() && 0 <= j < agg[k].target_profit_losses.len() implies quotes.contains_key(
        (#[trigger] agg[k].target_profit_losses[j]).code,
    ) by {
        let ps = positions_of_portfolio(opened, keys[k]);
        let raw = targets_raw(code_keys(ps), ps, quotes, full);
        lemma_targets_raw_quoted(code_keys(ps), ps, quotes, full);
        crate::ordering::lemma_sort_targets_preserves(
            raw,
            |t: TargetProfitLossV| quotes.contains_key(t.code),
        );
    }
}

/// The positions whose code is not `c`, in input order.
pub open spec fn remove_code(s: Seq<PositionV>, c: Seq<char>) -> Seq<PositionV>
    decreases s.len(),
{
    if s.len() == 0 {
        Seq::empty()
    } else {
        let rest = remove_code(s.drop_last(), c);
        if s.last().code == c {
            rest
        } else {
            rest.push(s.last())
        }
    }
}

/// The keys other than `c`, in order.
pub open spec fn remove_key(ks: Seq<Seq<char>>, c: Seq<char>) -> Seq<Seq<char>>
    decreases ks.len(),
{
    if ks.len() == 0 {
        Seq::empty()
    } else {
        let rest = remove_key(ks.drop_last(), c);
        if ks.last() == c {
            rest
        } else {
            rest.push(ks.last())
        }
    }
}

/// Removing one key leaves membership of every other key unchanged.
proof fn lemma_remove_key_contains(ks: Seq<Seq<char>>, c: Seq<char>, x: Seq<char>)
    requires
        x != c,
    ensures
        remove_key(ks, c).contains(x) <==> ks.contains(x),
    decreases ks.len(),
{
    if ks.len() > 0 {
        lemma_remove_key_contains(ks.drop_last(), c, x);
        let r = remove_key(ks, c);
        let rest = remove_key(ks.drop_last(), c);
        if ks.last() == c {
            if ks.contains(x) {
                let a = choose|a: int| 0 <= a < ks.len() && ks[a] == x;
                assert(a != ks.len() - 1);
                assert(ks.drop_last()[a] == x);
                assert(ks.drop_last().contains(x));
            }
            if rest.contains(x) {
                let a = choose|a: int| 0 <= a < rest.len() && rest[a] == x;
                let b = choose|b: int|
                    0 <= b < ks.drop_last().len() && ks.drop_last()[b] == x;
                assert(ks[b] == x);
                assert(ks.contains(x));
            }
        } else {
            assert(forall|a: int| 0 <= a < rest.len() ==> (#[trigger] r[a]) == rest[a]);
            if ks.contains(x) {
                let a = choose|a: int| 0 <= a < ks.len() && ks[a] == x;
                if a == ks.len() - 1 {
                    assert(r[r.len() - 1] == x);
                    assert(r.contains(x));
                } else {
                    assert(ks.drop_last()[a] == x);
                    assert(ks.drop_last().contains(x));
                    let b = choose|b: int| 0 <= b < rest.len() && rest[b] == x;
                    assert(r[b] == x);
                    assert(r.contains(x));
                }
            }
            if r.contains(x) {
                let a = choose|a: int| 0 <= a < r.len() && r[a] == x;
                if a == r.len() - 1 {
                    assert(ks[ks.len() - 1] == x);
                    assert(ks.contains(x));
                } else {
                    assert(rest[a] == x);
                    assert(rest.contains(x));
                    let b = choose|b: int|
                        0 <= b < ks.drop_last().len() && ks.drop_last()[b] == x;
                    assert(ks[b] == x);
                    assert(ks.contains(x));
                }
            }
        }
    }
}

/// Removing one code leaves every other code's group unchanged.
proof fn lemma_positions_of_code_remove(s: Seq<PositionV>, c: Seq<char>, k: Seq<char>)
    requires
        k != c,
    ensures
        positions_of_code(remove_code(s, c), k) == positions_of_code(s, k),
    decreases s.len(),
{
    if s.len() > 0 {
        lemma_positions_of_code_remove(s.drop_last(), c, k);
        if s.last().code == c {
        } else {
            assert(remove_code(s, c) == remove_code(s.drop_last(), c).push(s.last()));
            assert(remove_code(s, c).drop_last() =~= remove_code(s.drop_last(), c));
            assert(remove_code(s, c).last() == s.last());
        }
    }
}

/// Removing one code removes exactly that key from the code-key list.
proof fn lemma_code_keys_remove(s: Seq<PositionV>, c: Seq<char>)
    ensures
        code_keys(remove_code(s, c)) == remove_key(code_keys(s), c),
    decreases s.len(),
{
    if s.len() > 0 {
        lemma_code_keys_remove(s.drop_last(), c);
        let p = s.last();
        if p.code == c {
            assert(code_keys(s) == if code_keys(s.drop_last()).contains(c) {
                code_keys(s.drop_last())
            } else {
                code_keys(s.drop_last()).push(c)
            });
            if !code_keys(s.drop_last()).contains(c) {
                assert(code_keys(s.drop_last()).push(c).drop_last() =~= code_keys(s.drop_last()));
                assert(remove_key(code_keys(s), c) == remove_key(code_keys(s.drop_last()), c));
            }
        } else {
            assert(remove_code(s, c) == remove_code(s.drop_last(), c).push(p));
            assert(remove_code(s, c).drop_last() =~= remove_code(s.drop_last(), c));
            assert(remove_code(s, c).last() == p);
            lemma_remove_key_contains(code_keys(s.drop_last()), c, p.code);
            if code_keys(s.drop_last()).contains(p.code) {
                assert(code_keys(s) == code_keys(s.drop_last()));
                assert(code_keys(remove_code(s, c)) == code_keys(remove_code(s.drop_last(), c)));
            } else {
                assert(code_keys(s) == code_keys(s.drop_last()).push(p.code));
                assert(code_keys(s).drop_last() =~= code_keys(s.drop_last()));
                assert(code_keys(remove_code(s, c)) == code_keys(
                    remove_code(s.drop_last(), c),
                ).push(p.code));
                assert(remove_key(code_keys(s), c) == remove_key(
                    code_keys(s.drop_last()),
                    c,
                ).push(p.code));
            }
        }
    }
}

/// With an unquoted code removed from both the keys and the positions, the
/// instrument list is unchanged.
proof fn lemma_targets_raw_remove(
    ks: Seq<Seq<char>>,
    ps: Seq<PositionV>,
    quotes: Map<Seq<char>, QuoteV>,
    full: int,
    c: Seq<char>,
)
    requires
        !quotes.contains_key(c),
    ensures
        targets_raw(remove_key(ks, c), remove_code(ps, c), quotes, full) == targets_raw(
            ks,
            ps,
            quotes,
            full,
        ),
    decreases ks.len(),
{
    if ks.len() > 0 {
        lemma_targets_raw_remove(ks.drop_last(), ps, quotes, full, c);
        let k = ks.last();
        if k == c {
            assert(remove_key(ks, c) == remove_key(ks.drop_last(), c));
        } else {
            assert(remove_key(ks, c) == remove_key(ks.drop_last(), c).push(k));
            assert(remove_key(ks, c).drop_last() =~= remove_key(ks.drop_last(), c));
            assert(remove_key(ks, c).last() == k);
            lemma_positions_of_code_remove(ps, c, k);
        }
    }
}

/// Law: a code with no quote is invisible — removing all of its positions
/// from a portfolio leaves that portfolio's aggregate unchanged, so such a
/// code contributes nothing to any instrument or total.
pub proof fn lemma_unquoted_code_invisible(
    name: Seq<char>,
    ps: Seq<PositionV>,
    quotes: Map<Seq<char>, QuoteV>,
    full: int,
    c: Seq<char>,
)
    requires
        !quotes.contains_key(c),
    ensures
        spec_portfolio(name, remove_code(ps, c), quotes, full) == spec_portfolio(
            name,
            ps,
            quotes,
            full,
        ),
{
    lemma_code_keys_remove(ps, c);
    lemma_targets_raw_remove(code_keys(ps), ps, quotes, full, c);
}

/// Law: aggregation carries no hidden state — identical positions, quotes
/// and full-position constant yield the identical aggregate.  Together with
/// `aggregate_positions`' postcondition, two calls on equal inputs return
/// equal results.
pub proof fn lemma_aggregate_deterministic(
    ps1: Seq<PositionV>,
    ps2: Seq<PositionV>,
    q1: Map<Seq<char>, QuoteV>,
    q2: Map<Seq<char>, QuoteV>,
    f1: int,
    f2: int,
)
    requires
        ps1 == ps2,
        q1 == q2,
        f1 == f2,
    ensures
        spec_aggregate(ps1, q1, f1) == spec_aggregate(ps2, q2, f2),
{
}

/// Filtering to open positions is idempotent.
proof fn lemma_open_positions_idempotent(s: Seq<PositionV>)
    ensures
        open_positions(open_positions(s)) == open_positions(s),
    decreases s.len(),
{
    if s.len() > 0 {
        lemma_open_positions_idempotent(s.drop_last());
        if s.last().status == PositionStatus::Open {
            assert(open_positions(s) == open_positions(s.drop_last()).push(s.last()));
            assert(open_positions(s).drop_last() =~= open_positions(s.drop_last()));
            assert(open_positions(s).last() == s.last());
        }
    }
}

/// Law: the engine filters to open positions itself, so aggregating a
/// caller-filtered list and aggregating the raw list give the same result.
pub proof fn lemma_prefiltered_input_identical(
    positions: Seq<PositionV>,
    quotes: Map<Seq<char>, QuoteV>,
    full: int,
)
    ensures
        spec_aggregate(open_positions(positions), quotes, full) == spec_aggregate(
            positions,
            quotes,
            full,
        ),
{
    lemma_open_positions_idempotent(positions);
}

/// Law: within every portfolio the engine emits, the instruments are ordered
/// by cost-exposure ratio, non-increasing.
pub proof fn lemma_aggregate_targets_sorted(
    positions: Seq<PositionV>,
    quotes: Map<Seq<char>, QuoteV>,
    full: int,
)
    ensures
        forall|k: int|
            0 <= k < spec_aggregate(positions, quotes, full).len()
                ==> crate::profit_loss::targets_sorted_desc(
                (#[trigger] spec_aggregate(positions, quotes, full)[k]).target_profit_losses,
            ),
{
    let agg = spec_aggregate(positions, quotes, full);
    let opened = open_positions(positions);
    let keys = portfolio_keys(opened);
    assert forall|k: int|
        0 <= k < agg.len() implies crate::profit_loss::targets_sorted_desc(
        (#[trigger] agg[k]).target_profit_losses,
    ) by {
        let ps = positions_of_portfolio(opened, keys[k]);
        crate::ordering::lemma_sort_targets_sorted(targets_raw(code_keys(ps), ps, quotes, full));
    }
}

/// Law: within every instrument the engine emits, the trades are ordered by
/// buy date, non-increasing.
pub proof fn lemma_aggregate_trades_sorted(
    positions: Seq<PositionV>,
    quotes: Map<Seq<char>, QuoteV>,
    full: int,
)
    ensures
        forall|k: int, j: int|
            0 <= k < spec_aggregate(positions, quotes, full).len() && 0 <= j < spec_aggregate(
                positions,
                quotes,
                full,
            )[k].target_profit_losses.len() ==> crate::profit_loss::trades_sorted_desc(
                (#[trigger] spec_aggregate(
                    positions,
                    quotes,
                    full,
                )[k].target_profit_losses[j]).position_profit_losses,
            ),
{
    let agg = spec_aggregate(positions, quotes, full);
    let opened = open_positions(positions);
    let keys = portfolio_keys(opened);
    assert forall|k: int, j: int|
        0 <= k < agg.len() && 0 <= j < agg[k].target_profit_losses.len() implies crate::profit_loss::trades_sorted_desc(
        (#[trigger] agg[k].target_profit_losses[j]).position_profit_losses,
    ) by {
        let ps = positions_of_portfolio(opened, keys[k]);
        let raw = targets_raw(code_keys(ps), ps, quotes, full);
        lemma_targets_raw_trades_sorted(code_keys(ps), ps, quotes, full);
        crate::ordering::lemma_sort_targets_preserves(
            raw,
            |t: TargetProfitLossV| crate::profit_loss::trades_sorted_desc(
                t.position_profit_losses,
            ),
        );
    }
}

/// The instrument entries of the raw list stay well-formed through the sort.
proof fn lemma_sort_targets_preserves_alias(s: Seq<TargetProfitLossV>)
    requires
        forall|j: int| 0 <= j < s.len() ==> target_entry_wf(#[trigger] s[j]),
    ensures
        forall|j: int|
            0 <= j < sort_targets_desc(s).len() ==> target_entry_wf(
                #[trigger] sort_targets_desc(s)[j],
            ),
        sort_targets_desc(s).len() == s.len(),
{
    crate::ordering::lemma_sort_targets_preserves(s, |t: TargetProfitLossV| target_entry_wf(t));
}

} // verus!
