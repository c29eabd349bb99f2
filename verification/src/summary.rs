//! Portfolio summaries, position queries and per-code statistics: the small
//! read-side computations around the engine.

use vstd::prelude::*;

use crate::error::AppError;
use crate::portfolio_service::{cost_w, positions_wf, sum_w, TRADE_COST_CAP};
use crate::position::{Position, MAX_POSITIONS, MAX_PRICE, MAX_QUANTITY};
use crate::rational::{Rational, RationalV, RAT_BOUND};

verus! {

/// Per-portfolio cost summary; the value, profit/loss and rate fields are
/// placeholders filled by the presentation layer.
#[derive(Debug, Clone)]
pub struct PortfolioSummary {
    pub portfolio: String,
    /// Σ buy price × quantity over the given positions, in minor units.
    pub total_cost: i128,
    pub total_value: i128,
    pub pnl: i128,
    pub pnl_percentage: Rational,
    pub positions: Vec<Position>,
}

impl PortfolioSummary {
    /// Summarize a portfolio's positions: the exact total cost, with the
    /// presentation-layer fields zeroed.
    pub fn new(portfolio: String, positions: Vec<Position>) -> (r: Result<
        PortfolioSummary,
        AppError,
    >)
        requires
            positions_wf(positions.deep_view()),
            positions.deep_view().len() <= MAX_POSITIONS,
        ensures
            r matches Ok(s) && s.portfolio == portfolio && s.total_cost == sum_w(
                positions.deep_view(),
                cost_w(),
            ) && s.positions == positions && s.total_value == 0 && s.pnl == 0 && s.pnl_percentage
                == (Rational { num: 0, den: 1 }),
    {
        let ghost pv = positions.deep_view();
        let mut total_cost: i128 = 0;
        let mut i: usize = 0;
        proof {
            assert(pv.take(0) =~= Seq::<crate::position::PositionV>::empty());
        }
        while i < positions.len()
            invariant
                positions_wf(pv),
                pv == positions.deep_view(),
                pv.len() == positions@.len(),
                pv.len() <= MAX_POSITIONS,
                0 <= i <= pv.len(),
                total_cost == sum_w(pv.take(i as int), cost_w()),
                0 <= total_cost <= i * (TRADE_COST_CAP as int),
            decreases pv.len() - i,
        {
            proof {
                assert(pv[i as int] == positions@[i as int].deep_view());
                assert(pv[i as int].wf());
                crate::position::lemma_trade_product_bounded(
                    pv[i as int].buy_price,
                    pv[i as int].quantity,
                );
                assert(pv.take(i + 1 as int).drop_last() =~= pv.take(i as int));
                assert(pv.take(i + 1 as int).last() == pv[i as int]);
                assert(cost_w()(pv[i as int]) == pv[i as int].buy_price * pv[i as int].quantity);
                assert((MAX_PRICE as int) * (MAX_QUANTITY as int) == TRADE_COST_CAP as int)
                    by (nonlinear_arith);
            }
            let p = &positions[i];
            let cost: i64 = p.buy_price * p.quantity;
            total_cost = total_cost + (cost as i128);
            i = i + 1;
        }
        proof {
            assert(pv.take(pv.len() as int) =~= pv);
        }
        Ok(
            PortfolioSummary {
                portfolio,
                total_cost,
                total_value: 0,
                pnl: 0,
                pnl_percentage: Rational::zero(),
                positions,
            },
        )
    }
}

/// Query filter over position records.
#[derive(Debug, Clone)]
pub struct PositionQuery {
    pub code: Option<String>,
    pub portfolio: Option<String>,
    pub status: Option<String>,
    pub offset: Option<i32>,
    pub limit: Option<i32>,
}

/// The conjunction of the selected conditions, joined with ` AND `.
pub open spec fn clause_body(code: bool, portfolio: bool, status: bool) -> Seq<char> {
    let s1 = if code {
        "code = ?"@
    } else {
        Seq::<char>::empty()
    };
    let s2 = if portfolio {
        if code {
            s1 + " AND "@ + "portfolio = ?"@
        } else {
            "portfolio = ?"@
        }
    } else {
        s1
    };
    if status {
        if code || portfolio {
            s2 + " AND "@ + "status = ?"@
        } else {
            "status = ?"@
        }
    } else {
        s2
    }
}

/// The full clause: empty when no condition is selected, else prefixed with
/// `WHERE `.
pub open spec fn where_clause_spec(code: bool, portfolio: bool, status: bool) -> Seq<char> {
    if code || portfolio || status {
        "WHERE "@ + clause_body(code, portfolio, status)
    } else {
        Seq::<char>::empty()
    }
}

/// The parameter values, in the order their conditions appear.
pub open spec fn query_params_spec(q: PositionQuery) -> Seq<Seq<char>> {
    let s = Seq::<Seq<char>>::empty();
    let s = match q.code {
        Some(c) => s.push(c@),
        None => s,
    };
    let s = match q.portfolio {
        Some(p) => s.push(p@),
        None => s,
    };
    match q.status {
        Some(t) => s.push(t@),
        None => s,
    }
}

impl PositionQuery {
    /// An empty filter.
    pub fn new() -> (r: PositionQuery)
        ensures
            r.code is None,
            r.portfolio is None,
            r.status is None,
            r.offset is None,
            r.limit is None,
    {
        PositionQuery { code: None, portfolio: None, status: None, offset: None, limit: None }
    }

    /// Render the filter as a SQL `WHERE` clause and its parameter list.
    pub fn build_where_clause(&self) -> (r: (String, Vec<String>))
        ensures
            r.0@ == where_clause_spec(
                self.code is Some,
                self.portfolio is Some,
                self.status is Some,
            ),
            r.1.deep_view() == query_params_spec(*self),
    {
        let mut body = String::new();
        let mut params: Vec<String> = Vec::new();
        let mut any = false;
        proof {
            assert(params.deep_view() =~~= Seq::<Seq<char>>::empty());
        }
        match &self.code {
            Some(code) => {
                body.append("code = ?");
                let ghost params_pre = params.deep_view();
                params.push(code.clone());
                proof {
                    assert(params.deep_view() =~~= params_pre.push(code@));
                    assert(body@ =~= "code = ?"@);
                }
                any = true;
            },
            None => {
            },
        }
        match &self.portfolio {
            Some(portfolio) => {
                if any {
                    body.append(" AND ");
                }
                body.append("portfolio = ?");
                let ghost params_pre = params.deep_view();
                params.push(portfolio.clone());
                proof {
                    assert(params.deep_view() =~~= params_pre.push(portfolio@));
                    if !(self.code is Some) {
                        assert(body@ =~= "portfolio = ?"@);
                    }
                }
                any = true;
            },
            None => {
            },
        }
        match &self.status {
            Some(status) => {
                if any {
                    body.append(" AND ");
                }
                body.append("status = ?");
                let ghost params_pre = params.deep_view();
                params.push(status.clone());
                proof {
                    assert(params.deep_view() =~~= params_pre.push(status@));
                    if !(self.code is Some) && !(self.portfolio is Some) {
                        assert(body@ =~= "status = ?"@);
                    }
                }
                any = true;
            },
            None => {
            },
        }
        proof {
            assert(body@ == clause_body(
                self.code is Some,
                self.portfolio is Some,
                self.status is Some,
            ));
            assert(params.deep_view() =~~= query_params_spec(*self));
        }
        if any {
            let mut clause = "WHERE ".to_owned();
            clause.append(body.as_str());
            (clause, params)
        } else {
            proof {
                assert(body@ =~= Seq::<char>::empty());
            }
            (body, params)
        }
    }
}

/// Aggregated statistics for one instrument's open positions.
#[derive(Debug, Clone)]
pub struct PositionStats {
    pub record_count: i64,
    pub total_quantity: i64,
    /// Total cost in minor units.
    pub total_cost: i128,
    /// Average cost per share: total cost over total quantity.
    pub avg_cost_price: Rational,
}

impl PositionStats {
    /// Average cost per share, zero when nothing is held.
    pub fn avg_cost_price(&self) -> (r: Rational)
        requires
            0 <= self.total_quantity <= (MAX_POSITIONS as int) * (MAX_QUANTITY as int),
            0 <= self.total_cost <= RAT_BOUND,
        ensures
            r == if self.total_quantity > 0 {
                Rational { num: self.total_cost, den: self.total_quantity as i128 }
            } else {
                Rational { num: 0, den: 1 }
            },
    {
        if self.total_quantity > 0 {
            Rational::new(self.total_cost, self.total_quantity as i128)
        } else {
            Rational::zero()
        }
    }

    /// Profit/loss at the given current price: market value, absolute
    /// profit/loss, and the profit/loss rate over cost.
    pub fn calculate_pnl(&self, current_price: i64) -> (r: PnL)
        requires
            0 <= current_price <= MAX_PRICE,
            0 <= self.total_quantity <= (MAX_POSITIONS as int) * (MAX_QUANTITY as int),
            0 <= self.total_cost <= RAT_BOUND,
        ensures
            r.current_value == self.total_quantity * current_price,
            r.pnl == self.total_quantity * current_price - self.total_cost,
            r.pnl_rate.deep_view() == if self.total_cost > 0 {
                RationalV {
                    num: self.total_quantity * current_price - self.total_cost,
                    den: self.total_cost as int,
                }
            } else {
                RationalV::zero()
            },
    {
        proof {
            assert(0 <= (self.total_quantity as i128) * (current_price as i128) <= RAT_BOUND)
                by (nonlinear_arith)
                requires
                    0 <= self.total_quantity <= (MAX_POSITIONS as int) * (MAX_QUANTITY as int),
                    0 <= current_price <= MAX_PRICE,
            ;
        }
        let current_value: i128 = (self.total_quantity as i128) * (current_price as i128);
        let pnl: i128 = current_value - self.total_cost;
        let pnl_rate = if self.total_cost > 0 {
            Rational::new(pnl, self.total_cost)
        } else {
            Rational::zero()
        };
        PnL { current_value, pnl, pnl_rate }
    }
}

/// Profit/loss of one instrument at a current price.
#[derive(Debug, Clone)]
pub struct PnL {
    /// Market value in minor units.
    pub current_value: i128,
    /// Profit/loss in minor units.
    pub pnl: i128,
    /// Profit/loss over cost, zero when the cost is zero.
    pub pnl_rate: Rational,
}

impl DeepView for PnL {
    type V = PnLV;

    open spec fn deep_view(&self) -> PnLV {
        PnLV {
            current_value: self.current_value as int,
            pnl: self.pnl as int,
            pnl_rate: self.pnl_rate.deep_view(),
        }
    }
}

/// Mathematical image of a `PnL`.
pub struct PnLV {
    pub current_value: int,
    pub pnl: int,
    pub pnl_rate: RationalV,
}

} // verus!
