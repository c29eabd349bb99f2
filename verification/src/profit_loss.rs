//! Derived profit/loss records: one per trade, one per instrument, one per
//! portfolio.  All are recomputed on every aggregation call and carry no
//! identity of their own.

use vstd::prelude::*;

use crate::position::{Position, PositionStatus, PositionV, MAX_PRICE};
use crate::rational::{Rational, RationalV};
use crate::text::lex_le;

verus! {

/// Mathematical image of a `PositionProfitLoss`.
pub struct PositionProfitLossV {
    pub id: Seq<char>,
    pub code: Seq<char>,
    pub name: Seq<char>,
    pub buy_date: Seq<char>,
    pub buy_price: int,
    pub quantity: int,
    pub real_price: int,
    pub position_cost: int,
    pub profit_loss: int,
    pub profit_loss_rate: RationalV,
    pub status: PositionStatus,
    pub portfolio: Seq<char>,
}

/// One trade combined with the current quote price: cost, profit/loss and
/// profit/loss rate, all exact.
#[derive(Debug, Clone)]
pub struct PositionProfitLoss {
    pub id: String,
    pub code: String,
    pub name: String,
    pub buy_date: String,
    /// Buy price in minor units.
    pub buy_price: i64,
    pub quantity: i64,
    /// Current price in minor units.
    pub real_price: i64,
    /// `buy_price * quantity`.
    pub position_cost: i64,
    /// `(real_price - buy_price) * quantity`.
    pub profit_loss: i64,
    /// `profit_loss / position_cost`, zero when the cost is zero.
    pub profit_loss_rate: Rational,
    pub status: PositionStatus,
    pub portfolio: String,
}

impl DeepView for PositionProfitLoss {
    type V = PositionProfitLossV;

    open spec fn deep_view(&self) -> PositionProfitLossV {
        PositionProfitLossV {
            id: self.id@,
            code: self.code@,
            name: self.name@,
            buy_date: self.buy_date@,
            buy_price: self.buy_price as int,
            quantity: self.quantity as int,
            real_price: self.real_price as int,
            position_cost: self.position_cost as int,
            profit_loss: self.profit_loss as int,
            profit_loss_rate: self.profit_loss_rate.deep_view(),
            status: self.status,
            portfolio: self.portfolio@,
        }
    }
}

/// The trade record derived from one position and the current price.
pub open spec fn spec_trade_profit_loss(p: PositionV, real_price: int) -> PositionProfitLossV {
    let cost = p.buy_price * p.quantity;
    let pl = (real_price - p.buy_price) * p.quantity;
    PositionProfitLossV {
        id: p.id,
        code: p.code,
        name: p.name,
        buy_date: p.buy_date,
        buy_price: p.buy_price,
        quantity: p.quantity,
        real_price: real_price,
        position_cost: cost,
        profit_loss: pl,
        profit_loss_rate: if cost != 0 {
            RationalV { num: pl, den: cost }
        } else {
            RationalV::zero()
        },
        status: p.status,
        portfolio: p.portfolio,
    }
}

impl PositionProfitLoss {
    /// Combine one position with the current price.
    pub fn from_position(position: Position, real_price: i64) -> (r: PositionProfitLoss)
        requires
            position.deep_view().wf(),
            0 <= real_price <= MAX_PRICE,
        ensures
            r.deep_view() == spec_trade_profit_loss(position.deep_view(), real_price as int),
    {
        proof {
            crate::position::lemma_trade_product_bounded(
                position.buy_price as int,
                position.quantity as int,
            );
            crate::position::lemma_trade_product_bounded(
                real_price - position.buy_price,
                position.quantity as int,
            );
        }
        let position_cost: i64 = position.buy_price * position.quantity;
        let profit_loss: i64 = (real_price - position.buy_price) * position.quantity;
        let profit_loss_rate = if position_cost != 0 {
            Rational::new(profit_loss as i128, position_cost as i128)
        } else {
            Rational::zero()
        };
        PositionProfitLoss {
            id: position.id,
            code: position.code,
            name: position.name,
            buy_date: position.buy_date,
            buy_price: position.buy_price,
            quantity: position.quantity,
            real_price,
            position_cost,
            profit_loss,
            profit_loss_rate,
            status: position.status,
            portfolio: position.portfolio,
        }
    }
}

/// Mathematical image of a `TargetProfitLoss`.
pub struct TargetProfitLossV {
    pub code: Seq<char>,
    pub name: Seq<char>,
    pub real_price: int,
    pub position_profit_losses: Seq<PositionProfitLossV>,
    pub cost_position_rate: RationalV,
    pub current_position_rate: RationalV,
    pub target_profit_loss: int,
    pub target_profit_loss_rate: RationalV,
    pub recommended_buy_in_point: RationalV,
    pub recommended_sale_out_point: RationalV,
}

/// One instrument within one portfolio: its trades (most recent buy first),
/// exposure ratios, total profit/loss, and recommendation bands.
#[derive(Debug, Clone)]
pub struct TargetProfitLoss {
    pub code: String,
    pub name: String,
    /// Current price in minor units.
    pub real_price: i64,
    /// Trades, ordered by buy date descending.
    pub position_profit_losses: Vec<PositionProfitLoss>,
    /// Total cost over the full-position constant.
    pub cost_position_rate: Rational,
    /// Current market value over the full-position constant.
    pub current_position_rate: Rational,
    /// Total profit/loss across the trades.
    pub target_profit_loss: i128,
    /// Total profit/loss over total cost, zero when the cost is zero.
    pub target_profit_loss_rate: Rational,
    /// Most recent buy price times 9/10.
    pub recommended_buy_in_point: Rational,
    /// Most recent buy price times 11/10.
    pub recommended_sale_out_point: Rational,
}

impl DeepView for TargetProfitLoss {
    type V = TargetProfitLossV;

    open spec fn deep_view(&self) -> TargetProfitLossV {
        TargetProfitLossV {
            code: self.code@,
            name: self.name@,
            real_price: self.real_price as int,
            position_profit_losses: self.position_profit_losses.deep_view(),
            cost_position_rate: self.cost_position_rate.deep_view(),
            current_position_rate: self.current_position_rate.deep_view(),
            target_profit_loss: self.target_profit_loss as int,
            target_profit_loss_rate: self.target_profit_loss_rate.deep_view(),
            recommended_buy_in_point: self.recommended_buy_in_point.deep_view(),
            recommended_sale_out_point: self.recommended_sale_out_point.deep_view(),
        }
    }
}

/// Mathematical image of a `PortfolioProfitLoss`.
pub struct PortfolioProfitLossV {
    pub portfolio: Seq<char>,
    pub full_position: int,
    pub target_profit_losses: Seq<TargetProfitLossV>,
    pub sum_position_cost: int,
    pub sum_profit_losses: int,
    pub sum_profit_losses_rate: RationalV,
}

/// One portfolio: its instruments (highest cost-exposure first) and the
/// portfolio-level totals.
#[derive(Debug, Clone)]
pub struct PortfolioProfitLoss {
    pub portfolio: String,
    /// The full-position capital constant, in minor units.
    pub full_position: i64,
    /// Instruments, ordered by cost-exposure ratio descending.
    pub target_profit_losses: Vec<TargetProfitLoss>,
    /// Σ (cost-exposure ratio × full position) across instruments.
    pub sum_position_cost: i128,
    /// Σ profit/loss across instruments.
    pub sum_profit_losses: i128,
    /// Total profit/loss over total cost, zero when the cost is zero.
    pub sum_profit_losses_rate: Rational,
}

impl DeepView for PortfolioProfitLoss {
    type V = PortfolioProfitLossV;

    open spec fn deep_view(&self) -> PortfolioProfitLossV {
        PortfolioProfitLossV {
            portfolio: self.portfolio@,
            full_position: self.full_position as int,
            target_profit_losses: self.target_profit_losses.deep_view(),
            sum_position_cost: self.sum_position_cost as int,
            sum_profit_losses: self.sum_profit_losses as int,
            sum_profit_losses_rate: self.sum_profit_losses_rate.deep_view(),
        }
    }
}

/// Trades ordered most recent buy first: each buy date is lexicographically
/// at most its predecessor (`YYYY-MM-DD` order is date order).
pub open spec fn trades_sorted_desc(s: Seq<PositionProfitLossV>) -> bool {
    forall|i: int| 0 < i < s.len() ==> lex_le((#[trigger] s[i]).buy_date, s[i - 1].buy_date)
}

/// Stable insertion of a trade into a date-descending list: the new trade
/// goes after every trade bought on the same day or later.
pub open spec fn insert_trade_desc(s: Seq<PositionProfitLossV>, x: PositionProfitLossV) -> Seq<
    PositionProfitLossV,
>
    decreases s.len(),
{
    if s.len() > 0 && lex_le(x.buy_date, s[0].buy_date) {
        seq![s[0]] + insert_trade_desc(s.drop_first(), x)
    } else {
        seq![x] + s
    }
}

/// Stable insertion sort of trades by buy date, descending.
pub open spec fn sort_trades_desc(s: Seq<PositionProfitLossV>) -> Seq<PositionProfitLossV>
    decreases s.len(),
{
    if s.len() == 0 {
        Seq::empty()
    } else {
        insert_trade_desc(sort_trades_desc(s.drop_last()), s.last())
    }
}

/// Instruments ordered by cost-exposure ratio, non-increasing.
pub open spec fn targets_sorted_desc(s: Seq<TargetProfitLossV>) -> bool {
    forall|i: int|
        0 < i < s.len() ==> ((#[trigger] s[i]).cost_position_rate).le_spec(
            s[i - 1].cost_position_rate,
        )
}

/// Stable insertion of an instrument into a ratio-descending list.
pub open spec fn insert_target_desc(s: Seq<TargetProfitLossV>, x: TargetProfitLossV) -> Seq<
    TargetProfitLossV,
>
    decreases s.len(),
{
    if s.len() > 0 && x.cost_position_rate.le_spec(s[0].cost_position_rate) {
        seq![s[0]] + insert_target_desc(s.drop_first(), x)
    } else {
        seq![x] + s
    }
}

/// Stable insertion sort of instruments by cost-exposure ratio, descending.
pub open spec fn sort_targets_desc(s: Seq<TargetProfitLossV>) -> Seq<TargetProfitLossV>
    decreases s.len(),
{
    if s.len() == 0 {
        Seq::empty()
    } else {
        insert_target_desc(sort_targets_desc(s.drop_last()), s.last())
    }
}

} // verus!
