//! Position records: one buy lot of an instrument, open or closed, optionally
//! linked to a parent record via partial-sale splitting.
//!
//! Prices are fixed-point integers in minor units (see `PRICE_SCALE`); share
//! counts are plain integers.  The bounds below are what keeps every sum and
//! product in the engine inside its machine integer type.

use vstd::prelude::*;

use crate::error::AppError;
use crate::rational::Rational;

verus! {

/// Number of minor units per currency unit for all fixed-point prices.
pub const PRICE_SCALE: i64 = 100;

/// Largest accepted price, in minor units.
pub const MAX_PRICE: i64 = 1_000_000_000;

/// Largest accepted share count for one lot.
pub const MAX_QUANTITY: i64 = 1_000_000;

/// Largest accepted number of position records per engine call.
pub const MAX_POSITIONS: usize = 10_000;

/// Largest accepted full-position capital constant, in minor units.
pub const MAX_FULL_POSITION: i64 = 1_000_000_000_000_000;

/// Lifecycle state of a position record.
#[derive(Clone, Copy, Debug, PartialEq, Eq, Structural)]
pub enum PositionStatus {
    /// The lot is currently held.
    Open,
    /// The lot has been sold (fully, or as the split-off part of a reduction).
    Closed,
}

/// Mathematical image of a `Position`.
pub struct PositionV {
    pub id: Seq<char>,
    pub code: Seq<char>,
    pub name: Seq<char>,
    pub buy_price: int,
    pub buy_date: Seq<char>,
    pub quantity: int,
    pub status: PositionStatus,
    pub portfolio: Seq<char>,
    pub sell_price: Option<int>,
    pub sell_date: Option<Seq<char>>,
    pub parent_id: Option<Seq<char>>,
}

impl PositionV {
    /// Bounds that every record handed to the engine must satisfy.
    pub open spec fn wf(self) -> bool {
        &&& 0 < self.buy_price <= MAX_PRICE
        &&& 0 < self.quantity <= MAX_QUANTITY
        &&& match self.sell_price {
            Some(p) => 0 <= p <= MAX_PRICE,
            None => true,
        }
    }
}

/// One holding: a buy lot with its lifecycle fields.
#[derive(Debug, Clone)]
pub struct Position {
    /// Unique, opaque identifier.
    pub id: String,
    /// Instrument code.
    pub code: String,
    /// Instrument display name.
    pub name: String,
    /// Buy price in minor units (positive).
    pub buy_price: i64,
    /// Buy date, `YYYY-MM-DD`.
    pub buy_date: String,
    /// Number of shares bought (positive).
    pub quantity: i64,
    /// Lifecycle state.
    pub status: PositionStatus,
    /// Name of the owning portfolio.
    pub portfolio: String,
    /// Sell price in minor units; present when the record is closed.
    pub sell_price: Option<i64>,
    /// Sell date, `YYYY-MM-DD`; present when the record is closed.
    pub sell_date: Option<String>,
    /// Identifier of the record this partial-sale record was split from.
    pub parent_id: Option<String>,
}

impl DeepView for Position {
    type V = PositionV;

    open spec fn deep_view(&self) -> PositionV {
        PositionV {
            id: self.id@,
            code: self.code@,
            name: self.name@,
            buy_price: self.buy_price as int,
            buy_date: self.buy_date@,
            quantity: self.quantity as int,
            status: self.status,
            portfolio: self.portfolio@,
            sell_price: match self.sell_price {
                Some(p) => Some(p as int),
                None => None,
            },
            sell_date: match self.sell_date {
                Some(ref d) => Some(d@),
                None => None,
            },
            parent_id: match self.parent_id {
                Some(ref p) => Some(p@),
                None => None,
            },
        }
    }
}

/// What the lowercase form of a string is; only `str::to_lowercase` defines it.
pub uninterp spec fn lower_of(s: Seq<char>) -> Seq<char>;

/// Relies on `str::to_lowercase`: the result is a function of the characters
/// alone, named here as `lower_of`.
#[verifier::external_body]
fn lowercase(s: &str) -> (r: String)
    ensures
        r@ == lower_of(s@),
{
    s.to_lowercase()
}

/// Relies on `uuid::Uuid::new_v4` and `Uuid`'s `Display` form: a freshly
/// generated random identifier rendered as 36 hyphenated characters.  Nothing
/// further can be promised of a random value.
#[verifier::external_body]
fn fresh_uuid() -> (r: String)
    ensures
        r@.len() == 36,
{
    uuid::Uuid::new_v4().to_string()
}

impl Position {
    /// A new open lot with a freshly generated identifier.
    pub fn new(
        code: String,
        name: String,
        buy_price: i64,
        buy_date: String,
        quantity: i64,
        portfolio: String,
    ) -> (r: Position)
        ensures
            r.id@.len() == 36,
            r.code == code,
            r.name == name,
            r.buy_price == buy_price,
            r.buy_date == buy_date,
            r.quantity == quantity,
            r.status == PositionStatus::Open,
            r.portfolio == portfolio,
            r.sell_price is None,
            r.sell_date is None,
            r.parent_id is None,
    {
        Position {
            id: fresh_uuid(),
            code,
            name,
            buy_price,
            buy_date,
            quantity,
            status: PositionStatus::Open,
            portfolio,
            sell_price: None,
            sell_date: None,
            parent_id: None,
        }
    }

    /// A new open lot built from a creation request; the instrument code is
    /// normalized to lowercase.
    pub fn from_request(req: CreatePositionRequest) -> (r: Position)
        ensures
            r.id@.len() == 36,
            r.code@ == lower_of(req.code@),
            r.name == req.name,
            r.buy_price == req.buy_price,
            r.buy_date == req.buy_date,
            r.quantity == req.quantity,
            r.status == PositionStatus::Open,
            r.portfolio == req.portfolio,
            r.sell_price is None,
            r.sell_date is None,
            r.parent_id is None,
    {
        let code = lowercase(req.code.as_str());
        Position::new(code, req.name, req.buy_price, req.buy_date, req.quantity, req.portfolio)
    }

    /// Field-constraint validation, with the exact error for the first
    /// constraint violated: non-empty code and name, positive price and
    /// quantity.
    pub fn validate(&self) -> (r: Result<(), AppError>)
        ensures
            self.code@.len() == 0 ==> (r matches Err(e) && e matches AppError::InvalidInput(m)
                && m@ == "股票代码不能为空"@),
            self.code@.len() != 0 && self.name@.len() == 0 ==> (r matches Err(e)
                && e matches AppError::InvalidInput(m) && m@ == "股票名称不能为空"@),
            self.code@.len() != 0 && self.name@.len() != 0 && self.buy_price <= 0 ==> (r matches
                Err(e) && e matches AppError::InvalidInput(m) && m@ == "买入价格必须大于0"@),
            self.code@.len() != 0 && self.name@.len() != 0 && self.buy_price > 0 && self.quantity
                <= 0 ==> (r matches Err(e) && e matches AppError::InvalidInput(m) && m@
                == "买入数量必须大于0"@),
            (r matches Ok(v)) <==> (self.code@.len() != 0 && self.name@.len() != 0
                && self.buy_price > 0 && self.quantity > 0),
    {
        if self.code.as_str().is_empty() {
            return Err(AppError::InvalidInput("股票代码不能为空".to_owned()));
        }
        if self.name.as_str().is_empty() {
            return Err(AppError::InvalidInput("股票名称不能为空".to_owned()));
        }
        if self.buy_price <= 0 {
            return Err(AppError::InvalidInput("买入价格必须大于0".to_owned()));
        }
        if self.quantity <= 0 {
            return Err(AppError::InvalidInput("买入数量必须大于0".to_owned()));
        }
        Ok(())
    }

    /// Whether every numeric field is inside the engine's bounds.
    pub fn within_limits(&self) -> (r: bool)
        ensures
            r == self.deep_view().wf(),
    {
        0 < self.buy_price && self.buy_price <= MAX_PRICE && 0 < self.quantity && self.quantity
            <= MAX_QUANTITY && match self.sell_price {
            Some(p) => 0 <= p && p <= MAX_PRICE,
            None => true,
        }
    }

    /// Mark the lot as closed; all other fields keep their values.
    pub fn close(&mut self)
        ensures
            final(self).deep_view() == (PositionV {
                status: PositionStatus::Closed,
                ..old(self).deep_view()
            }),
    {
        self.status = PositionStatus::Closed;
    }

    /// Whether the lot is currently held.
    pub fn is_position(&self) -> (r: bool)
        ensures
            r == (self.status == PositionStatus::Open),
    {
        match self.status {
            PositionStatus::Open => true,
            PositionStatus::Closed => false,
        }
    }

    /// Whether the lot has been sold.
    pub fn is_closed(&self) -> (r: bool)
        ensures
            r == (self.status == PositionStatus::Closed),
    {
        match self.status {
            PositionStatus::Open => false,
            PositionStatus::Closed => true,
        }
    }

    /// Close the lot entirely, recording the sale; rejects a non-positive
    /// sell price and leaves the record untouched in that case.
    pub fn close_out(&mut self, sell_price: i64, sell_date: String) -> (r: Result<(), AppError>)
        ensures
            sell_price <= 0 ==> (r matches Err(e) && e matches AppError::InvalidInput(m) && m@
                == "卖出价格必须大于0"@ && *final(self) == *old(self)),
            sell_price > 0 ==> (r matches Ok(v) && final(self).deep_view() == (PositionV {
                status: PositionStatus::Closed,
                sell_price: Some(sell_price as int),
                sell_date: Some(sell_date@),
                ..old(self).deep_view()
            })),
    {
        if sell_price <= 0 {
            return Err(AppError::InvalidInput("卖出价格必须大于0".to_owned()));
        }
        self.status = PositionStatus::Closed;
        self.sell_price = Some(sell_price);
        self.sell_date = Some(sell_date);
        Ok(())
    }

    /// Partial sale: split off a closed record of `reduce_quantity` shares
    /// (linked back through `parent_id`) and reduce this lot's share count.
    /// The caller supplies the identifier for the split-off record.
    pub fn reduce(
        &mut self,
        reduce_quantity: i64,
        sell_price: i64,
        sell_date: String,
        sold_id: String,
    ) -> (r: Result<Position, AppError>)
        ensures
            old(self).status != PositionStatus::Open ==> (r matches Err(e) && e matches
                AppError::InvalidInput(m) && m@ == "只能对持仓中的记录进行减仓操作"@
                && *final(self) == *old(self)),
            old(self).status == PositionStatus::Open && reduce_quantity <= 0 ==> (r matches Err(e)
                && e matches AppError::InvalidInput(m) && m@ == "减仓数量必须大于0"@ && *final(self)
                == *old(self)),
            old(self).status == PositionStatus::Open && reduce_quantity > 0 && reduce_quantity
                >= old(self).quantity ==> (r matches Err(e) && e matches AppError::InvalidInput(m)
                && m@ == "减仓数量必须小于持有数量，如需全部卖出请使用平仓功能"@ && *final(self)
                == *old(self)),
            old(self).status == PositionStatus::Open && 0 < reduce_quantity < old(self).quantity
                && sell_price <= 0 ==> (r matches Err(e) && e matches AppError::InvalidInput(m)
                && m@ == "卖出价格必须大于0"@ && *final(self) == *old(self)),
            old(self).status == PositionStatus::Open && 0 < reduce_quantity < old(self).quantity
                && sell_price > 0 ==> (r matches Ok(sold) && final(self).deep_view() == (PositionV {
                quantity: old(self).quantity - reduce_quantity,
                ..old(self).deep_view()
            }) && sold.deep_view() == (PositionV {
                id: sold_id@,
                code: old(self).code@,
                name: old(self).name@,
                buy_price: old(self).buy_price as int,
                buy_date: old(self).buy_date@,
                quantity: reduce_quantity as int,
                status: PositionStatus::Closed,
                portfolio: old(self).portfolio@,
                sell_price: Some(sell_price as int),
                sell_date: Some(sell_date@),
                parent_id: Some(old(self).id@),
            })),
    {
        if !self.is_position() {
            return Err(AppError::InvalidInput("只能对持仓中的记录进行减仓操作".to_owned()));
        }
        if reduce_quantity <= 0 {
            return Err(AppError::InvalidInput("减仓数量必须大于0".to_owned()));
        }
        if reduce_quantity >= self.quantity {
            return Err(
                AppError::InvalidInput(
                    "减仓数量必须小于持有数量，如需全部卖出请使用平仓功能".to_owned(),
                ),
            );
        }
        if sell_price <= 0 {
            return Err(AppError::InvalidInput("卖出价格必须大于0".to_owned()));
        }
        let sold = Position {
            id: sold_id,
            code: self.code.clone(),
            name: self.name.clone(),
            buy_price: self.buy_price,
            buy_date: self.buy_date.clone(),
            quantity: reduce_quantity,
            status: PositionStatus::Closed,
            portfolio: self.portfolio.clone(),
            sell_price: Some(sell_price),
            sell_date: Some(sell_date),
            parent_id: Some(self.id.clone()),
        };
        self.quantity = self.quantity - reduce_quantity;
        Ok(sold)
    }

    /// Realized profit/loss of a closed lot: `(sell - buy) * quantity`.
    pub fn realized_profit_loss(&self) -> (r: Option<i64>)
        requires
            self.deep_view().wf(),
        ensures
            r == match (self.status, self.sell_price) {
                (PositionStatus::Closed, Some(sp)) => Some(
                    (((sp - self.buy_price) * self.quantity) as i64),
                ),
                _ => None,
            },
    {
        match (self.status, self.sell_price) {
            (PositionStatus::Closed, Some(sp)) => {
                proof {
                    lemma_trade_product_bounded(
                        sp - self.buy_price,
                        self.quantity as int,
                    );
                }
                Some((sp - self.buy_price) * self.quantity)
            },
            _ => None,
        }
    }

    /// Realized profit/loss rate of a closed lot: profit/loss over cost,
    /// zero when the cost is zero.
    pub fn realized_profit_loss_rate(&self) -> (r: Option<Rational>)
        requires
            self.deep_view().wf(),
        ensures
            r == match (self.status, self.sell_price) {
                (PositionStatus::Closed, Some(sp)) => Some(
                    Rational {
                        num: ((sp - self.buy_price) * self.quantity) as i128,
                        den: (self.buy_price * self.quantity) as i128,
                    },
                ),
                _ => None,
            },
            r matches Some(rate) ==> rate.wf(),
    {
        match self.realized_profit_loss() {
            Some(pnl) => {
                proof {
                    lemma_trade_product_bounded(self.buy_price as int, self.quantity as int);
                    lemma_trade_product_bounded(
                        self.sell_price->0 - self.buy_price,
                        self.quantity as int,
                    );
                }
                let cost: i64 = self.buy_price * self.quantity;
                Some(Rational::new(pnl as i128, cost as i128))
            },
            None => None,
        }
    }
}

/// A price difference within `MAX_PRICE` times a quantity within
/// `MAX_QUANTITY` stays well inside `i64` (and `RAT_BOUND`).
pub proof fn lemma_trade_product_bounded(d: int, q: int)
    requires
        -MAX_PRICE <= d <= MAX_PRICE,
        0 <= q <= MAX_QUANTITY,
    ensures
        -(MAX_PRICE as int) * (MAX_QUANTITY as int) <= d * q <= (MAX_PRICE as int) * (
        MAX_QUANTITY as int),
        0 < d && 0 < q ==> 0 < d * q,
{
    assert((-(MAX_PRICE as int) * (MAX_QUANTITY as int) <= d * q <= (MAX_PRICE as int) * (
    MAX_QUANTITY as int)) && (0 < d && 0 < q ==> 0 < d * q)) by (nonlinear_arith)
        requires
            -MAX_PRICE <= d <= MAX_PRICE,
            0 <= q <= MAX_QUANTITY,
    ;
}

/// Request payload for creating a position.
#[derive(Debug, Clone)]
pub struct CreatePositionRequest {
    pub code: String,
    pub name: String,
    /// Buy price in minor units.
    pub buy_price: i64,
    pub buy_date: String,
    pub quantity: i64,
    pub portfolio: String,
}

/// Request payload for updating a position's lifecycle state.
#[derive(Debug, Clone)]
pub struct UpdatePositionStatusRequest {
    pub id: String,
    pub status: String,
}

} // verus!
