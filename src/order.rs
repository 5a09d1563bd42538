//! Open orders of the account.
use vstd::prelude::*;

use crate::decimal::Decimal;
use crate::position::opt_wf;

verus! {

/// The side of an order.
#[derive(Clone, Copy, Debug, PartialEq, Eq, Structural)]
pub enum Side {
    Buy,
    Sell,
}

/// How long an order stays active.
#[derive(Clone, Copy, Debug, PartialEq, Eq, Structural)]
pub enum TimeInForce {
    /// For the current trading day.
    Today,
    /// Filled entirely at once, or canceled.
    FillOrKill,
    /// Filled at once as far as possible, the rest canceled.
    ImmediateOrCancel,
    /// Until filled or canceled.
    UntilCanceled,
    /// Until the market opens.
    UntilMarketOpen,
    /// Until the market closes.
    UntilMarketClose,
}

/// How much an order trades.
#[derive(Clone, Copy, Debug)]
pub enum Amount {
    /// A number of units.
    Quantity { quantity: Decimal },
    /// A monetary value.
    Notional { notional: Decimal },
}

/// A snapshot of one open order.
#[derive(Clone, Debug)]
pub struct Order {
    /// The order's identifier, as the brokerage prints it.
    pub id: String,
    pub symbol: String,
    pub side: Side,
    pub amount: Amount,
    pub limit_price: Option<Decimal>,
    pub stop_price: Option<Decimal>,
    pub time_in_force: TimeInForce,
}

impl Amount {
    pub open spec fn wf(&self) -> bool {
        match *self {
            Amount::Quantity { quantity } => quantity.wf(),
            Amount::Notional { notional } => notional.wf(),
        }
    }
}

impl Order {
    /// All the decimals of the order are within range.
    pub open spec fn wf(&self) -> bool {
        &&& self.amount.wf()
        &&& opt_wf(self.limit_price)
        &&& opt_wf(self.stop_price)
    }
}

/// The type of an order, as its prices make it.
#[derive(Clone, Copy, Debug, PartialEq, Eq, Structural)]
pub enum Type {
    /// No limit price and no stop price.
    Market,
    /// A limit price alone.
    Limit,
    /// A stop price alone.
    Stop,
    /// Both a limit price and a stop price.
    StopLimit,
}

/// The type of an order with the given prices.
pub open spec fn type_of(limit_price: Option<Decimal>, stop_price: Option<Decimal>) -> Type {
    match (limit_price, stop_price) {
        (Some(_), Some(_)) => Type::StopLimit,
        (Some(_), None) => Type::Limit,
        (None, Some(_)) => Type::Stop,
        (None, None) => Type::Market,
    }
}

/// Determine the type of an order by looking at the limit and stop
/// prices, if any.
pub fn determine_order_type(limit_price: &Option<Decimal>, stop_price: &Option<Decimal>) -> (r:
    Type)
    ensures
        r == type_of(*limit_price, *stop_price),
{
    match (limit_price.is_some(), stop_price.is_some()) {
        (true, true) => Type::StopLimit,
        (true, false) => Type::Limit,
        (false, true) => Type::Stop,
        (false, false) => Type::Market,
    }
}

} // verus!
