//! Open positions of the account.
use vstd::prelude::*;

use crate::decimal::Decimal;

verus! {

/// The side of a position.
#[derive(Clone, Copy, Debug, PartialEq, Eq, Structural)]
pub enum Side {
    Long,
    Short,
}

/// A snapshot of one open position.
#[derive(Clone, Debug)]
pub struct Position {
    /// The symbol of the asset held; unique among the positions of a snapshot.
    pub symbol: String,
    pub side: Side,
    /// How much of the asset is held.
    pub quantity: Decimal,
    /// The cost basis per unit.
    pub average_entry_price: Decimal,
    /// The current price per unit, where market data is at hand.
    pub current_price: Option<Decimal>,
    /// The total unrealized gain as a fraction of the cost basis
    /// (`0.05` is five percent).
    pub unrealized_gain_total_percent: Option<Decimal>,
}

/// An optional decimal that is well formed where present.
pub open spec fn opt_wf(d: Option<Decimal>) -> bool {
    match d {
        Some(x) => x.wf(),
        None => true,
    }
}

impl Position {
    /// All the decimals of the position are within range.
    pub open spec fn wf(&self) -> bool {
        &&& self.quantity.wf()
        &&& self.average_entry_price.wf()
        &&& opt_wf(self.current_price)
        &&& opt_wf(self.unrealized_gain_total_percent)
    }
}

} // verus!
