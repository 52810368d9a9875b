//! Market data model: sides, price levels, trades and detector signals.
//!
//! All prices, quantities, strengths and confidences are fixed-point `i64`
//! values scaled by [`crate::num::SCALE`].

use vstd::prelude::*;
use crate::num::{SCALE, scale};

verus! {

/// Largest representable price (10^8 price units at the fixed-point scale).
pub const MAX_PRICE: i64 = 1_000_000_000_000;

/// Largest representable quantity per level or trade (10^6 units).
pub const MAX_QTY: i64 = 10_000_000_000;

/// A price is valid when it is non-negative and within the supported range.
pub open spec fn valid_price(p: i64) -> bool {
    0 <= p <= MAX_PRICE
}

/// A quantity is valid when it is non-negative and within the supported range.
pub open spec fn valid_qty(q: i64) -> bool {
    0 <= q <= MAX_QTY
}

/// Side of the book or of a trade.
#[derive(Clone, Copy, Debug, PartialEq, Eq, Structural)]
pub enum Side {
    Buy,
    Sell,
}

impl Side {
    /// The opposite side, used when closing a position.
    pub fn opposite(&self) -> (r: Side)
        ensures
            r == (if self is Buy { Side::Sell } else { Side::Buy }),
    {
        match self {
            Side::Buy => Side::Sell,
            Side::Sell => Side::Buy,
        }
    }
}

/// One resting price level: a price point and its aggregate quantity.
#[derive(Clone, Copy, Debug, PartialEq, Eq, Structural)]
pub struct PriceLevel {
    pub price: i64,
    pub quantity: i64,
}

impl PriceLevel {
    /// A stored level always carries a valid price and a positive quantity:
    /// a level with zero quantity is absent from the book, not present.
    pub open spec fn wf(self) -> bool {
        valid_price(self.price) && 0 < self.quantity <= MAX_QTY
    }
}

/// One executed trade from the market stream.
#[derive(Clone, Copy, Debug, PartialEq, Eq, Structural)]
pub struct Trade {
    pub id: u64,
    pub price: i64,
    pub quantity: i64,
    pub side: Side,
    pub timestamp_ms: u64,
    pub is_buyer_maker: bool,
}

impl Trade {
    /// A trade the analyzer accepts: price and quantity in range.
    pub open spec fn wf(self) -> bool {
        valid_price(self.price) && valid_qty(self.quantity)
    }

    /// The buyer initiated against resting liquidity.
    pub open spec fn spec_is_aggressive_buy(self) -> bool {
        self.side is Buy && !self.is_buyer_maker
    }

    /// The seller initiated against resting liquidity.
    pub open spec fn spec_is_aggressive_sell(self) -> bool {
        self.side is Sell && self.is_buyer_maker
    }

    /// The buyer initiated against resting liquidity.
    pub fn is_aggressive_buy(&self) -> (r: bool)
        ensures
            r == self.spec_is_aggressive_buy(),
    {
        matches!(self.side, Side::Buy) && !self.is_buyer_maker
    }

    /// The seller initiated against resting liquidity.
    pub fn is_aggressive_sell(&self) -> (r: bool)
        ensures
            r == self.spec_is_aggressive_sell(),
    {
        matches!(self.side, Side::Sell) && self.is_buyer_maker
    }
}

/// A named diagnostic value attached to a signal.
#[derive(Debug)]
pub struct SignalComponent {
    pub name: String,
    pub value: i64,
    pub weight: i64,
}

impl SignalComponent {
    /// Builds a component; the name is copied.
    pub fn new(name: &str, value: i64, weight: i64) -> (r: SignalComponent)
        ensures
            r.name@ == name@,
            r.value == value,
            r.weight == weight,
    {
        SignalComponent { name: <String as vstd::string::StringExecFns>::from_str(name), value, weight }
    }
}

/// A directional signal produced by exactly one detector invocation.
#[derive(Debug)]
pub struct Signal {
    /// Signed strength; for the imbalance detector this is the z-score.
    pub strength: i64,
    pub direction: Side,
    /// Confidence in `[0, SCALE]`.
    pub confidence: i64,
    pub timestamp_ms: u64,
    pub components: Vec<SignalComponent>,
}

impl Signal {
    /// Absolute strength, exact even for the most negative value.
    pub fn abs_strength(&self) -> (r: u64)
        ensures
            r == abs_i64(self.strength),
    {
        if self.strength >= 0 {
            self.strength as u64
        } else if self.strength == i64::MIN {
            9_223_372_036_854_775_808u64
        } else {
            (-self.strength) as u64
        }
    }
}

/// Absolute value of an `i64` as an `int`.
pub open spec fn abs_i64(x: i64) -> int {
    if x >= 0 {
        x as int
    } else {
        -(x as int)
    }
}

/// Half of the scale: the 0.5 confidence floor used by tradeability checks.
pub open spec fn half_scale() -> int {
    scale() / 2
}

} // verus!
