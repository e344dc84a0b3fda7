//! Orders and the side of the market they stand on.

use vstd::prelude::*;

use crate::error::MarketError;

verus! {

/// Which side of the market an order stands on.
#[derive(Clone, Copy, Debug, PartialEq, Eq, Structural)]
pub enum Side {
    Buy,
    Sell,
}

/// A limit order. Orders are never changed once made: an order is either
/// resting in a book or gone from it.
#[derive(Clone, Copy, Debug, PartialEq, Eq, Structural)]
pub struct Order {
    pub id: u64,
    pub side: Side,
    pub price: u64,
    pub amount: u64,
}

impl Side {
    /// The wire tag of a side: `0` for buy, `1` for sell.
    pub open spec fn tag_of(self) -> u8 {
        match self {
            Side::Buy => 0,
            Side::Sell => 1,
        }
    }

    /// Reads a side from its tag byte; any other byte is invalid input.
    pub fn from_tag(tag: u8) -> (r: Result<Side, MarketError>)
        ensures
            r matches Ok(s) ==> s.tag_of() == tag,
            r is Err <==> tag > 1,
            r matches Err(e) ==> e == MarketError::InvalidInput,
    {
        if tag == 0 {
            Ok(Side::Buy)
        } else if tag == 1 {
            Ok(Side::Sell)
        } else {
            Err(MarketError::InvalidInput)
        }
    }
}

/// Whether a resting order can fill a request on `side` at limit `price`:
/// a buy takes a sell priced at or below its limit, a sell takes a buy
/// priced at or above it.
pub open spec fn compatible(side: Side, price: u64, resting: Order) -> bool {
    match side {
        Side::Buy => resting.side == Side::Sell && resting.price <= price,
        Side::Sell => resting.side == Side::Buy && resting.price >= price,
    }
}

/// Executable form of [`compatible`].
pub fn is_compatible(side: Side, price: u64, resting: &Order) -> (r: bool)
    ensures
        r == compatible(side, price, *resting),
{
    match side {
        Side::Buy => resting.side == Side::Sell && resting.price <= price,
        Side::Sell => resting.side == Side::Buy && resting.price >= price,
    }
}

} // verus!
