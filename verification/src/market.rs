//! The markets of the exchange.

use vstd::prelude::*;

verus! {

/// The exchange's two markets.
#[derive(Clone, Copy, Debug, PartialEq, Eq, Structural)]
pub enum MarketType {
    Spot,
    Future,
}

} // verus!
