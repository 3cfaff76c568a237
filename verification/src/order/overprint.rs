//! The standing of one order among its rivals.
use vstd::prelude::*;
use super::price::{Price, unset_price};

verus! {

/// How an order stands against the rival orders of its market.
#[derive(Clone, Copy)]
pub struct Overprint {
    /// How many rivals offer a better price (0: the order is first).
    pub position: i64,
    /// The best rival price seen; NaN while none was seen.
    pub best_price: Price,
    /// How many rivals were looked at.
    pub analyzed: i64,
}

/// The standing before any rival is looked at.
pub open spec fn fresh_overprint(o: Overprint) -> bool {
    &&& o.position == 0
    &&& o.best_price == unset_price()
    &&& o.analyzed == 0
}

impl Overprint {
    /// No rival looked at, no position lost, no best price.
    pub fn new() -> (o: Overprint)
        ensures
            fresh_overprint(o),
    {
        Overprint { position: 0, best_price: Price::default(), analyzed: 0 }
    }
}

} // verus!
