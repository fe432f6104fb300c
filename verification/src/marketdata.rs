//! The referential's market data: markets and instruments.
use std::rc::Rc;
use vstd::prelude::*;

verus! {

/// A market on which instruments are listed.
#[derive(Debug, Default)]
pub struct Market {
    pub name: String,
    pub description: String,
}

/// An instrument of the referential, as the pricer identifies it: its
/// names, its market, the name of its currency, its Yahoo ticker and its
/// region. The instrument's name identifies it.
#[derive(Debug, Default)]
pub struct Instrument {
    pub name: String,
    pub isin: String,
    pub description: String,
    pub market: Rc<Market>,
    pub currency: String,
    pub ticker_yahoo: Option<String>,
    pub region: Option<String>,
    pub fund_category: String,
}

} // verus!
