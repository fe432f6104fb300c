//! The sources of the portfolio's cash variations.
use crate::error::{conversion_message, Error};
use vstd::prelude::*;

verus! {

/// Where a variation of the portfolio's cash comes from.
#[derive(Debug, Clone, Copy, PartialEq, Eq, Structural)]
pub enum CashVariationSource {
    Payment,
    MarketRegulatory,
    Synchronize,
}

impl CashVariationSource {
    /// Reads the source written in a portfolio file: only "payment" is
    /// accepted there; any other text is a referential error.
    pub fn from_name(value: &str) -> (r: Result<CashVariationSource, Error>)
        ensures
            match r {
                Ok(source) => source == CashVariationSource::Payment && value@ == "payment"@,
                Err(err) => {
                    &&& value@ != "payment"@
                    &&& err matches Error::Referential(msg)
                    &&& msg@ == "unable to convert "@ + value@ + " into "@ + "CashVariationSource"@
                },
            },
    {
        let text = value.to_owned();
        if text == "payment".to_owned() {
            Ok(CashVariationSource::Payment)
        } else {
            Err(Error::new_referential(conversion_message(value, "CashVariationSource")))
        }
    }
}

} // verus!
