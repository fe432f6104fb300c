//! The way of a trade: buying or selling.
use crate::error::{conversion_message, Error};
use vstd::prelude::*;

verus! {

/// Whether a trade buys or sells the instrument.
#[derive(Debug, Clone, Copy, PartialEq, Eq, Structural)]
pub enum Way {
    Buy,
    Sell,
}

/// The name under which a way is displayed.
pub open spec fn spec_way_display(way: Way) -> Seq<char> {
    match way {
        Way::Buy => "Buy"@,
        Way::Sell => "Sell"@,
    }
}

/// The name under which a way is written in a portfolio file.
pub open spec fn spec_way_name(way: Way) -> Seq<char> {
    match way {
        Way::Buy => "buy"@,
        Way::Sell => "sell"@,
    }
}

impl Way {
    /// The displayed name of the way: "Buy" or "Sell".
    pub fn to_string(&self) -> (r: String)
        ensures
            r@ == spec_way_display(*self),
    {
        match self {
            Way::Buy => "Buy".to_owned(),
            Way::Sell => "Sell".to_owned(),
        }
    }

    /// Reads the way written in a portfolio file: "buy" or "sell"; any other
    /// text is a referential error.
    pub fn from_name(value: &str) -> (r: Result<Way, Error>)
        ensures
            match r {
                Ok(way) => spec_way_name(way) == value@,
                Err(err) => {
                    &&& value@ != "buy"@
                    &&& value@ != "sell"@
                    &&& err matches Error::Referential(msg)
                    &&& msg@ == "unable to convert "@ + value@ + " into "@ + "Way"@
                },
            },
    {
        let text = value.to_owned();
        if text == "buy".to_owned() {
            Ok(Way::Buy)
        } else if text == "sell".to_owned() {
            Ok(Way::Sell)
        } else {
            Err(Error::new_referential(conversion_message(value, "Way")))
        }
    }
}

} // verus!
