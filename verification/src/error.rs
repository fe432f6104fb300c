//! The library's error, one variant for each part of the program that
//! reports a failure, each carrying its message.
use vstd::prelude::*;

verus! {

/// A failure, tagged with the part of the program that reports it.
#[derive(Debug, PartialEq, Eq)]
pub enum Error {
    /// Historical market data could not be obtained.
    Historical(String),
    /// The portfolio lacks what a computation needs.
    Portfolio(String),
    /// A referential entry (currency, market, instrument, portfolio) is invalid.
    Referential(String),
    /// A report could not be written.
    Output(String),
}

impl Error {
    /// A historical-data error with the given message.
    pub fn new_historical(msg: String) -> (r: Error)
        ensures
            r == Error::Historical(msg),
    {
        Error::Historical(msg)
    }

    /// A portfolio error with the given message.
    pub fn new_portfolio(msg: String) -> (r: Error)
        ensures
            r == Error::Portfolio(msg),
    {
        Error::Portfolio(msg)
    }

    /// A referential error with the given message.
    pub fn new_referential(msg: String) -> (r: Error)
        ensures
            r == Error::Referential(msg),
    {
        Error::Referential(msg)
    }

    /// An output error with the given message.
    pub fn new_output(msg: String) -> (r: Error)
        ensures
            r == Error::Output(msg),
    {
        Error::Output(msg)
    }
}

/// The two texts one after the other.
pub(crate) fn concat(left: &str, right: &str) -> (r: String)
    ensures
        r@ == left@ + right@,
{
    let mut r = String::from_str(left);
    r.append(right);
    r
}

/// The character of the decimal digit `digit` (0 to 9).
pub open spec fn digit_char(digit: nat) -> char {
    (digit + 48) as char
}

/// The decimal digits of `n`, most significant first, without leading zero.
pub open spec fn decimal_text(n: nat) -> Seq<char>
    decreases n,
{
    if n < 10 {
        seq![digit_char(n)]
    } else {
        decimal_text(n / 10).push(digit_char(n % 10))
    }
}

/// The text of the decimal digit `digit`.
fn digit_text(digit: usize) -> (r: &'static str)
    requires
        digit < 10,
    ensures
        r@ == seq![digit_char(digit as nat)],
{
    proof {
        reveal_strlit("0");
        reveal_strlit("1");
        reveal_strlit("2");
        reveal_strlit("3");
        reveal_strlit("4");
        reveal_strlit("5");
        reveal_strlit("6");
        reveal_strlit("7");
        reveal_strlit("8");
        reveal_strlit("9");
    }
    if digit == 0 {
        "0"
    } else if digit == 1 {
        "1"
    } else if digit == 2 {
        "2"
    } else if digit == 3 {
        "3"
    } else if digit == 4 {
        "4"
    } else if digit == 5 {
        "5"
    } else if digit == 6 {
        "6"
    } else if digit == 7 {
        "7"
    } else if digit == 8 {
        "8"
    } else {
        "9"
    }
}

/// The decimal digits of `n`, as `Display` writes an unsigned integer.
pub(crate) fn usize_text(n: usize) -> (r: String)
    ensures
        r@ == decimal_text(n as nat),
    decreases n,
{
    if n < 10 {
        String::from_str(digit_text(n))
    } else {
        let mut r = usize_text(n / 10);
        r.append(digit_text(n % 10));
        r
    }
}

/// The message of a value that names no variant of the target type:
/// "unable to convert `value` into `target`".
pub(crate) fn conversion_message(value: &str, target: &str) -> (r: String)
    ensures
        r@ == "unable to convert "@ + value@ + " into "@ + target@,
{
    let head = concat("unable to convert ", value);
    let middle = concat(head.as_str(), " into ");
    let r = concat(middle.as_str(), target);
    assert(r@ =~= "unable to convert "@ + value@ + " into "@ + target@);
    r
}

} // verus!
