//! What the reports show: which dated rows pass the report's date filter,
//! which trades are listed, which formats the spreadsheet supports and how
//! its styles are named, and the lines of the instrument file written for
//! Portfolio Performance.
use crate::date::Date;
use crate::error::{concat, Error};
use crate::marketdata::Instrument;
use vstd::prelude::*;

verus! {

/// A row dated `date` is shown under the filter: strictly after the filter's
/// date, when there is one.
pub open spec fn spec_after_filter(filter: Option<Date>, date: Date) -> bool {
    match filter {
        Some(f) => f@ < date@,
        None => true,
    }
}

/// A row dated `date` is kept under the filter of the CSV portfolio
/// indicators: not before the filter's date, when there is one.
pub open spec fn spec_from_filter(filter: Option<Date>, date: Date) -> bool {
    match filter {
        Some(f) => f@ <= date@,
        None => true,
    }
}

/// Whether a row dated `date` is shown: strictly after the filter's date,
/// when there is one.
pub fn after_filter(filter: Option<Date>, date: Date) -> (r: bool)
    ensures
        r == spec_after_filter(filter, date),
{
    match filter {
        Some(f) => f.is_before(&date),
        None => true,
    }
}

/// Whether a row of the CSV portfolio indicators dated `date` is written:
/// not before the filter's date, when there is one.
pub fn from_filter(filter: Option<Date>, date: Date) -> (r: bool)
    ensures
        r == spec_from_filter(filter, date),
{
    match filter {
        Some(f) => !date.is_before(&f),
        None => true,
    }
}

/// Whether a trade dated `date` is listed in the spreadsheet: within the
/// priced period and strictly after the filter's date, when there is one.
pub fn trade_shown(date: Date, begin: Date, end: Date, filter: Option<Date>) -> (r: bool)
    ensures
        r == (begin@ <= date@ && date@ <= end@ && spec_after_filter(filter, date)),
{
    !end.is_before(&date) && !date.is_before(&begin) && after_filter(filter, date)
}

/// The rows, among the first `n` dated ones, shown in a position's CSV
/// indicators: those after the filter, up to the first closed one
/// included; and whether that closed row was reached.
pub open spec fn spec_rows_until_close(rows: Seq<(Date, bool)>, filter: Option<Date>, n: int) -> (Seq<usize>, bool)
    decreases n,
{
    if n <= 0 {
        (seq![], false)
    } else {
        let previous = spec_rows_until_close(rows, filter, n - 1);
        if previous.1 {
            previous
        } else if spec_after_filter(filter, rows[n - 1].0) {
            (previous.0.push((n - 1) as usize), rows[n - 1].1)
        } else {
            previous
        }
    }
}

/// The positions of the rows of a position's CSV indicators, each row
/// given by its date and whether the position is closed: those after the
/// filter, in order, up to the first closed one included.
pub fn rows_until_close(rows: &Vec<(Date, bool)>, filter: Option<Date>) -> (r: Vec<usize>)
    ensures
        r@ == spec_rows_until_close(rows@, filter, rows@.len() as int).0,
{
    let mut shown: Vec<usize> = Vec::new();
    let mut i: usize = 0;
    while i < rows.len()
        invariant
            i <= rows@.len(),
            spec_rows_until_close(rows@, filter, i as int) == (shown@, false),
        decreases rows@.len() - i,
    {
        let (date, closed) = rows[i];
        if after_filter(filter, date) {
            shown.push(i);
            if closed {
                proof {
                    lemma_rows_stop(rows@, filter, i as int + 1, rows@.len() as int);
                }
                return shown;
            }
        }
        i = i + 1;
    }
    shown
}

proof fn lemma_rows_stop(rows: Seq<(Date, bool)>, filter: Option<Date>, n: int, k: int)
    requires
        0 <= n <= k,
        spec_rows_until_close(rows, filter, n).1,
    ensures
        spec_rows_until_close(rows, filter, k) == spec_rows_until_close(rows, filter, n),
    decreases k - n,
{
    if k > n {
        lemma_rows_stop(rows, filter, n, k - 1);
    }
}

/// The symbol of the one currency the spreadsheet formats, the euro;
/// any other currency is an output error.
pub fn currency_symbol(name: &str) -> (r: Result<String, Error>)
    ensures
        name@ == "EUR"@ ==> (r matches Ok(symbol) && symbol@ == "\u{20ac}"@),
        name@ != "EUR"@ ==> (r matches Err(Error::Output(msg)) && msg@ == "unsupported currency "@ + name@),
{
    if name.to_owned() == "EUR".to_owned() {
        Ok("\u{20ac}".to_owned())
    } else {
        Err(Error::new_output(concat("unsupported currency ", name)))
    }
}

/// Checks that the spreadsheet formats dates as `name`: only
/// "DD/MM/YYYY" is; any other format is an output error.
pub fn check_date_format(name: &str) -> (r: Result<(), Error>)
    ensures
        name@ == "DD/MM/YYYY"@ ==> r is Ok,
        name@ != "DD/MM/YYYY"@ ==> (r matches Err(Error::Output(msg)) && msg@ == "unsupported date format "@
            + name@),
{
    if name.to_owned() == "DD/MM/YYYY".to_owned() {
        Ok(())
    } else {
        Err(Error::new_output(concat("unsupported date format ", name)))
    }
}

/// The name of the cell style of amounts in `currency`.
pub fn currency_style_name(currency: &str) -> (r: String)
    ensures
        r@ == "currency_style_"@ + currency@,
{
    concat("currency_style_", currency)
}

/// The name of the cell style of dates written as `format`.
pub fn date_style_name(format: &str) -> (r: String)
    ensures
        r@ == "date_style_"@ + format@,
{
    concat("date_style_", format)
}

/// The text of an optional ticker: the ticker, or nothing.
pub open spec fn ticker_text(ticker: Option<String>) -> Seq<char> {
    match ticker {
        Some(t) => t@,
        None => seq![],
    }
}

/// The line of `instrument` in the instrument file for Portfolio
/// Performance: its Yahoo ticker (empty without one), ISIN, description and
/// currency, separated by semicolons.
pub fn instrument_line(instrument: &Instrument) -> (r: String)
    ensures
        r@ == ticker_text(instrument.ticker_yahoo) + ";"@ + instrument.isin@ + ";"@ + instrument.description@ + ";"@
            + instrument.currency@ + "\n"@,
{
    let ticker = match &instrument.ticker_yahoo {
        Some(t) => t.clone(),
        None => String::new(),
    };
    let a = concat(ticker.as_str(), ";");
    let b = concat(a.as_str(), instrument.isin.as_str());
    let c = concat(b.as_str(), ";");
    let d = concat(c.as_str(), instrument.description.as_str());
    let e = concat(d.as_str(), ";");
    let f = concat(e.as_str(), instrument.currency.as_str());
    let r = concat(f.as_str(), "\n");
    assert(r@ =~= ticker_text(instrument.ticker_yahoo) + ";"@ + instrument.isin@ + ";"@ + instrument.description@
        + ";"@ + instrument.currency@ + "\n"@);
    r
}

/// The position of the first of the first `n` names that is `name`.
pub open spec fn spec_first_named(names: Seq<String>, name: Seq<char>, n: int) -> Option<int>
    decreases n,
{
    if n <= 0 {
        None
    } else {
        match spec_first_named(names, name, n - 1) {
            Some(i) => Some(i),
            None => if names[n - 1]@ == name {
                Some(n - 1)
            } else {
                None
            },
        }
    }
}

proof fn lemma_first_named_stays(names: Seq<String>, name: Seq<char>, n: int, k: int)
    requires
        0 <= n <= k,
        spec_first_named(names, name, n) is Some,
    ensures
        spec_first_named(names, name, k) == spec_first_named(names, name, n),
    decreases k - n,
{
    if k > n {
        lemma_first_named_stays(names, name, n, k - 1);
    }
}

/// The position of the first sheet named `name` among the sheets of a
/// workbook, given by their names: a sheet written again replaces it.
pub fn sheet_index(names: &Vec<String>, name: &str) -> (r: Option<usize>)
    ensures
        match spec_first_named(names@, name@, names@.len() as int) {
            Some(i) => r == Some(i as usize),
            None => r is None,
        },
{
    let wanted = name.to_owned();
    let mut i: usize = 0;
    while i < names.len()
        invariant
            i <= names@.len(),
            wanted@ == name@,
            spec_first_named(names@, name@, i as int) is None,
        decreases names@.len() - i,
    {
        if names[i] == wanted {
            proof {
                lemma_first_named_stays(names@, name@, i as int + 1, names@.len() as int);
            }
            return Some(i);
        }
        i = i + 1;
    }
    None
}

} // verus!
