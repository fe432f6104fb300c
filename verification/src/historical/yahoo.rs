//! What the Yahoo requester decides around its network request: the
//! ticker and the period to ask for, which quotes of the chart answer are
//! kept as daily prices, and the period the answer covers.
use crate::date::{chrono_date_text, chrono_in_range, timestamp_day, timestamp_seconds, Date};
use crate::error::{concat, decimal_text, usize_text, Error};
use crate::marketdata::Instrument;
use vstd::prelude::*;

verus! {

/// The requester of historical quotes from Yahoo Finance.
pub struct YahooRequester;

/// The open, close, high and low series of a block of Yahoo's chart
/// answer: for each timestamp of the block, the price if Yahoo gave one.
pub struct QuoteSeries<V> {
    pub open: Option<Vec<Option<V>>>,
    pub close: Option<Vec<Option<V>>>,
    pub high: Option<Vec<Option<V>>>,
    pub low: Option<Vec<Option<V>>>,
}

/// A block of Yahoo's chart answer: its timestamps, in seconds since
/// January 1, 1970 0:00:00 UTC, and its quote series.
pub struct ChartBlock<V> {
    pub timestamps: Option<Vec<i64>>,
    pub quotes: Vec<QuoteSeries<V>>,
}

/// The prices of a day.
#[derive(Debug, PartialEq)]
pub struct DailyPrices<V> {
    pub open: V,
    pub close: V,
    pub high: V,
    pub low: V,
}

/// Where in the chart answer a value was looked for, as error messages
/// name it.
pub open spec fn position_text(block: int, index: int) -> Seq<char> {
    " at instrument_position:"@ + decimal_text(block as nat) + " date_position:"@ + decimal_text(index as nat)
}

/// A time of day `seconds` after midnight is a daily close: on the hour, at
/// 8 o'clock or earlier.
pub open spec fn spec_daily_close(seconds: int) -> bool {
    seconds / 3600 <= 8 && (seconds % 3600) / 60 == 0 && seconds % 60 == 0
}

/// What the timestamp at `index` of the block at `block` gives: nothing
/// (`None`) when it is no daily close, when one of the four series is
/// missing or when one of the four prices is; the day number and the prices
/// of the day; or the message of the error met (a timestamp outside the
/// supported dates, a series shorter than the timestamps).
pub open spec fn spec_quote_at<V>(block: int, series: QuoteSeries<V>, timestamp: i64, index: int) -> Option<
    Result<(int, DailyPrices<V>), Seq<char>>,
> {
    let day = timestamp_day(timestamp as int);
    if !chrono_in_range(day) {
        Some(Err("unable to convert timestamp"@ + position_text(block, index)))
    } else if !spec_daily_close(timestamp_seconds(timestamp as int)) {
        None
    } else {
        match (series.open, series.close, series.high, series.low) {
            (Some(open), Some(close), Some(high), Some(low)) => {
                if index >= open@.len() {
                    Some(Err("unable to get open"@ + position_text(block, index)))
                } else if index >= close@.len() {
                    Some(Err("unable to get close"@ + position_text(block, index)))
                } else if index >= high@.len() {
                    Some(Err("unable to get high"@ + position_text(block, index)))
                } else if index >= low@.len() {
                    Some(Err("unable to get low"@ + position_text(block, index)))
                } else {
                    match (open@[index], close@[index], high@[index], low@[index]) {
                        (Some(o), Some(c), Some(h), Some(l)) => Some(
                            Ok((day, DailyPrices { open: o, close: c, high: h, low: l })),
                        ),
                        _ => None,
                    }
                }
            },
            _ => None,
        }
    }
}

/// The daily prices read from the first `n` timestamps of the block at
/// `block`, in their order, or the first error met.
pub open spec fn spec_block_prefix<V>(block: int, series: QuoteSeries<V>, timestamps: Seq<i64>, n: int) -> Result<
    Seq<(int, DailyPrices<V>)>,
    Seq<char>,
>
    decreases n,
{
    if n <= 0 {
        Ok(Seq::empty())
    } else {
        match spec_block_prefix(block, series, timestamps, n - 1) {
            Err(msg) => Err(msg),
            Ok(found) => match spec_quote_at(block, series, timestamps[n - 1], n - 1) {
                None => Ok(found),
                Some(Ok(quote)) => Ok(found.push(quote)),
                Some(Err(msg)) => Err(msg),
            },
        }
    }
}

/// The daily prices read from the block at `position`: none when it has no
/// timestamps; else those of its timestamps, read from the quote series at
/// the same position, whose absence is an error.
pub open spec fn spec_block_quotes<V>(block: ChartBlock<V>, position: int) -> Result<Seq<(int, DailyPrices<V>)>, Seq<char>> {
    match block.timestamps {
        None => Ok(Seq::empty()),
        Some(timestamps) => if position >= block.quotes@.len() {
            Err("unable to get quote at instrument_position:"@ + decimal_text(position as nat))
        } else {
            spec_block_prefix(position, block.quotes@[position], timestamps@, timestamps@.len() as int)
        },
    }
}

/// The daily prices read from the first `n` blocks, block after block, or
/// the first error met.
pub open spec fn spec_chart_prefix<V>(blocks: Seq<ChartBlock<V>>, n: int) -> Result<Seq<(int, DailyPrices<V>)>, Seq<char>>
    decreases n,
{
    if n <= 0 {
        Ok(Seq::empty())
    } else {
        match spec_chart_prefix(blocks, n - 1) {
            Err(msg) => Err(msg),
            Ok(found) => match spec_block_quotes(blocks[n - 1], n - 1) {
                Ok(more) => Ok(found + more),
                Err(msg) => Err(msg),
            },
        }
    }
}

/// The daily prices of a whole chart answer, or the first error met.
pub open spec fn spec_chart_quotes<V>(blocks: Seq<ChartBlock<V>>) -> Result<Seq<(int, DailyPrices<V>)>, Seq<char>> {
    spec_chart_prefix(blocks, blocks.len() as int)
}

/// Dated prices, each date taken by its day number.
pub open spec fn quote_days<V>(quotes: Seq<(Date, DailyPrices<V>)>) -> Seq<(int, DailyPrices<V>)> {
    quotes.map_values(|quote: (Date, DailyPrices<V>)| (quote.0@, quote.1))
}

proof fn lemma_block_error_stays<V>(
    block: int,
    series: QuoteSeries<V>,
    timestamps: Seq<i64>,
    n: int,
    k: int,
    msg: Seq<char>,
)
    requires
        0 <= n <= k,
        spec_block_prefix(block, series, timestamps, n) == Err::<Seq<(int, DailyPrices<V>)>, Seq<char>>(msg),
    ensures
        spec_block_prefix(block, series, timestamps, k) == Err::<Seq<(int, DailyPrices<V>)>, Seq<char>>(msg),
    decreases k - n,
{
    if k > n {
        lemma_block_error_stays(block, series, timestamps, n, k - 1, msg);
    }
}

proof fn lemma_chart_error_stays<V>(blocks: Seq<ChartBlock<V>>, n: int, k: int, msg: Seq<char>)
    requires
        0 <= n <= k,
        spec_chart_prefix(blocks, n) == Err::<Seq<(int, DailyPrices<V>)>, Seq<char>>(msg),
    ensures
        spec_chart_prefix(blocks, k) == Err::<Seq<(int, DailyPrices<V>)>, Seq<char>>(msg),
    decreases k - n,
{
    if k > n {
        lemma_chart_error_stays(blocks, n, k - 1, msg);
    }
}

/// The message naming a field and where in the chart answer it was looked for.
fn position_message(field: &str, block: usize, index: usize) -> (r: String)
    ensures
        r@ == field@ + position_text(block as int, index as int),
{
    let block_text = usize_text(block);
    let index_text = usize_text(index);
    let head = concat(field, " at instrument_position:");
    let with_block = concat(head.as_str(), block_text.as_str());
    let middle = concat(with_block.as_str(), " date_position:");
    let r = concat(middle.as_str(), index_text.as_str());
    r
}

/// What the timestamp at `index` of the block at `block` gives (see
/// [`spec_quote_at`]).
fn quote_at<V: Copy>(block: usize, series: &QuoteSeries<V>, timestamp: i64, index: usize) -> (r: Option<
    Result<(Date, DailyPrices<V>), String>,
>)
    ensures
        match r {
            None => spec_quote_at(block as int, *series, timestamp, index as int) is None,
            Some(Ok(quote)) => spec_quote_at(block as int, *series, timestamp, index as int) == Some(
                Ok::<(int, DailyPrices<V>), Seq<char>>((quote.0@, quote.1)),
            ),
            Some(Err(msg)) => spec_quote_at(block as int, *series, timestamp, index as int) == Some(
                Err::<(int, DailyPrices<V>), Seq<char>>(msg@),
            ),
        },
{
    let (date, seconds) = match Date::from_timestamp(timestamp) {
        Some(moment) => moment,
        None => {
            return Some(Err(position_message("unable to convert timestamp", block, index)));
        },
    };
    if !YahooRequester::is_daily_close(seconds / 3600, seconds % 3600 / 60, seconds % 60) {
        return None;
    }
    let open = match &series.open {
        Some(values) => values,
        None => {
            return None;
        },
    };
    let close = match &series.close {
        Some(values) => values,
        None => {
            return None;
        },
    };
    let high = match &series.high {
        Some(values) => values,
        None => {
            return None;
        },
    };
    let low = match &series.low {
        Some(values) => values,
        None => {
            return None;
        },
    };
    if index >= open.len() {
        return Some(Err(position_message("unable to get open", block, index)));
    }
    if index >= close.len() {
        return Some(Err(position_message("unable to get close", block, index)));
    }
    if index >= high.len() {
        return Some(Err(position_message("unable to get high", block, index)));
    }
    if index >= low.len() {
        return Some(Err(position_message("unable to get low", block, index)));
    }
    match (open[index], close[index], high[index], low[index]) {
        (Some(o), Some(c), Some(h), Some(l)) => Some(Ok((date, DailyPrices { open: o, close: c, high: h, low: l }))),
        _ => None,
    }
}

impl YahooRequester {
    /// The ticker and the period to request for the quotes of `instrument`
    /// from `begin` to `end`: Yahoo's end is exclusive, so the period runs
    /// to the day after `end`. An instrument without a Yahoo ticker, or an
    /// `end` with no next day, is a historical error.
    pub fn request_period(&self, instrument: &Instrument, begin: Date, end: Date) -> (r: Result<(String, Date, Date), Error>)
        ensures
            match r {
                Ok((ticker, b, e)) => {
                    &&& instrument.ticker_yahoo matches Some(t) && ticker@ == t@
                    &&& b == begin
                    &&& e@ == end@ + 1
                },
                Err(err) => {
                    &&& err matches Error::Historical(msg)
                    &&& if !chrono_in_range(end@ + 1) {
                        msg@ == "unable to compute next day "@ + chrono_date_text(end@)
                    } else {
                        instrument.ticker_yahoo is None && msg@ == "missing yahoo ticker on "@
                            + instrument.name@
                    }
                },
            },
    {
        let next_day = match end.checked_add_days(1) {
            Some(day) => day,
            None => {
                let text = end.to_text();
                return Err(Error::new_historical(concat("unable to compute next day ", text.as_str())));
            },
        };
        match &instrument.ticker_yahoo {
            Some(ticker) => Ok((ticker.clone(), begin, next_day)),
            None => Err(
                Error::new_historical(concat("missing yahoo ticker on ", instrument.name.as_str())),
            ),
        }
    }

    /// The daily prices of Yahoo's chart answer, block after block and in
    /// the order of the timestamps, or the historical error of the first
    /// value that cannot be read (see [`spec_chart_quotes`]).
    pub fn daily_quotes<V: Copy>(&self, blocks: &Vec<ChartBlock<V>>) -> (r: Result<Vec<(Date, DailyPrices<V>)>, Error>)
        ensures
            match r {
                Ok(quotes) => spec_chart_quotes(blocks@) == Ok::<Seq<(int, DailyPrices<V>)>, Seq<char>>(
                    quote_days(quotes@),
                ),
                Err(err) => err matches Error::Historical(msg) && spec_chart_quotes(blocks@) == Err::<
                    Seq<(int, DailyPrices<V>)>,
                    Seq<char>,
                >(msg@),
            },
    {
        let mut found: Vec<(Date, DailyPrices<V>)> = Vec::new();
        assert(quote_days(found@) =~= Seq::empty());
        let mut position: usize = 0;
        while position < blocks.len()
            invariant
                position <= blocks@.len(),
                spec_chart_prefix(blocks@, position as int) == Ok::<Seq<(int, DailyPrices<V>)>, Seq<char>>(
                    quote_days(found@),
                ),
            decreases blocks@.len() - position,
        {
            let block = &blocks[position];
            let ghost before = quote_days(found@);
            match &block.timestamps {
                None => {},
                Some(timestamps) => {
                    if position >= block.quotes.len() {
                        let position_text = usize_text(position);
                        let msg = concat("unable to get quote at instrument_position:", position_text.as_str());
                        proof {
                            lemma_chart_error_stays(blocks@, position as int + 1, blocks@.len() as int, msg@);
                        }
                        return Err(Error::new_historical(msg));
                    }
                    let series = &block.quotes[position];
                    let ghost mut part: Seq<(int, DailyPrices<V>)> = Seq::empty();
                    let mut index: usize = 0;
                    while index < timestamps.len()
                        invariant
                            index <= timestamps@.len(),
                            position < blocks@.len(),
                            before == spec_chart_prefix(blocks@, position as int)->Ok_0,
                            spec_chart_prefix(blocks@, position as int) is Ok,
                            blocks@[position as int].timestamps == Some(*timestamps),
                            position < blocks@[position as int].quotes@.len(),
                            *series == blocks@[position as int].quotes@[position as int],
                            spec_block_prefix(position as int, *series, timestamps@, index as int) == Ok::<
                                Seq<(int, DailyPrices<V>)>,
                                Seq<char>,
                            >(part),
                            quote_days(found@) == before + part,
                        decreases timestamps@.len() - index,
                    {
                        match quote_at(position, series, timestamps[index], index) {
                            None => {},
                            Some(Ok(quote)) => {
                                let ghost shown = quote_days(found@);
                                found.push(quote);
                                proof {
                                    assert(quote_days(found@) =~= shown.push((quote.0@, quote.1)));
                                    part = part.push((quote.0@, quote.1));
                                }
                            },
                            Some(Err(msg)) => {
                                proof {
                                    lemma_block_error_stays(
                                        position as int,
                                        *series,
                                        timestamps@,
                                        index as int + 1,
                                        timestamps@.len() as int,
                                        msg@,
                                    );
                                    lemma_chart_error_stays(blocks@, position as int + 1, blocks@.len() as int, msg@);
                                }
                                return Err(Error::new_historical(msg));
                            },
                        }
                        index = index + 1;
                    }
                },
            }
            position = position + 1;
        }
        Ok(found)
    }

    /// Whether a quote's time of day marks a daily close: Yahoo's daily
    /// closes fall on the hour, at 8 o'clock or earlier.
    pub fn is_daily_close(hour: u32, minute: u32, second: u32) -> (r: bool)
        ensures
            r == (hour <= 8 && minute == 0 && second == 0),
    {
        !(hour > 8 || minute != 0 || second != 0)
    }

    /// The first and last dates of the quotes received, or January 1, 1970
    /// twice when none was received.
    pub fn result_period<T>(&self, data: &Vec<(Date, T)>) -> (r: (Date, Date))
        ensures
            data@.len() == 0 ==> r.0@ == 719163 && r.1@ == 719163,
            data@.len() > 0 ==> r.0 == data@[0].0 && r.1 == data@.last().0,
    {
        if data.len() == 0 {
            (Date::default_date(), Date::default_date())
        } else {
            (data[0].0, data[data.len() - 1].0)
        }
    }
}

/// The prices of `quote`, dated by its day, are those the series `series`
/// give at `index`, where the timestamps `timestamps` put that day: the open from
/// the open series, the close from the close series, the high from the high
/// series and the low from the low series.
pub open spec fn read_at<V>(series: QuoteSeries<V>, timestamps: Seq<i64>, index: int, quote: (int, DailyPrices<V>)) -> bool {
    &&& 0 <= index < timestamps.len()
    &&& quote.0 == timestamp_day(timestamps[index] as int)
    &&& series.open matches Some(open) && 0 <= index < open@.len() && open@[index] == Some(quote.1.open)
    &&& series.close matches Some(close) && 0 <= index < close@.len() && close@[index] == Some(quote.1.close)
    &&& series.high matches Some(high) && 0 <= index < high@.len() && high@[index] == Some(quote.1.high)
    &&& series.low matches Some(low) && 0 <= index < low@.len() && low@[index] == Some(quote.1.low)
}

/// The daily prices `quote` are read from the block at `block` of the
/// chart answer, at `index`: from its timestamps and from its quote series
/// at the same position.
pub open spec fn read_from_block<V>(blocks: Seq<ChartBlock<V>>, block: int, index: int, quote: (int, DailyPrices<V>)) -> bool {
    &&& 0 <= block < blocks.len()
    &&& blocks[block].timestamps matches Some(timestamps) && 0 <= block < blocks[block].quotes@.len() && read_at(
        blocks[block].quotes@[block],
        timestamps@,
        index,
        quote,
    )
}

/// The indexes, among the first `n` timestamps of a block, of those that
/// give daily prices.
pub open spec fn spec_block_sources<V>(block: int, series: QuoteSeries<V>, timestamps: Seq<i64>, n: int) -> Seq<int>
    decreases n,
{
    if n <= 0 {
        Seq::empty()
    } else {
        let previous = spec_block_sources(block, series, timestamps, n - 1);
        match spec_quote_at(block, series, timestamps[n - 1], n - 1) {
            Some(Ok(_)) => previous.push(n - 1),
            _ => previous,
        }
    }
}

/// The blocks and indexes, among the first `n` blocks of a chart answer,
/// of the timestamps that give daily prices.
pub open spec fn spec_chart_sources<V>(blocks: Seq<ChartBlock<V>>, n: int) -> Seq<(int, int)>
    decreases n,
{
    if n <= 0 {
        Seq::empty()
    } else {
        let previous = spec_chart_sources(blocks, n - 1);
        match blocks[n - 1].timestamps {
            Some(timestamps) => if n - 1 < blocks[n - 1].quotes@.len() {
                previous + spec_block_sources(n - 1, blocks[n - 1].quotes@[n - 1], timestamps@, timestamps@.len() as int).map_values(
                    |index: int| (n - 1, index),
                )
            } else {
                previous
            },
            None => previous,
        }
    }
}

proof fn lemma_block_prefix_read<V>(block: int, series: QuoteSeries<V>, timestamps: Seq<i64>, n: int)
    requires
        0 <= n <= timestamps.len(),
    ensures
        spec_block_prefix(block, series, timestamps, n) is Ok ==> {
            let found = spec_block_prefix(block, series, timestamps, n)->Ok_0;
            let sources = spec_block_sources(block, series, timestamps, n);
            &&& sources.len() == found.len()
            &&& forall|j: int| 0 <= j < found.len() ==> #[trigger] read_at(series, timestamps, sources[j], found[j])
        },
    decreases n,
{
    if n > 0 {
        lemma_block_prefix_read(block, series, timestamps, n - 1);
        if spec_block_prefix(block, series, timestamps, n) is Ok {
            let found = spec_block_prefix(block, series, timestamps, n)->Ok_0;
            let sources = spec_block_sources(block, series, timestamps, n);
            let previous = spec_block_prefix(block, series, timestamps, n - 1)->Ok_0;
            let previous_sources = spec_block_sources(block, series, timestamps, n - 1);
            assert forall|j: int| 0 <= j < found.len() implies #[trigger] read_at(series, timestamps, sources[j], found[j]) by {
                if j < previous.len() {
                    assert(found[j] == previous[j]);
                    assert(sources[j] == previous_sources[j]);
                    assert(read_at(series, timestamps, previous_sources[j], previous[j]));
                }
            }
        }
    }
}

proof fn lemma_chart_prefix_read<V>(blocks: Seq<ChartBlock<V>>, n: int)
    requires
        0 <= n <= blocks.len(),
    ensures
        spec_chart_prefix(blocks, n) is Ok ==> {
            let found = spec_chart_prefix(blocks, n)->Ok_0;
            let sources = spec_chart_sources(blocks, n);
            &&& sources.len() == found.len()
            &&& forall|j: int| 0 <= j < found.len() ==> #[trigger] read_from_block(blocks, sources[j].0, sources[j].1, found[j])
        },
    decreases n,
{
    if n > 0 {
        lemma_chart_prefix_read(blocks, n - 1);
        if spec_chart_prefix(blocks, n) is Ok {
            let found = spec_chart_prefix(blocks, n)->Ok_0;
            let sources = spec_chart_sources(blocks, n);
            let previous = spec_chart_prefix(blocks, n - 1)->Ok_0;
            let previous_sources = spec_chart_sources(blocks, n - 1);
            let more = spec_block_quotes(blocks[n - 1], n - 1)->Ok_0;
            assert(found == previous + more);
            if let Some(timestamps) = blocks[n - 1].timestamps {
                lemma_block_prefix_read(n - 1, blocks[n - 1].quotes@[n - 1], timestamps@, timestamps@.len() as int);
            }
            assert forall|j: int| 0 <= j < found.len() implies #[trigger] read_from_block(
                blocks,
                sources[j].0,
                sources[j].1,
                found[j],
            ) by {
                if j < previous.len() {
                    assert(found[j] == previous[j]);
                    assert(sources[j] == previous_sources[j]);
                    assert(read_from_block(blocks, previous_sources[j].0, previous_sources[j].1, previous[j]));
                } else {
                    assert(found[j] == more[j - previous.len()]);
                }
            }
        }
    }
}

/// Each daily price read from a chart answer comes from one of its blocks,
/// at one of its timestamps (`spec_chart_sources` says which, in order):
/// dated by that timestamp's day, with the open, close, high and low that
/// the open, close, high and low series of that block give at the same
/// index.
pub proof fn lemma_chart_quotes_read<V>(blocks: Seq<ChartBlock<V>>)
    ensures
        spec_chart_quotes(blocks) is Ok ==> {
            let quotes = spec_chart_quotes(blocks)->Ok_0;
            let sources = spec_chart_sources(blocks, blocks.len() as int);
            &&& sources.len() == quotes.len()
            &&& forall|j: int| 0 <= j < quotes.len() ==> #[trigger] read_from_block(blocks, sources[j].0, sources[j].1, quotes[j])
        },
{
    lemma_chart_prefix_read(blocks, blocks.len() as int);
}

} // verus!
