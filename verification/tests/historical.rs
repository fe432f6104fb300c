use portfolio_pricer::date::Date;
use portfolio_pricer::error::Error;
use portfolio_pricer::date::DateTime;
use portfolio_pricer::historical::{
    CacheInstrument, ChartBlock, DailyPrices, HistoricalData, NullRequester, Persistance, Provider, QuoteSeries, Requester,
    YahooRequester,
};
use portfolio_pricer::pricer::{fetch_positions, spot_days};
use portfolio_pricer::marketdata::Instrument;
use std::cell::RefCell;

type Quote = (f64, f64, f64, f64);

fn make_date_(year: i32, month: u32, day: u32) -> Date {
    Date::from_ymd_opt(year, month, day).unwrap()
}

fn make_dataframe_(year: i32, month: u32, day: u32) -> (Date, Quote) {
    (make_date_(year, month, day), (10.0, 10.0, 10.0, 10.0))
}

fn check_not_in_cache_ok_(
    cache_instrument: &CacheInstrument<Quote>,
    ibegin: Date,
    iend: Date,
    rbegin: Date,
    rend: Date,
) {
    let result = cache_instrument.not_in_cache(ibegin, iend);
    assert!(result.is_some());
    let (result_begin, result_end) = result.unwrap();
    assert_eq!(result_begin, rbegin);
    assert_eq!(result_end, rend);
}

#[test]
fn cache_instrument_01() {
    let begin = make_date_(2022, 5, 1);
    let end = make_date_(2022, 5, 5);
    let data = vec![
        make_dataframe_(2022, 5, 1),
        make_dataframe_(2022, 5, 2),
        make_dataframe_(2022, 5, 3),
        make_dataframe_(2022, 5, 4),
        make_dataframe_(2022, 5, 5),
    ];
    let cache_instrument = CacheInstrument::new(begin, end, data);
    {
        let test_begin = make_date_(2022, 2, 1);
        let test_end = make_date_(2022, 4, 1);
        check_not_in_cache_ok_(&cache_instrument, test_begin, test_end, test_begin, end);
    }
    {
        let test_begin = make_date_(2022, 2, 1);
        let test_end = make_date_(2022, 5, 1);
        check_not_in_cache_ok_(&cache_instrument, test_begin, test_end, test_begin, end);
    }
    {
        let test_begin = make_date_(2022, 2, 1);
        let test_end = make_date_(2022, 5, 5);
        check_not_in_cache_ok_(&cache_instrument, test_begin, test_end, test_begin, end);
    }
    {
        let test_begin = make_date_(2022, 5, 2);
        let test_end = make_date_(2022, 6, 1);
        check_not_in_cache_ok_(&cache_instrument, test_begin, test_end, make_date_(2022, 5, 6), test_end);
    }
    {
        let test_begin = make_date_(2022, 5, 5);
        let test_end = make_date_(2022, 6, 1);
        check_not_in_cache_ok_(&cache_instrument, test_begin, test_end, make_date_(2022, 5, 6), test_end);
    }
    {
        let test_begin = make_date_(2022, 5, 10);
        let test_end = make_date_(2022, 6, 1);
        check_not_in_cache_ok_(&cache_instrument, test_begin, test_end, make_date_(2022, 5, 6), test_end);
    }
    {
        let test_begin = make_date_(2022, 5, 2);
        let test_end = make_date_(2022, 5, 4);
        let result = cache_instrument.not_in_cache(test_begin, test_end);
        assert!(result.is_none());
    }
}

#[test]
fn cache_instrument_02() {
    let begin = make_date_(2022, 5, 1);
    let end = make_date_(2022, 5, 2);
    {
        let mut cache_instrument = CacheInstrument::new(
            begin,
            end,
            vec![make_dataframe_(2022, 5, 1), make_dataframe_(2022, 5, 2)],
        );
        cache_instrument.insert(
            make_date_(2022, 4, 29),
            make_date_(2022, 4, 30),
            vec![make_dataframe_(2022, 4, 29), make_dataframe_(2022, 4, 30)],
        );
        assert_eq!(cache_instrument.data.len(), 4);
        assert_eq!(cache_instrument.data[0].0, make_date_(2022, 4, 29));
        assert_eq!(cache_instrument.data[1].0, make_date_(2022, 4, 30));
        assert_eq!(cache_instrument.data[2].0, make_date_(2022, 5, 1));
        assert_eq!(cache_instrument.data[3].0, make_date_(2022, 5, 2));
    }
    {
        let mut cache_instrument = CacheInstrument::new(
            begin,
            end,
            vec![make_dataframe_(2022, 5, 1), make_dataframe_(2022, 5, 2)],
        );
        cache_instrument.insert(
            make_date_(2022, 5, 3),
            make_date_(2022, 5, 4),
            vec![make_dataframe_(2022, 5, 3), make_dataframe_(2022, 5, 4)],
        );
        assert_eq!(cache_instrument.data.len(), 4);
        assert_eq!(cache_instrument.data[0].0, make_date_(2022, 5, 1));
        assert_eq!(cache_instrument.data[1].0, make_date_(2022, 5, 2));
        assert_eq!(cache_instrument.data[2].0, make_date_(2022, 5, 3));
        assert_eq!(cache_instrument.data[3].0, make_date_(2022, 5, 4));
    }
    {
        let mut cache_instrument = CacheInstrument::new(
            begin,
            end,
            vec![make_dataframe_(2022, 5, 1), make_dataframe_(2022, 5, 2)],
        );
        cache_instrument.insert(
            make_date_(2022, 4, 30),
            make_date_(2022, 5, 3),
            vec![
                make_dataframe_(2022, 4, 30),
                make_dataframe_(2022, 5, 1),
                make_dataframe_(2022, 5, 2),
                make_dataframe_(2022, 5, 3),
            ],
        );
        assert_eq!(cache_instrument.data.len(), 4);
        assert_eq!(cache_instrument.data[0].0, make_date_(2022, 4, 30));
        assert_eq!(cache_instrument.data[1].0, make_date_(2022, 5, 1));
        assert_eq!(cache_instrument.data[2].0, make_date_(2022, 5, 2));
        assert_eq!(cache_instrument.data[3].0, make_date_(2022, 5, 3));
    }
}

#[test]
fn cache_instrument_03() {
    let cache_instrument = CacheInstrument::new(
        make_date_(2022, 1, 5),
        make_date_(2022, 1, 10),
        vec![
            make_dataframe_(2022, 1, 5),
            make_dataframe_(2022, 1, 6),
            make_dataframe_(2022, 1, 7),
            make_dataframe_(2022, 1, 10),
        ],
    );
    {
        let result = cache_instrument.latest(make_date_(2022, 1, 2));
        assert!(result.is_none());
    }
    {
        let result = cache_instrument.latest(make_date_(2022, 1, 6));
        assert!(result.is_some());
        assert_eq!(result.unwrap().0, make_date_(2022, 1, 6));
    }
    {
        let result = cache_instrument.latest(make_date_(2022, 1, 8));
        assert!(result.is_some());
        assert_eq!(result.unwrap().0, make_date_(2022, 1, 7));
    }
    {
        let result = cache_instrument.latest(make_date_(2022, 1, 20));
        assert!(result.is_some());
        assert_eq!(result.unwrap().0, make_date_(2022, 1, 10));
    }
}

#[test]
fn cache_instrument_insert_inside_and_missing_window() {
    let mut cache_instrument = CacheInstrument::new(
        make_date_(2022, 5, 1),
        make_date_(2022, 5, 10),
        vec![make_dataframe_(2022, 5, 1)],
    );
    cache_instrument.insert(make_date_(2022, 5, 2), make_date_(2022, 5, 3), vec![make_dataframe_(2022, 5, 2)]);
    assert_eq!(cache_instrument.data.len(), 1);
    assert_eq!(cache_instrument.begin, make_date_(2022, 5, 1));
    assert_eq!(cache_instrument.end, make_date_(2022, 5, 10));
    // the missing window, once inserted, covers the request
    let (b, e) = cache_instrument.not_in_cache(make_date_(2022, 5, 5), make_date_(2022, 5, 20)).unwrap();
    cache_instrument.insert(b, e, vec![]);
    assert!(cache_instrument.not_in_cache(make_date_(2022, 5, 5), make_date_(2022, 5, 20)).is_none());
}

fn make_instrument_(name: &str, ticker: Option<&str>) -> Instrument {
    Instrument {
        name: name.to_string(),
        ticker_yahoo: ticker.map(|t| t.to_string()),
        ..Default::default()
    }
}

struct MockRequester {
    requested: RefCell<Vec<(String, Date, Date)>>,
    fail: bool,
}

impl Requester<Quote> for MockRequester {
    fn request(&self, instrument: &Instrument, begin: Date, end: Date) -> Result<(Date, Date, Vec<(Date, Quote)>), Error> {
        self.requested.borrow_mut().push((instrument.name.clone(), begin, end));
        if self.fail {
            return Err(Error::Historical("down".to_string()));
        }
        let mut data = Vec::new();
        let mut date = begin;
        while !end.is_before(&date) {
            data.push((date, (1.0, 1.0, 1.0, 1.0)));
            date = date.checked_add_days(1).unwrap();
        }
        Ok((begin, end, data))
    }
}

#[derive(Default)]
struct MockPersistance {
    saved: RefCell<Vec<(String, usize)>>,
    stored: Option<(Date, Date, Vec<(Date, Quote)>)>,
}

impl Persistance<Quote> for MockPersistance {
    fn save(&self, instrument: &Instrument, datas: &Vec<(Date, Quote)>) -> Result<(), Error> {
        self.saved.borrow_mut().push((instrument.name.clone(), datas.len()));
        Ok(())
    }
    fn load(&self, _instrument: &Instrument) -> Result<Option<(Date, Date, Vec<(Date, Quote)>)>, Error> {
        Ok(self.stored.clone())
    }
}

#[test]
fn historical_fetch_requests_only_missing_part() {
    let persistence = MockPersistance::default();
    let requester = MockRequester { requested: RefCell::new(Vec::new()), fail: false };
    let mut provider = HistoricalData::new(requester, &persistence);
    let ese = make_instrument_("ESE", None);
    assert!(provider.fetch(&ese, make_date_(2025, 1, 1), make_date_(2025, 1, 5)).is_ok());
    assert!(provider.fetch(&ese, make_date_(2025, 1, 2), make_date_(2025, 1, 8)).is_ok());
    assert!(provider.fetch(&ese, make_date_(2025, 1, 3), make_date_(2025, 1, 4)).is_ok());
    assert_eq!(
        persistence.saved.borrow().clone(),
        vec![("ESE".to_string(), 5), ("ESE".to_string(), 3)]
    );
    assert_eq!(provider.latest(&ese, make_date_(2025, 1, 7)).unwrap().0, make_date_(2025, 1, 7));
    assert_eq!(provider.latest(&ese, make_date_(2025, 2, 1)).unwrap().0, make_date_(2025, 1, 8));
    assert!(provider.latest(&ese, make_date_(2024, 12, 31)).is_none());
    assert!(provider.latest(&make_instrument_("CAC", None), make_date_(2025, 1, 7)).is_none());
}

#[test]
fn historical_fetch_uses_persistence() {
    let persistence = MockPersistance {
        saved: RefCell::new(Vec::new()),
        stored: Some((
            make_date_(2025, 1, 1),
            make_date_(2025, 1, 10),
            vec![(make_date_(2025, 1, 1), (2.0, 2.0, 2.0, 2.0))],
        )),
    };
    let requester = MockRequester { requested: RefCell::new(Vec::new()), fail: true };
    let mut provider = HistoricalData::new(requester, &persistence);
    let ese = make_instrument_("ESE", None);
    // the persistence holds the whole period: nothing is requested
    assert!(provider.fetch(&ese, make_date_(2025, 1, 2), make_date_(2025, 1, 9)).is_ok());
    assert_eq!(provider.latest(&ese, make_date_(2025, 1, 5)).unwrap().1 .0, 2.0);
    // a period beyond it is requested, and the requester's error comes back
    assert_eq!(
        provider.fetch(&ese, make_date_(2025, 1, 2), make_date_(2025, 1, 12)),
        Err(Error::Historical("down".to_string()))
    );
}

fn fetch_then_latest<P: Provider<Quote>>(provider: &mut P, instrument: &Instrument, day: Date) -> Option<Date> {
    provider.fetch(instrument, day, day).ok()?;
    provider.latest(instrument, day).map(|quote| quote.0)
}

#[test]
fn historical_data_is_a_provider() {
    let persistence = MockPersistance::default();
    let requester = MockRequester { requested: RefCell::new(Vec::new()), fail: false };
    let mut provider = HistoricalData::new(requester, &persistence);
    let ese = make_instrument_("ESE", None);
    assert_eq!(fetch_then_latest(&mut provider, &ese, make_date_(2025, 1, 3)), Some(make_date_(2025, 1, 3)));
}

#[test]
fn null_requester_gives_nothing() {
    let persistence = MockPersistance::default();
    let mut provider = HistoricalData::new(NullRequester::new(), &persistence);
    let ese = make_instrument_("ESE", None);
    assert!(provider.fetch(&ese, make_date_(2025, 1, 1), make_date_(2025, 1, 5)).is_ok());
    assert!(provider.latest(&ese, make_date_(2025, 1, 3)).is_none());
    assert!(persistence.saved.borrow().is_empty());
    let nothing: Result<(Date, Date, Vec<(Date, Quote)>), Error> = NullRequester::new().request_nothing();
    let (b, e, data) = nothing.unwrap();
    assert_eq!(b, make_date_(1970, 1, 1));
    assert_eq!(e, make_date_(1970, 1, 1));
    assert!(data.is_empty());
    let requested: Result<(Date, Date, Vec<(Date, Quote)>), Error> =
        NullRequester::new().request(&ese, make_date_(2025, 1, 1), make_date_(2025, 1, 5));
    let (b, e, data) = requested.unwrap();
    assert_eq!(b, make_date_(1970, 1, 1));
    assert_eq!(e, make_date_(1970, 1, 1));
    assert!(data.is_empty());
}

#[test]
fn historical_record_quotes() {
    let persistence = MockPersistance::default();
    let mut provider = HistoricalData::new(NullRequester::new(), &persistence);
    let ese = make_instrument_("ESE", None);
    provider.record_quotes(&ese, make_date_(2025, 1, 2), make_date_(2025, 1, 3), vec![(make_date_(2025, 1, 2), (3.0, 3.0, 3.0, 3.0))]);
    provider.record_quotes(&ese, make_date_(2025, 1, 4), make_date_(2025, 1, 6), vec![(make_date_(2025, 1, 5), (4.0, 4.0, 4.0, 4.0))]);
    assert_eq!(provider.latest(&ese, make_date_(2025, 1, 4)).unwrap().1 .0, 3.0);
    assert_eq!(provider.latest(&ese, make_date_(2025, 1, 9)).unwrap().1 .0, 4.0);
    // the quotes a fetch receives go through the same path
    assert!(provider.fetch(&ese, make_date_(2025, 1, 2), make_date_(2025, 1, 6)).is_ok());
    assert!(persistence.saved.borrow().is_empty());
    assert!(provider.latest(&make_instrument_("CAC", None), make_date_(2025, 1, 9)).is_none());
}

#[test]
fn yahoo_request_period() {
    let requester = YahooRequester;
    let ese = make_instrument_("ESE", Some("ESE.PA"));
    let (ticker, begin, end) = requester
        .request_period(&ese, make_date_(2025, 1, 1), make_date_(2025, 1, 31))
        .unwrap();
    assert_eq!(ticker, "ESE.PA");
    assert_eq!(begin, make_date_(2025, 1, 1));
    assert_eq!(end, make_date_(2025, 2, 1));

    let no_ticker = make_instrument_("CAC", None);
    assert_eq!(
        requester.request_period(&no_ticker, make_date_(2025, 1, 1), make_date_(2025, 1, 31)),
        Err(Error::Historical("missing yahoo ticker on CAC".to_string()))
    );
    assert_eq!(
        requester.request_period(&ese, make_date_(2025, 1, 1), make_date_(262142, 12, 31)),
        Err(Error::Historical("unable to compute next day +262142-12-31".to_string()))
    );
}

#[test]
fn yahoo_daily_close_and_result_period() {
    assert!(YahooRequester::is_daily_close(8, 0, 0));
    assert!(YahooRequester::is_daily_close(0, 0, 0));
    assert!(!YahooRequester::is_daily_close(9, 0, 0));
    assert!(!YahooRequester::is_daily_close(8, 30, 0));
    assert!(!YahooRequester::is_daily_close(8, 0, 1));
    let requester = YahooRequester;
    let empty: Vec<(Date, Quote)> = Vec::new();
    assert_eq!(requester.result_period(&empty), (make_date_(1970, 1, 1), make_date_(1970, 1, 1)));
    let data = vec![make_dataframe_(2025, 1, 2), make_dataframe_(2025, 1, 6)];
    assert_eq!(requester.result_period(&data), (make_date_(2025, 1, 2), make_date_(2025, 1, 6)));
}

fn series_(values: &[Option<f64>]) -> Option<Vec<Option<f64>>> {
    Some(values.to_vec())
}

fn quote_series_(open: &[Option<f64>], close: &[Option<f64>]) -> QuoteSeries<f64> {
    QuoteSeries { open: series_(open), close: series_(close), high: series_(close), low: series_(open) }
}

#[test]
fn yahoo_daily_quotes_keeps_complete_daily_closes() {
    // 2023-11-06 00:00, 2023-11-07 09:00 (not a daily close), 2023-11-08 08:30
    // (not a daily close), 2023-11-09 00:00 (close missing), 2023-11-06 08:00
    let block = ChartBlock {
        timestamps: Some(vec![1699228800, 1699347600, 1699432200, 1699488000, 1699257600]),
        quotes: vec![quote_series_(
            &[Some(1.0), Some(2.0), Some(3.0), Some(4.0), Some(5.0)],
            &[Some(1.5), Some(2.5), Some(3.5), None, Some(5.5)],
        )],
    };
    let empty: ChartBlock<f64> = ChartBlock { timestamps: None, quotes: Vec::new() };
    let quotes = YahooRequester.daily_quotes(&vec![block, empty]).unwrap();
    assert_eq!(
        quotes,
        vec![
            (make_date_(2023, 11, 6), DailyPrices { open: 1.0, close: 1.5, high: 1.5, low: 1.0 }),
            (make_date_(2023, 11, 6), DailyPrices { open: 5.0, close: 5.5, high: 5.5, low: 5.0 }),
        ]
    );
}

#[test]
fn yahoo_daily_quotes_skips_block_with_missing_series() {
    let block = ChartBlock {
        timestamps: Some(vec![1699228800]),
        quotes: vec![QuoteSeries { open: None, close: series_(&[Some(1.0)]), high: series_(&[Some(1.0)]), low: series_(&[Some(1.0)]) }],
    };
    assert_eq!(YahooRequester.daily_quotes(&vec![block]).unwrap(), vec![]);
}

#[test]
fn yahoo_daily_quotes_errors() {
    let short = ChartBlock {
        timestamps: Some(vec![1699228800, 1699344000]),
        quotes: vec![quote_series_(&[Some(1.0), Some(2.0)], &[Some(1.0)])],
    };
    assert_eq!(
        YahooRequester.daily_quotes(&vec![short]),
        Err(Error::Historical("unable to get close at instrument_position:0 date_position:1".to_string()))
    );
    let first = ChartBlock { timestamps: None, quotes: Vec::new() };
    let second = ChartBlock { timestamps: Some(vec![1699228800]), quotes: vec![quote_series_(&[Some(1.0)], &[Some(1.0)])] };
    assert_eq!(
        YahooRequester.daily_quotes(&vec![first, second]),
        Err(Error::Historical("unable to get quote at instrument_position:1".to_string()))
    );
    let far = ChartBlock { timestamps: Some(vec![i64::MAX]), quotes: vec![quote_series_(&[Some(1.0)], &[Some(1.0)])] };
    assert_eq!(
        YahooRequester.daily_quotes(&vec![far]),
        Err(Error::Historical("unable to convert timestamp at instrument_position:0 date_position:0".to_string()))
    );
}

#[test]
fn date_from_timestamp() {
    assert_eq!(Date::from_timestamp(0), Some((make_date_(1970, 1, 1), 0)));
    assert_eq!(Date::from_timestamp(1699257600), Some((make_date_(2023, 11, 6), 8 * 3600)));
    assert_eq!(Date::from_timestamp(-1), Some((make_date_(1969, 12, 31), 86399)));
    assert_eq!(Date::from_timestamp(i64::MIN), None);
}

#[test]
fn missing_period_and_receive_quotes() {
    let persistence = MockPersistance::default();
    let mut provider = HistoricalData::new(NullRequester::new(), &persistence);
    let ese = make_instrument_("ESE", None);
    // not cached: the whole period is missing
    assert_eq!(
        provider.missing_period(&ese, make_date_(2025, 1, 2), make_date_(2025, 1, 6)),
        Some((make_date_(2025, 1, 2), make_date_(2025, 1, 6)))
    );
    // no quotes received: nothing saved, nothing cached
    assert!(provider.receive_quotes(&ese, make_date_(2025, 1, 2), make_date_(2025, 1, 6), Vec::new()).is_ok());
    assert!(persistence.saved.borrow().is_empty());
    assert!(provider.latest(&ese, make_date_(2025, 1, 9)).is_none());
    // quotes received: saved, then cached
    let quotes = vec![(make_date_(2025, 1, 3), (5.0, 5.0, 5.0, 5.0))];
    assert!(provider.receive_quotes(&ese, make_date_(2025, 1, 2), make_date_(2025, 1, 6), quotes).is_ok());
    assert_eq!(persistence.saved.borrow().clone(), vec![("ESE".to_string(), 1)]);
    assert_eq!(provider.latest(&ese, make_date_(2025, 1, 9)).unwrap().1 .0, 5.0);
    assert_eq!(provider.missing_period(&ese, make_date_(2025, 1, 3), make_date_(2025, 1, 5)), None);
    assert_eq!(
        provider.missing_period(&ese, make_date_(2025, 1, 3), make_date_(2025, 1, 9)),
        Some((make_date_(2025, 1, 7), make_date_(2025, 1, 9)))
    );
}

#[test]
fn spot_days_from_first_trade_or_begin() {
    let persistence = MockPersistance::default();
    let mut provider = HistoricalData::new(NullRequester::new(), &persistence);
    let ese = make_instrument_("ESE", None);
    provider.record_quotes(
        &ese,
        make_date_(2025, 1, 2),
        make_date_(2025, 1, 6),
        vec![(make_date_(2025, 1, 3), (1.0, 1.0, 1.0, 1.0)), (make_date_(2025, 1, 5), (2.0, 2.0, 2.0, 2.0))],
    );
    assert_eq!(
        spot_days(&provider, &ese, make_date_(2025, 1, 1), make_date_(2025, 1, 2), make_date_(2025, 1, 4)),
        vec![(make_date_(2025, 1, 2), false), (make_date_(2025, 1, 3), true), (make_date_(2025, 1, 4), true)]
    );
    assert_eq!(
        spot_days(&provider, &ese, make_date_(2025, 1, 4), make_date_(2025, 1, 2), make_date_(2025, 1, 5)),
        vec![(make_date_(2025, 1, 4), true), (make_date_(2025, 1, 5), true)]
    );
    assert!(spot_days(&provider, &ese, make_date_(2025, 1, 6), make_date_(2025, 1, 2), make_date_(2025, 1, 5)).is_empty());
    let cac = make_instrument_("CAC", None);
    assert_eq!(
        spot_days(&provider, &cac, make_date_(2025, 1, 3), make_date_(2025, 1, 2), make_date_(2025, 1, 3)),
        vec![(make_date_(2025, 1, 3), false)]
    );
}

#[test]
fn fetch_positions_fetches_each_period() {
    let persistence = MockPersistance::default();
    let requester = MockRequester { requested: RefCell::new(Vec::new()), fail: false };
    let mut provider = HistoricalData::new(requester, &persistence);
    let at = |year: i32, month: u32, day: u32| DateTime { date: make_date_(year, month, day), secs: 36000, nanos: 0 };
    let positions = vec![
        (make_instrument_("ESE", None), Some(at(2025, 1, 1)), None),
        (make_instrument_("PAEEM", None), Some(at(2025, 2, 1)), Some(at(2025, 2, 3))),
        (make_instrument_("CAC", None), Some(at(2025, 4, 1)), None),
        (make_instrument_("NONE", None), None, None),
    ];
    let end = make_date_(2025, 3, 4);
    assert!(fetch_positions(&mut provider, &positions, end).is_ok());
    assert_eq!(
        persistence.saved.borrow().clone(),
        vec![("ESE".to_string(), 63), ("PAEEM".to_string(), 3)]
    );
    // everything is cached now: nothing more is saved
    assert!(fetch_positions(&mut provider, &positions, end).is_ok());
    assert_eq!(persistence.saved.borrow().len(), 2);
}

#[test]
fn fetch_positions_stops_at_first_error() {
    let persistence = MockPersistance::default();
    let requester = MockRequester { requested: RefCell::new(Vec::new()), fail: true };
    let mut provider = HistoricalData::new(requester, &persistence);
    let at = |year: i32, month: u32, day: u32| DateTime { date: make_date_(year, month, day), secs: 0, nanos: 0 };
    let positions = vec![
        (make_instrument_("ESE", None), Some(at(2025, 1, 1)), None),
        (make_instrument_("PAEEM", None), Some(at(2025, 2, 1)), None),
    ];
    assert_eq!(
        fetch_positions(&mut provider, &positions, make_date_(2025, 3, 4)),
        Err(Error::Historical("down".to_string()))
    );
    assert!(persistence.saved.borrow().is_empty());
}
