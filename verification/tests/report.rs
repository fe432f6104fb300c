use portfolio_pricer::date::Date;
use portfolio_pricer::error::Error;
use portfolio_pricer::marketdata::Instrument;
use portfolio_pricer::report::{
    after_filter, check_date_format, currency_style_name, currency_symbol, date_style_name, from_filter,
    instrument_line, rows_until_close, sheet_index, trade_shown,
};

fn make_date_(year: i32, month: u32, day: u32) -> Date {
    Date::from_ymd_opt(year, month, day).unwrap()
}

#[test]
fn report_filters() {
    let filter = Some(make_date_(2025, 1, 10));
    assert!(after_filter(None, make_date_(2025, 1, 1)));
    assert!(!after_filter(filter, make_date_(2025, 1, 10)));
    assert!(after_filter(filter, make_date_(2025, 1, 11)));
    assert!(from_filter(filter, make_date_(2025, 1, 10)));
    assert!(!from_filter(filter, make_date_(2025, 1, 9)));
    assert!(from_filter(None, make_date_(2025, 1, 9)));
    let (begin, end) = (make_date_(2025, 1, 1), make_date_(2025, 3, 1));
    assert!(trade_shown(make_date_(2025, 1, 1), begin, end, None));
    assert!(trade_shown(make_date_(2025, 3, 1), begin, end, None));
    assert!(!trade_shown(make_date_(2025, 3, 2), begin, end, None));
    assert!(!trade_shown(make_date_(2025, 1, 5), begin, end, filter));
}

#[test]
fn report_rows_until_close() {
    let rows = vec![
        (make_date_(2025, 1, 1), false),
        (make_date_(2025, 1, 2), true),
        (make_date_(2025, 1, 3), false),
        (make_date_(2025, 1, 4), true),
        (make_date_(2025, 1, 5), false),
    ];
    assert_eq!(rows_until_close(&rows, None), vec![0, 1]);
    assert_eq!(rows_until_close(&rows, Some(make_date_(2025, 1, 2))), vec![2, 3]);
    assert_eq!(rows_until_close(&rows, Some(make_date_(2025, 1, 5))), Vec::<usize>::new());
}

#[test]
fn report_formats() {
    assert_eq!(currency_symbol("EUR"), Ok("\u{20ac}".to_string()));
    assert_eq!(currency_symbol("USD"), Err(Error::Output("unsupported currency USD".to_string())));
    assert_eq!(check_date_format("DD/MM/YYYY"), Ok(()));
    assert_eq!(check_date_format("YYYY"), Err(Error::Output("unsupported date format YYYY".to_string())));
    assert_eq!(currency_style_name("EUR"), "currency_style_EUR");
    assert_eq!(date_style_name("DD/MM/YYYY"), "date_style_DD/MM/YYYY");
}

#[test]
fn report_instrument_line() {
    let instrument = Instrument {
        name: "ESE".to_string(),
        isin: "FR0011550185".to_string(),
        description: "BNP S&P 500".to_string(),
        currency: "EUR".to_string(),
        ticker_yahoo: Some("ESE.PA".to_string()),
        ..Default::default()
    };
    assert_eq!(instrument_line(&instrument), "ESE.PA;FR0011550185;BNP S&P 500;EUR\n");
    let without = Instrument { ticker_yahoo: None, ..instrument };
    assert_eq!(instrument_line(&without), ";FR0011550185;BNP S&P 500;EUR\n");
}

#[test]
fn report_sheet_index() {
    let names: Vec<String> = ["Summary", "Trades", "Summary"].iter().map(|s| s.to_string()).collect();
    assert_eq!(sheet_index(&names, "Summary"), Some(0));
    assert_eq!(sheet_index(&names, "Trades"), Some(1));
    assert_eq!(sheet_index(&names, "Heat Map"), None);
    assert_eq!(sheet_index(&Vec::new(), "Summary"), None);
}
