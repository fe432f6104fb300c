use portfolio_pricer::date::{Date, DateTime};
use portfolio_pricer::error::Error;
use portfolio_pricer::portfolio::{get_instrument_name_list, get_region_name_list, get_trade_date, CashVariationSource, Way};

fn make_date_(year: i32, month: u32, day: u32) -> Date {
    Date::from_ymd_opt(year, month, day).unwrap()
}

fn make_datetime_(year: i32, month: u32, day: u32, hour: u32) -> DateTime {
    DateTime { date: make_date_(year, month, day), secs: hour * 3600, nanos: 0 }
}

#[test]
fn display() {
    let buy = Way::Buy;
    let sell = Way::Sell;
    assert!(buy.to_string() == "Buy");
    assert!(sell.to_string() == "Sell");
}

#[test]
fn way_from_name() {
    assert_eq!(Way::from_name("buy"), Ok(Way::Buy));
    assert_eq!(Way::from_name("sell"), Ok(Way::Sell));
    assert_eq!(
        Way::from_name("Buy"),
        Err(Error::Referential("unable to convert Buy into Way".to_string()))
    );
    assert_eq!(
        Way::from_name(""),
        Err(Error::Referential("unable to convert  into Way".to_string()))
    );
}

#[test]
fn cash_variation_source_from_name() {
    assert_eq!(
        CashVariationSource::from_name("payment"),
        Ok(CashVariationSource::Payment)
    );
    assert_eq!(
        CashVariationSource::from_name("synchronize"),
        Err(Error::Referential(
            "unable to convert synchronize into CashVariationSource".to_string()
        ))
    );
}

#[test]
fn trade_date_is_earliest_first_trade() {
    let positions = vec![
        vec![make_datetime_(2025, 2, 1, 10), make_datetime_(2025, 3, 1, 10)],
        vec![],
        vec![make_datetime_(2025, 1, 1, 10), make_datetime_(2025, 4, 1, 10)],
        vec![make_datetime_(2025, 1, 1, 9)],
    ];
    assert_eq!(get_trade_date(&positions), Ok(make_date_(2025, 1, 1)));
}

#[test]
fn trade_date_without_trade() {
    let positions: Vec<Vec<DateTime>> = vec![vec![], vec![]];
    assert_eq!(
        get_trade_date(&positions),
        Err(Error::Portfolio(
            "unable to detect first trade date in the portfolio".to_string()
        ))
    );
    assert!(get_trade_date(&Vec::new()).is_err());
}

#[test]
fn error_constructors() {
    assert_eq!(Error::new_historical("h".to_string()), Error::Historical("h".to_string()));
    assert_eq!(Error::new_portfolio("p".to_string()), Error::Portfolio("p".to_string()));
    assert_eq!(Error::new_referential("r".to_string()), Error::Referential("r".to_string()));
    assert_eq!(Error::new_output("o".to_string()), Error::Output("o".to_string()));
}

#[test]
fn instrument_names_once_in_order() {
    let names: Vec<String> = ["ESE", "PAEEM", "ESE", "CAC", "PAEEM"].iter().map(|s| s.to_string()).collect();
    assert_eq!(get_instrument_name_list(&names), vec!["ESE".to_string(), "PAEEM".to_string(), "CAC".to_string()]);
    assert!(get_instrument_name_list(&Vec::new()).is_empty());
}

#[test]
fn region_names_once_in_order() {
    let regions = vec![Some("Europe".to_string()), None, Some("Europe".to_string()), Some("Asia".to_string()), None];
    assert_eq!(
        get_region_name_list(&regions),
        vec![Some("Europe".to_string()), None, Some("Asia".to_string())]
    );
}
