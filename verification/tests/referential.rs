use portfolio_pricer::marketdata::{Instrument, Market};
use portfolio_pricer::date::{Date, DateTime};
use portfolio_pricer::error::Error;
use portfolio_pricer::portfolio::{CashVariationSource, Way};
use portfolio_pricer::referential::document::{
    array, field, number_text, read_date, read_datetime, read_optional_text, read_source, read_text, read_way, unsigned,
    Document,
};
use portfolio_pricer::referential::Cache;

#[derive(Debug, Default, PartialEq)]
struct Currency {
    name: String,
}

#[test]
fn cache() {
    let mut cache: Cache<Currency, Market, Instrument> = Cache::default();

    // empty
    let result = cache.get_currency_by(|item| item.name == "EUR");
    assert!(result.is_none());

    let result = cache.get_market_by(|item| item.name == "EPA");
    assert!(result.is_none());

    let result = cache.get_instrument_by(|item| item.name == "ESE");
    assert!(result.is_none());

    // add item
    cache.add_currency(Currency { name: "EUR".to_string() });
    cache.add_market(Market { name: "EPA".to_string(), ..Default::default() });
    cache.add_instrument(Instrument { name: "ESE".to_string(), ..Default::default() });

    // find and found
    let result = cache.get_currency_by(|item| item.name == "EUR");
    assert!(result.is_some());

    let result = cache.get_market_by(|item| item.name == "EPA");
    assert!(result.is_some());

    let result = cache.get_instrument_by(|item| item.name == "ESE");
    assert!(result.is_some());

    // not found
    let result = cache.get_currency_by(|item| item.name == "XXX");
    assert!(result.is_none());

    let result = cache.get_market_by(|item| item.name == "XXX");
    assert!(result.is_none());

    let result = cache.get_instrument_by(|item| item.name == "XXX");
    assert!(result.is_none());
}

#[test]
fn cache_returns_first_match_and_shares() {
    let mut cache: Cache<Currency, Market, Instrument> = Cache::new();
    let added = cache.add_currency(Currency { name: "EUR".to_string() });
    cache.add_currency(Currency { name: "USD".to_string() });
    cache.add_currency(Currency { name: "EUR".to_string() });
    let found = cache.get_currency_by(|item| item.name == "EUR").unwrap();
    assert!(std::rc::Rc::ptr_eq(&found, &added));
    let usd = cache.get_currency_by(|item| item.name.starts_with('U')).unwrap();
    assert_eq!(usd.name, "USD");
}

fn text_(s: &str) -> Document {
    Document::Text(s.to_string())
}

fn object_(members: Vec<(&str, Document)>) -> Document {
    Document::Object(members.into_iter().map(|(k, v)| (k.to_string(), v)).collect())
}

fn referential_error_(msg: &str) -> Error {
    Error::Referential(msg.to_string())
}

#[test]
fn document_fields() {
    let trade = object_(vec![
        ("date", text_("2022-03-17T10:00:00-00:00")),
        ("way", text_("buy")),
        ("quantity", Document::Number("14.0".to_string())),
        ("fees", Document::Number("2".to_string())),
        ("region", Document::Null),
    ]);
    assert_eq!(read_text(&trade, "way"), Ok("buy".to_string()));
    assert_eq!(read_way(&trade, "way"), Ok(Way::Buy));
    assert_eq!(number_text(field(&trade, "quantity").unwrap()), Ok(&"14.0".to_string()));
    assert_eq!(unsigned(field(&trade, "fees").unwrap()), Ok(2));
    assert_eq!(read_text(&trade, "price"), Err(referential_error_("field price is mandatory")));
    assert_eq!(read_optional_text(&trade, "ticker_yahoo"), Ok(None));
    assert_eq!(read_optional_text(&trade, "region"), Err(referential_error_("field must be a string")));
    assert_eq!(read_text(&text_("x"), "way"), Err(referential_error_("field must be an object")));
    assert_eq!(read_way(&object_(vec![("way", text_("hold"))]), "way"), Err(referential_error_("unable to convert hold into Way")));
    assert_eq!(
        read_datetime(&trade, "date"),
        Ok(DateTime { date: Date::from_ymd_opt(2022, 3, 17).unwrap(), secs: 36000, nanos: 0 })
    );
    assert!(matches!(read_date(&trade, "date"), Err(Error::Referential(_))));
    assert!(array(&trade).is_err());
    assert_eq!(array(&Document::Array(vec![Document::Bool(true)])).unwrap().len(), 1);
}

#[test]
fn document_first_member_wins() {
    let value = object_(vec![("name", text_("first")), ("name", text_("second"))]);
    assert_eq!(read_text(&value, "name"), Ok("first".to_string()));
}

#[test]
fn document_unsigned_numbers() {
    let number = |s: &str| Document::Number(s.to_string());
    assert_eq!(unsigned(&number("0")), Ok(0));
    assert_eq!(unsigned(&number("18446744073709551615")), Ok(u64::MAX));
    assert_eq!(unsigned(&number("18446744073709551616")), Err(referential_error_("field must be a u64")));
    assert_eq!(unsigned(&number("12.0")), Err(referential_error_("field must be a u64")));
    assert_eq!(unsigned(&number("-1")), Err(referential_error_("field must be a u64")));
    assert_eq!(unsigned(&number("")), Err(referential_error_("field must be a u64")));
    assert_eq!(unsigned(&text_("1")), Err(referential_error_("field must be a u64")));
    assert_eq!(number_text(&text_("1")), Err(referential_error_("field must be a f64")));
}

#[test]
fn document_sources_and_dates() {
    let cash = object_(vec![("source", text_("payment")), ("date", text_("2022-03-01")), ("other", text_("wire"))]);
    assert_eq!(read_source(&cash, "source"), Ok(CashVariationSource::Payment));
    assert_eq!(
        read_source(&cash, "other"),
        Err(referential_error_("unable to convert wire into CashVariationSource"))
    );
    assert_eq!(read_date(&cash, "date"), Ok(Date::from_ymd_opt(2022, 3, 1).unwrap()));
}

#[test]
fn document_number_text_reads_back() {
    for n in [0u64, 7, 10, 1234567890, u64::MAX] {
        assert_eq!(unsigned(&Document::Number(n.to_string())), Ok(n));
    }
}
