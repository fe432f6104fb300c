use portfolio_pricer::date::{Date, DateTime};
use portfolio_pricer::pricer::selection::{
    cash_flow_span, closed_positions, position_index_list, position_pricings, PositionKey,
};
use portfolio_pricer::pricer::distribution::{instrument_groups, region_groups, PositionPlace};
use portfolio_pricer::pricer::{fetch_periods, pricing_days};
use portfolio_pricer::pricer::heat_map::{heat_map_entries, monthly_rows, HeatMapEntry, HeatMapPeriod};
use portfolio_pricer::pricer::iterator::{DateByStepIterator, Step};

fn make_date_(year: i32, month: u32, day: u32) -> Date {
    Date::from_ymd_opt(year, month, day).unwrap()
}

fn collect_(mut it: DateByStepIterator) -> Vec<Date> {
    let mut result = Vec::new();
    while let Some(date) = it.next() {
        result.push(date);
    }
    result
}

#[test]
fn date_by_step_01() {
    let it = DateByStepIterator::new(make_date_(2020, 5, 4), make_date_(2020, 5, 10), Step::Day);
    let result = collect_(it);
    let wanted = vec![
        make_date_(2020, 5, 4),
        make_date_(2020, 5, 5),
        make_date_(2020, 5, 6),
        make_date_(2020, 5, 7),
        make_date_(2020, 5, 8),
        make_date_(2020, 5, 9),
        make_date_(2020, 5, 10),
    ];
    assert_eq!(result, wanted);
}

#[test]
fn date_by_step_02() {
    let it = DateByStepIterator::new(make_date_(2023, 4, 5), make_date_(2023, 5, 3), Step::Week);
    let result = collect_(it);
    let wanted = vec![
        make_date_(2023, 4, 9),
        make_date_(2023, 4, 16),
        make_date_(2023, 4, 23),
        make_date_(2023, 4, 30),
        make_date_(2023, 5, 3),
    ];
    assert_eq!(result, wanted);
}

#[test]
fn date_by_step_03() {
    let it = DateByStepIterator::new(make_date_(2021, 4, 5), make_date_(2023, 5, 3), Step::Year);
    let result = collect_(it);
    let wanted = vec![
        make_date_(2021, 12, 31),
        make_date_(2022, 12, 31),
        make_date_(2023, 5, 3),
    ];
    assert_eq!(result, wanted);
}

#[test]
fn date_by_step_04() {
    let it = DateByStepIterator::new(make_date_(2021, 1, 5), make_date_(2021, 6, 10), Step::Month);
    let result = collect_(it);
    let wanted = vec![
        make_date_(2021, 1, 31),
        make_date_(2021, 2, 28),
        make_date_(2021, 3, 31),
        make_date_(2021, 4, 30),
        make_date_(2021, 5, 31),
        make_date_(2021, 6, 10),
    ];
    assert_eq!(result, wanted);
}

#[test]
fn date_by_step_ends_once() {
    let mut it = DateByStepIterator::new(make_date_(2021, 1, 5), make_date_(2021, 1, 3), Step::Day);
    assert_eq!(it.next(), Some(make_date_(2021, 1, 3)));
    assert_eq!(it.next(), None);
    assert_eq!(it.next(), None);
}

#[test]
fn date_by_step_week_from_sunday() {
    let it = DateByStepIterator::new(make_date_(2023, 4, 9), make_date_(2023, 4, 16), Step::Week);
    assert_eq!(collect_(it), vec![make_date_(2023, 4, 9), make_date_(2023, 4, 16)]);
}

// The heat map's values are floating-point amounts computed outside the
// library; these tests check what the library decides: which indicators
// close a period, and against which indicator each is measured.

#[test]
fn heat_map_monthly() {
    let dates = vec![
        make_date_(2023, 9, 25),
        make_date_(2023, 9, 26),
        make_date_(2023, 10, 30),
        make_date_(2023, 10, 31),
        make_date_(2023, 11, 1),
        make_date_(2023, 11, 2),
    ];
    assert_eq!(
        heat_map_entries(&dates, HeatMapPeriod::Monthly),
        vec![
            HeatMapEntry::Relative { index: 1, reference: None },
            HeatMapEntry::Relative { index: 3, reference: Some(1) },
            HeatMapEntry::Relative { index: 5, reference: Some(3) },
        ]
    );
}

#[test]
fn heat_map_yearly() {
    let dates = vec![
        make_date_(2022, 9, 25),
        make_date_(2023, 1, 6),
        make_date_(2023, 12, 20),
        make_date_(2024, 1, 3),
    ];
    assert_eq!(
        heat_map_entries(&dates, HeatMapPeriod::Yearly),
        vec![
            HeatMapEntry::Relative { index: 0, reference: None },
            HeatMapEntry::Relative { index: 2, reference: Some(0) },
            HeatMapEntry::Relative { index: 3, reference: Some(2) },
        ]
    );
}

#[test]
fn heat_map_empty() {
    let dates: Vec<Date> = Vec::new();
    assert!(heat_map_entries(&dates, HeatMapPeriod::Yearly).is_empty());
}

#[test]
fn heat_map_one() {
    let dates = vec![make_date_(2023, 9, 25)];
    assert_eq!(heat_map_entries(&dates, HeatMapPeriod::Monthly), vec![HeatMapEntry::Raw { index: 0 }]);
}

#[test]
fn heat_map_entries_chain() {
    let dates = vec![
        make_date_(2023, 9, 25),
        make_date_(2023, 9, 26),
        make_date_(2023, 10, 30),
        make_date_(2023, 11, 2),
    ];
    assert_eq!(
        heat_map_entries(&dates, HeatMapPeriod::Monthly),
        vec![
            HeatMapEntry::Relative { index: 1, reference: None },
            HeatMapEntry::Relative { index: 2, reference: Some(1) },
            HeatMapEntry::Relative { index: 3, reference: Some(2) },
        ]
    );
    assert_eq!(
        heat_map_entries(&dates, HeatMapPeriod::Yearly),
        vec![HeatMapEntry::Raw { index: 3 }]
    );
}

#[test]
fn heat_map_period_same() {
    assert!(HeatMapPeriod::Monthly.same(make_date_(2023, 9, 1), make_date_(2023, 9, 30)));
    assert!(!HeatMapPeriod::Monthly.same(make_date_(2023, 9, 1), make_date_(2022, 9, 1)));
    assert!(HeatMapPeriod::Yearly.same(make_date_(2023, 1, 1), make_date_(2023, 12, 31)));
    assert!(!HeatMapPeriod::Yearly.same(make_date_(2023, 12, 31), make_date_(2024, 1, 1)));
}

fn at_(year: i32, month: u32, day: u32) -> DateTime {
    DateTime { date: make_date_(year, month, day), secs: 36000, nanos: 0 }
}

#[test]
fn portfolio_indicators_fetch_() {
    // ESE is still open; PAEEM was sold back on 2025-03-01.
    let positions = vec![
        (Some(at_(2025, 1, 1)), None),
        (Some(at_(2025, 2, 1)), Some(at_(2025, 3, 1))),
    ];
    let begin = make_date_(2025, 1, 1);
    let end = make_date_(2025, 3, 4);
    let periods = fetch_periods(&positions, end);
    assert!(periods.len() == 2);
    assert!(periods[0] == (0, begin, end));
    assert!(periods[1] == (1, make_date_(2025, 2, 1), make_date_(2025, 3, 1)));
}

#[test]
fn portfolio_indicators_empty() {
    let positions: Vec<(Option<DateTime>, Option<DateTime>)> = Vec::new();
    assert!(fetch_periods(&positions, make_date_(2025, 3, 4)).is_empty());
}

#[test]
fn fetch_periods_skip_late_and_empty() {
    let positions = vec![(None, None), (Some(at_(2025, 4, 1)), None), (Some(at_(2025, 3, 4)), None)];
    let end = make_date_(2025, 3, 4);
    assert_eq!(fetch_periods(&positions, end), vec![(2, end, end)]);
}

#[test]
fn pricing_days_group_by_day() {
    let d = |day: u32| make_date_(2025, 1, day);
    let dates = vec![vec![d(2), d(3), d(5)], vec![], vec![d(3), d(4), d(9)]];
    let days = pricing_days(&dates, d(1), d(5));
    assert_eq!(
        days,
        vec![
            (d(2), vec![(0, 0)]),
            (d(3), vec![(0, 1), (2, 0)]),
            (d(4), vec![(2, 1)]),
            (d(5), vec![(0, 2)]),
        ]
    );
    assert!(pricing_days(&dates, d(6), d(5)).is_empty());
}

fn key_(name: &str, index: usize, is_close: bool) -> PositionKey {
    PositionKey { instrument_name: name.to_string(), position_index: index, is_close }
}

#[test]
fn position_selection() {
    let portfolios = vec![
        vec![key_("ESE", 0, false), key_("PAEEM", 1, false)],
        vec![key_("ESE", 0, false), key_("PAEEM", 1, true), key_("ESE", 2, false)],
        vec![key_("ESE", 0, true), key_("PAEEM", 1, true), key_("ESE", 2, false)],
    ];
    let ese = "ESE".to_string();
    assert_eq!(position_index_list(&portfolios, &ese), vec![0, 2]);
    assert!(position_index_list(&Vec::new(), &ese).is_empty());
    assert_eq!(position_pricings(&portfolios, &ese, 0), vec![(0, 0), (1, 0), (2, 0)]);
    assert_eq!(position_pricings(&portfolios, &"PAEEM".to_string(), 0), vec![]);
    assert_eq!(closed_positions(&portfolios), vec![(0, (0, 0), (2, 0)), (1, (0, 1), (1, 1))]);
    assert!(closed_positions(&Vec::new()).is_empty());
}

#[test]
fn cash_flow_span_stops_after_first_close() {
    assert_eq!(cash_flow_span(&vec![]), (0, false));
    assert_eq!(cash_flow_span(&vec![false, false]), (2, false));
    assert_eq!(cash_flow_span(&vec![false, true]), (2, false));
    assert_eq!(cash_flow_span(&vec![false, true, false, true]), (2, true));
    assert_eq!(cash_flow_span(&vec![true, false]), (1, true));
}

fn place_(name: &str, region: Option<&str>, is_close: bool) -> PositionPlace {
    PositionPlace { instrument_name: name.to_string(), region: region.map(|r| r.to_string()), is_close }
}

#[test]
fn distribution_groups() {
    let positions = vec![
        place_("PAEEM", Some("Europe"), false),
        place_("CAC", Some("Europe"), false),
        place_("ESE", Some("USA"), false),
        place_("PAEEM", Some("Europe"), false),
        place_("ALV", Some("Europe"), true),
        place_("RS2K", None, false),
    ];
    assert_eq!(
        instrument_groups(&positions),
        vec![
            ("PAEEM".to_string(), vec![0, 3]),
            ("CAC".to_string(), vec![1]),
            ("ESE".to_string(), vec![2]),
            ("RS2K".to_string(), vec![5]),
        ]
    );
    assert_eq!(
        region_groups(&positions),
        vec![
            ("Europe".to_string(), vec![("PAEEM".to_string(), vec![0, 3]), ("CAC".to_string(), vec![1])]),
            ("USA".to_string(), vec![("ESE".to_string(), vec![2])]),
        ]
    );
    assert!(region_groups(&vec![place_("ALV", Some("Europe"), true)]).is_empty());
}

#[test]
fn heat_map_monthly_rows() {
    let dates = vec![make_date_(2022, 12, 25), make_date_(2023, 1, 31), make_date_(2023, 1, 15), make_date_(2021, 5, 5)];
    let mut none = vec![None; 12];
    let rows = monthly_rows(&dates);
    assert_eq!(rows.len(), 3);
    none[4] = Some(3);
    assert_eq!(rows[0], (2021, none.clone()));
    none[4] = None;
    none[11] = Some(0);
    assert_eq!(rows[1], (2022, none.clone()));
    none[11] = None;
    none[0] = Some(2);
    assert_eq!(rows[2], (2023, none));
    assert!(monthly_rows(&Vec::new()).is_empty());
}
