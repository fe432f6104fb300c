use portfolio_pricer::date::{Date, DateTime, MAX_DAY, MIN_DAY};
use portfolio_pricer::error::Error;
use portfolio_pricer::pricer::tools::{
    is_1_year, is_3_month, keep_last_year, last_3_months, period_carry, pnl_lookback, same_month, same_week, same_year, within_delay,
};
use portfolio_pricer::timeline::{sort_chronologically, stored_history};

fn make_date_(year: i32, month: u32, day: u32) -> Date {
    Date::from_ymd_opt(year, month, day).unwrap()
}

#[test]
fn same_week_month_year() {
    assert!(same_year(make_date_(2023, 11, 10), make_date_(2023, 1, 10)));
    assert!(!same_year(make_date_(2023, 11, 10), make_date_(2022, 1, 10)));

    assert!(same_month(make_date_(2023, 11, 10), make_date_(2023, 11, 1)));
    assert!(same_month(make_date_(2023, 11, 10), make_date_(2022, 11, 1)));
    assert!(!same_month(make_date_(2023, 11, 10), make_date_(2023, 1, 1)));

    assert!(same_week(make_date_(2023, 11, 6), make_date_(2023, 11, 7)));
    assert!(same_week(make_date_(2023, 11, 6), make_date_(2023, 11, 12)));
    assert!(!same_week(make_date_(2023, 11, 6), make_date_(2023, 11, 13)));
    assert!(!same_week(make_date_(2023, 11, 6), make_date_(2023, 11, 20)));
}

#[test]
fn is_1_year_3_month() {
    assert!(is_1_year(make_date_(2023, 11, 10), make_date_(2023, 1, 10)));
    assert!(is_1_year(make_date_(2023, 11, 10), make_date_(2022, 11, 20)));
    assert!(!is_1_year(make_date_(2023, 11, 10), make_date_(2022, 11, 9)));

    assert!(is_3_month(make_date_(2023, 11, 10), make_date_(2023, 11, 20)));
    assert!(is_3_month(make_date_(2023, 11, 10), make_date_(2023, 9, 2)));
    assert!(!is_3_month(make_date_(2023, 11, 10), make_date_(2023, 8, 2)));
}

#[test]
fn periods_are_symmetric() {
    let pairs = [
        (make_date_(2023, 11, 6), make_date_(2023, 11, 12)),
        (make_date_(2023, 11, 12), make_date_(2023, 11, 13)),
        (make_date_(2022, 12, 31), make_date_(2023, 1, 1)),
        (make_date_(2023, 8, 12), make_date_(2023, 11, 10)),
    ];
    for (a, b) in pairs {
        assert_eq!(same_week(a, b), same_week(b, a));
        assert_eq!(same_month(a, b), same_month(b, a));
        assert_eq!(same_year(a, b), same_year(b, a));
        assert_eq!(is_3_month(a, b), is_3_month(b, a));
        assert_eq!(is_1_year(a, b), is_1_year(b, a));
        if is_3_month(a, b) {
            assert!(is_1_year(a, b));
        }
    }
}

#[test]
fn same_week_is_strict_and_crosses_no_monday() {
    let date = make_date_(2023, 11, 8);
    assert!(!same_week(date, date));
    // Sunday then Monday: adjacent days, different weeks.
    assert!(!same_week(make_date_(2023, 11, 12), make_date_(2023, 11, 13)));
}

#[test]
fn window_bounds() {
    assert!(is_3_month(make_date_(2023, 1, 1), make_date_(2023, 3, 31)));
    assert!(!is_3_month(make_date_(2023, 1, 1), make_date_(2023, 4, 1)));
    assert!(is_1_year(make_date_(2023, 1, 1), make_date_(2023, 12, 31)));
    assert!(!is_1_year(make_date_(2023, 1, 1), make_date_(2024, 1, 1)));
}

#[test]
fn date_fields_and_arithmetic() {
    let date = make_date_(2024, 2, 28);
    assert_eq!(date.year(), 2024);
    assert_eq!(date.month(), 2);
    assert_eq!(date.day(), 28);
    assert_eq!(date.weekday_from_monday(), 2);
    let next = date.checked_add_days(1).unwrap();
    assert_eq!(next, make_date_(2024, 2, 29));
    assert_eq!(next.days_since(&date), 1);
    assert_eq!(date.days_since(&next), -1);
    assert_eq!(next.checked_sub_days(1).unwrap(), date);
    assert_eq!(
        make_date_(2022, 7, 31).checked_add_months(2),
        Some(make_date_(2022, 9, 30))
    );
    assert_eq!(date.checked_add_months(0), Some(date));
    assert_eq!(date.to_text(), "2024-02-28");
    assert!(date.is_before(&next));
    assert!(!next.is_before(&date));
}

#[test]
fn date_invalid_and_range() {
    assert!(Date::from_ymd_opt(2023, 2, 29).is_none());
    assert!(Date::from_ymd_opt(2023, 13, 1).is_none());
    assert!(Date::from_ymd_opt(2023, 4, 31).is_none());
    let max = make_date_(262142, 12, 31);
    assert_eq!(max.num_days_from_ce(), MAX_DAY);
    assert!(max.checked_add_days(1).is_none());
    let min = make_date_(-262143, 1, 1);
    assert_eq!(min.num_days_from_ce(), MIN_DAY);
    assert!(min.checked_sub_days(1).is_none());
    assert!(Date::from_ymd_opt(262143, 1, 1).is_none());
}

#[test]
fn date_numbering() {
    assert_eq!(make_date_(1, 1, 1).num_days_from_ce(), 1);
    assert_eq!(make_date_(1970, 1, 1).num_days_from_ce(), 719_163);
    assert_eq!(Date::default_date(), make_date_(1970, 1, 1));
    assert_eq!(make_date_(1970, 1, 1).to_text(), "1970-01-01");
}

#[test]
fn datetime_order() {
    let a = DateTime { date: make_date_(2023, 1, 1), secs: 10, nanos: 0 };
    let b = DateTime { date: make_date_(2023, 1, 1), secs: 10, nanos: 1 };
    let c = DateTime { date: make_date_(2023, 1, 2), secs: 0, nanos: 0 };
    assert!(a.is_before(&b));
    assert!(b.is_before(&c));
    assert!(!c.is_before(&a));
    assert!(!a.is_before(&a));
}

#[test]
fn date_from_text() {
    assert_eq!(Date::from_text("2022-03-17").unwrap(), make_date_(2022, 3, 17));
    assert_eq!(make_date_(2022, 3, 17).to_text(), "2022-03-17");
    match Date::from_text("2022-13-01") {
        Err(Error::Referential(msg)) => {
            assert!(msg.starts_with("unable to convert 2022-13-01 into Date because "));
        }
        other => panic!("unexpected {:?}", other),
    }
    assert!(Date::from_text("").is_err());
}

#[test]
fn datetime_from_text() {
    let dt = DateTime::from_text("2022-03-17T10:00:00-00:00").unwrap();
    assert_eq!(dt, DateTime { date: make_date_(2022, 3, 17), secs: 36000, nanos: 0 });
    let dt = DateTime::from_text("2022-03-01T08:00:00.5+02:00").unwrap();
    assert_eq!(dt, DateTime { date: make_date_(2022, 3, 1), secs: 8 * 3600, nanos: 500_000_000 });
    match DateTime::from_text("2022-03-17") {
        Err(Error::Referential(msg)) => {
            assert!(msg.starts_with("unable to convert 2022-03-17 into Date because "));
        }
        other => panic!("unexpected {:?}", other),
    }
}

#[test]
fn sort_dates_chronologically() {
    let items = vec![
        (make_date_(2023, 5, 2), "b"),
        (make_date_(2023, 1, 9), "a"),
        (make_date_(2023, 5, 2), "c"),
        (make_date_(2022, 12, 31), "z"),
    ];
    let sorted = sort_chronologically(items);
    let labels: Vec<&str> = sorted.iter().map(|item| item.1).collect();
    assert_eq!(labels, vec!["z", "a", "b", "c"]);
}

#[test]
fn sort_datetimes_chronologically() {
    let at = |day: u32, secs: u32| DateTime { date: make_date_(2023, 5, day), secs, nanos: 0 };
    let items = vec![(at(2, 100), 1), (at(2, 50), 2), (at(1, 900), 3)];
    let sorted = sort_chronologically(items);
    let order: Vec<i32> = sorted.iter().map(|item| item.1).collect();
    assert_eq!(order, vec![3, 2, 1]);
}

#[test]
fn stored_history_bounds() {
    assert!(stored_history::<u8>(Vec::new()).is_none());
    let datas = vec![(make_date_(2023, 5, 3), 3u8), (make_date_(2023, 5, 1), 1u8), (make_date_(2023, 5, 2), 2u8)];
    let (first, last, sorted) = stored_history(datas).unwrap();
    assert_eq!(first, make_date_(2023, 5, 1));
    assert_eq!(last, make_date_(2023, 5, 3));
    assert_eq!(sorted.iter().map(|item| item.1).collect::<Vec<u8>>(), vec![1, 2, 3]);
}

#[test]
fn period_carry_by_calendar() {
    let carry = period_carry(make_date_(2023, 11, 6), make_date_(2023, 11, 7));
    assert!(carry.weekly && carry.monthly && carry.yearly);
    let carry = period_carry(make_date_(2023, 10, 31), make_date_(2023, 11, 1));
    assert!(carry.weekly && !carry.monthly && carry.yearly);
    let carry = period_carry(make_date_(2022, 11, 30), make_date_(2023, 11, 30));
    assert!(!carry.weekly && !carry.monthly && !carry.yearly);
    let carry = period_carry(make_date_(2023, 11, 5), make_date_(2023, 11, 6));
    assert!(!carry.weekly && carry.monthly && carry.yearly);
}

#[test]
fn windows_of_daily_history() {
    let history = vec![
        (make_date_(2022, 11, 9), 1),
        (make_date_(2022, 11, 20), 2),
        (make_date_(2023, 8, 2), 3),
        (make_date_(2023, 9, 2), 4),
        (make_date_(2023, 11, 10), 5),
    ];
    let date = make_date_(2023, 11, 10);
    let year = keep_last_year(&history, date);
    assert_eq!(year.iter().map(|item| item.1).collect::<Vec<i32>>(), vec![2, 3, 4, 5]);
    let months = last_3_months(&history, date);
    assert_eq!(months.iter().map(|item| item.1).collect::<Vec<i32>>(), vec![4, 5]);
    assert_eq!(last_3_months(&year, date), months);
}

#[test]
fn within_delay_keeps_recent_dates() {
    let dates = vec![make_date_(2025, 1, 1), make_date_(2025, 1, 11), make_date_(2025, 1, 12), make_date_(2025, 4, 1)];
    assert_eq!(within_delay(&dates, make_date_(2025, 4, 11), 90), vec![2, 3]);
    assert_eq!(within_delay(&dates, make_date_(2024, 12, 1), 90), vec![0, 1, 2, 3]);
    assert!(within_delay(&Vec::new(), make_date_(2025, 4, 11), 90).is_empty());
}

#[test]
fn pnl_lookback_points() {
    // 2023-11-08 is a Wednesday
    let lookback = pnl_lookback(make_date_(2023, 11, 8));
    assert_eq!(lookback.daily, 1);
    assert_eq!(lookback.weekly, 3);
    assert_eq!(lookback.monthly, 8);
    assert_eq!(lookback.yearly, Some(make_date_(2022, 12, 31)));
    assert_eq!(pnl_lookback(make_date_(2023, 11, 12)).weekly, 7);
    assert_eq!(pnl_lookback(make_date_(-262143, 1, 1)).yearly, None);
}
