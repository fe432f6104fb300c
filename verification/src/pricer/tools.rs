//! Calendar predicates that decide which running P&L periods a new day
//! extends: same week, same month, same year, and the trailing three-month
//! and one-year windows.
use crate::date::{chrono_day, chrono_from_ymd, chrono_in_range, chrono_month, chrono_weekday, chrono_year, Date};
use vstd::prelude::*;

verus! {

/// Two day numbers fall in the same Monday-to-Sunday week, as the pricer
/// decides it: the later one is less than seven days after the earlier one
/// and falls on a later weekday.
pub open spec fn spec_same_week(day1: int, day2: int) -> bool {
    let min_day = if day1 <= day2 { day1 } else { day2 };
    let max_day = if day1 <= day2 { day2 } else { day1 };
    max_day - min_day < 7 && chrono_weekday(max_day) > chrono_weekday(min_day)
}

/// Two day numbers fall in a month with the same number (whatever the year).
pub open spec fn spec_same_month(day1: int, day2: int) -> bool {
    chrono_month(day1) == chrono_month(day2)
}

/// Two day numbers fall in the same calendar year.
pub open spec fn spec_same_year(day1: int, day2: int) -> bool {
    chrono_year(day1) == chrono_year(day2)
}

/// The distance between two integers.
pub open spec fn distance(a: int, b: int) -> int {
    if a >= b { a - b } else { b - a }
}

/// Two day numbers lie less than three 30-day months apart.
pub open spec fn spec_is_3_month(day1: int, day2: int) -> bool {
    distance(day1, day2) < 30 * 3
}

/// Two day numbers lie less than 365 days apart.
pub open spec fn spec_is_1_year(day1: int, day2: int) -> bool {
    distance(day1, day2) < 365
}

/// Whether both dates fall in the same Monday-to-Sunday week: the later
/// one is less than seven days after the earlier and on a later weekday.
pub fn same_week(date1: Date, date2: Date) -> (r: bool)
    ensures
        r == spec_same_week(date1@, date2@),
{
    let (min_date, max_date) = if date2.is_before(&date1) {
        (date2, date1)
    } else {
        (date1, date2)
    };
    max_date.days_since(&min_date) < 7
        && max_date.weekday_from_monday() > min_date.weekday_from_monday()
}

/// Whether both dates fall in a month with the same number (the year is not compared).
pub fn same_month(date1: Date, date2: Date) -> (r: bool)
    ensures
        r == spec_same_month(date1@, date2@),
{
    date1.month() == date2.month()
}

/// Whether both dates fall in the same calendar year.
pub fn same_year(date1: Date, date2: Date) -> (r: bool)
    ensures
        r == spec_same_year(date1@, date2@),
{
    date1.year() == date2.year()
}

/// Whether the dates lie less than 90 days apart.
pub fn is_3_month(date1: Date, date2: Date) -> (r: bool)
    ensures
        r == spec_is_3_month(date1@, date2@),
{
    proof {
        date1.lemma_view_bounds();
        date2.lemma_view_bounds();
    }
    let days = date1.days_since(&date2);
    let abs_days = if days < 0 { -days } else { days };
    abs_days < 30 * 3
}

/// Whether the dates lie less than 365 days apart.
pub fn is_1_year(date1: Date, date2: Date) -> (r: bool)
    ensures
        r == spec_is_1_year(date1@, date2@),
{
    proof {
        date1.lemma_view_bounds();
        date2.lemma_view_bounds();
    }
    let days = date1.days_since(&date2);
    let abs_days = if days < 0 { -days } else { days };
    abs_days < 365
}

/// Which running P&L periods a new day extends rather than restarts.
pub struct PeriodCarry {
    /// The new day falls in the week of the previous one.
    pub weekly: bool,
    /// The new day falls in the month (and year) of the previous one.
    pub monthly: bool,
    /// The new day falls in the year of the previous one.
    pub yearly: bool,
}

/// Which running periods carry on from the previous valuation day to `date`:
/// the week when both fall in the same week, the month when both fall in
/// the same month of the same year, the year when both fall in the same year.
pub fn period_carry(previous: Date, date: Date) -> (r: PeriodCarry)
    ensures
        r.weekly == spec_same_week(previous@, date@),
        r.monthly == (spec_same_month(previous@, date@) && spec_same_year(previous@, date@)),
        r.yearly == spec_same_year(previous@, date@),
{
    let yearly = same_year(previous, date);
    PeriodCarry { weekly: same_week(previous, date), monthly: same_month(previous, date) && yearly, yearly }
}

/// The entries of a daily history dated less than a year from `date`.
pub open spec fn spec_last_year<T>(history: Seq<(Date, T)>, date: int) -> Seq<(Date, T)> {
    history.filter(|item: (Date, T)| spec_is_1_year(date, item.0@))
}

/// The entries of a daily history dated less than three months from `date`.
pub open spec fn spec_last_3_months<T>(history: Seq<(Date, T)>, date: int) -> Seq<(Date, T)> {
    history.filter(|item: (Date, T)| spec_is_3_month(date, item.0@))
}

proof fn lemma_filter_step<T>(s: Seq<(Date, T)>, pred: spec_fn((Date, T)) -> bool, i: int)
    requires
        0 <= i < s.len(),
    ensures
        s.subrange(0, i + 1).filter(pred) == (if pred(s[i]) {
            s.subrange(0, i).filter(pred).push(s[i])
        } else {
            s.subrange(0, i).filter(pred)
        }),
{
    let prefix = s.subrange(0, i + 1);
    assert(prefix.drop_last() =~= s.subrange(0, i));
    reveal_with_fuel(Seq::filter, 1);
}

/// The entries of a daily history, in their order, dated less than a year
/// from `date`: what the accumulator keeps after each new day.
pub fn keep_last_year<T: Copy>(history: &Vec<(Date, T)>, date: Date) -> (r: Vec<(Date, T)>)
    ensures
        r@ == spec_last_year(history@, date@),
{
    let ghost pred = |item: (Date, T)| spec_is_1_year(date@, item.0@);
    let mut result: Vec<(Date, T)> = Vec::new();
    let mut i: usize = 0;
    while i < history.len()
        invariant
            i <= history@.len(),
            pred == (|item: (Date, T)| spec_is_1_year(date@, item.0@)),
            result@ == history@.subrange(0, i as int).filter(pred),
        decreases history@.len() - i,
    {
        let item = history[i];
        proof {
            lemma_filter_step(history@, pred, i as int);
        }
        if is_1_year(date, item.0) {
            result.push(item);
        }
        i = i + 1;
    }
    assert(history@.subrange(0, history@.len() as int) =~= history@);
    result
}

/// The entries of a daily history, in their order, dated less than three
/// months from `date`: those the three-month P&L and volatility are made of.
pub fn last_3_months<T: Copy>(history: &Vec<(Date, T)>, date: Date) -> (r: Vec<(Date, T)>)
    ensures
        r@ == spec_last_3_months(history@, date@),
{
    let ghost pred = |item: (Date, T)| spec_is_3_month(date@, item.0@);
    let mut result: Vec<(Date, T)> = Vec::new();
    let mut i: usize = 0;
    while i < history.len()
        invariant
            i <= history@.len(),
            pred == (|item: (Date, T)| spec_is_3_month(date@, item.0@)),
            result@ == history@.subrange(0, i as int).filter(pred),
        decreases history@.len() - i,
    {
        let item = history[i];
        proof {
            lemma_filter_step(history@, pred, i as int);
        }
        if is_3_month(date, item.0) {
            result.push(item);
        }
        i = i + 1;
    }
    assert(history@.subrange(0, history@.len() as int) =~= history@);
    result
}

/// The positions, among the first `n` of `dates`, of the dates that lie less
/// than `delay` days before `date` (or after it).
pub open spec fn spec_within_delay(dates: Seq<Date>, date: int, delay: int, n: int) -> Seq<usize>
    decreases n,
{
    if n <= 0 {
        seq![]
    } else {
        let previous = spec_within_delay(dates, date, delay, n - 1);
        if dates[n - 1]@ + delay > date {
            previous.push((n - 1) as usize)
        } else {
            previous
        }
    }
}

/// The positions of the dates that, `delay` days later, come after `date`:
/// the earlier values a volatility over the last `delay` days is made of.
/// Each date moved `delay` days later must stay a supported date.
pub fn within_delay(dates: &Vec<Date>, date: Date, delay: u32) -> (r: Vec<usize>)
    requires
        forall|i: int| 0 <= i < dates@.len() ==> chrono_in_range(#[trigger] dates@[i]@ + delay),
    ensures
        r@ == spec_within_delay(dates@, date@, delay as int, dates@.len() as int),
{
    let mut result: Vec<usize> = Vec::new();
    let mut i: usize = 0;
    while i < dates.len()
        invariant
            i <= dates@.len(),
            forall|k: int| 0 <= k < dates@.len() ==> chrono_in_range(#[trigger] dates@[k]@ + delay),
            result@ == spec_within_delay(dates@, date@, delay as int, i as int),
        decreases dates@.len() - i,
    {
        let moved = dates[i].checked_add_days(delay as u64).unwrap();
        if date.is_before(&moved) {
            result.push(i);
        }
        i = i + 1;
    }
    result
}

/// How far back each running P&L of a day looks for its reference
/// valuation: the daily one one day back, the weekly one to the Sunday
/// before the date's week, the monthly one to the last day of the previous
/// month, and the yearly one to December 31 of the previous year (when that
/// date exists).
pub struct PnlLookback {
    /// Days back to the previous day: one.
    pub daily: u64,
    /// Days back to the Sunday before the date's week.
    pub weekly: u64,
    /// Days back to the last day of the previous month.
    pub monthly: u64,
    /// December 31 of the previous year, looked up as it is.
    pub yearly: Option<Date>,
}

/// The reference points of the daily, weekly, monthly and yearly P&L of
/// `date`.
pub fn pnl_lookback(date: Date) -> (r: PnlLookback)
    ensures
        r.daily == 1,
        r.weekly == chrono_weekday(date@) + 1,
        r.monthly == chrono_day(date@),
        match r.yearly {
            Some(d) => chrono_from_ymd(chrono_year(date@) - 1, 12, 31) == Some(d@),
            None => chrono_from_ymd(chrono_year(date@) - 1, 12, 31) is None,
        },
{
    let year = date.year();
    PnlLookback {
        daily: 1,
        weekly: date.weekday_from_monday() as u64 + 1,
        monthly: date.day() as u64,
        yearly: Date::from_ymd_opt(year - 1, 12, 31),
    }
}

/// Dropping the entries older than a year loses none of the last three
/// months: the three-month window of the kept history is that of the whole.
pub proof fn lemma_3_months_of_last_year<T>(history: Seq<(Date, T)>, date: int)
    ensures
        spec_last_3_months(spec_last_year(history, date), date) == spec_last_3_months(history, date),
    decreases history.len(),
{
    reveal_with_fuel(Seq::filter, 1);
    if history.len() > 0 {
        lemma_3_months_of_last_year(history.drop_last(), date);
        let last = history.last();
        if spec_is_3_month(date, last.0@) {
            lemma_3_month_within_1_year(date, last.0@);
        }
        let year_pred = |item: (Date, T)| spec_is_1_year(date, item.0@);
        let kept = spec_last_year(history.drop_last(), date);
        if year_pred(last) {
            assert(kept.push(last).drop_last() =~= kept);
        }
    }
}

/// Each of the calendar predicates gives the same answer whichever date
/// comes first.
pub proof fn lemma_periods_symmetric(day1: int, day2: int)
    ensures
        spec_same_week(day1, day2) == spec_same_week(day2, day1),
        spec_same_month(day1, day2) == spec_same_month(day2, day1),
        spec_same_year(day1, day2) == spec_same_year(day2, day1),
        spec_is_3_month(day1, day2) == spec_is_3_month(day2, day1),
        spec_is_1_year(day1, day2) == spec_is_1_year(day2, day1),
{
}

/// Two dates less than three months apart are less than a year apart.
pub proof fn lemma_3_month_within_1_year(day1: int, day2: int)
    requires
        spec_is_3_month(day1, day2),
    ensures
        spec_is_1_year(day1, day2),
{
}

/// Two dates in the same week are distinct and less than seven days apart.
pub proof fn lemma_same_week_close(day1: int, day2: int)
    requires
        spec_same_week(day1, day2),
    ensures
        day1 != day2,
        distance(day1, day2) < 7,
{
}

} // verus!
