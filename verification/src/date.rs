//! Calendar dates of the proleptic Gregorian calendar.
//!
//! A [`Date`] is held as its day number counted from January 1 of year 1
//! (day 1), the numbering that `chrono` uses for `num_days_from_ce`.
//! The calendar computations (year, month, day of month, weekday, month
//! arithmetic) are done by `chrono`. Which dates exist, their day numbers,
//! the weekday of a day number and month arithmetic are stated here; the
//! year, month and day of a day number are named and tied to its date; the
//! texts of dates and their parsing are named.
use crate::error::{concat, conversion_message, Error};
use chrono::{Datelike, Days, Months, NaiveDate, Timelike};
use vstd::prelude::*;

verus! {

/// The day number of `chrono`'s `NaiveDate::MIN`, January 1, 262144 BCE.
pub const MIN_DAY: i32 = -95746129i32;

/// The day number of `chrono`'s `NaiveDate::MAX`, December 31, 262142 CE.
pub const MAX_DAY: i32 = 95745399i32;

/// The first year `chrono` represents (`NaiveDate::MIN`'s).
pub const MIN_YEAR: i32 = -262143i32;

/// The last year `chrono` represents (`NaiveDate::MAX`'s).
pub const MAX_YEAR: i32 = 262142i32;

/// Whether `chrono` can represent the day numbered `days` (counted from
/// January 1 of year 1): it lies between `NaiveDate::MIN` and `NaiveDate::MAX`.
pub open spec fn chrono_in_range(days: int) -> bool {
    MIN_DAY <= days <= MAX_DAY
}

/// The date (year, month, day of the month) that the day numbered `days`
/// is: the valid date that `ymd_days` numbers `days`, which is unique
/// (`lemma_date_of`).
pub open spec fn chrono_date_of(days: int) -> (int, int, int) {
    choose|date: (int, int, int)| valid_ymd(date.0, date.1, date.2) && ymd_days(date.0, date.1, date.2) == days
}

/// The calendar year of the day numbered `days`, as `chrono`'s
/// `Datelike::year` gives it.
pub open spec fn chrono_year(days: int) -> int {
    chrono_date_of(days).0
}

/// The month (1 to 12) of the day numbered `days`, as `chrono`'s `Datelike::month` gives it.
pub open spec fn chrono_month(days: int) -> int {
    chrono_date_of(days).1
}

/// The day of the month (1 to 31) of the day numbered `days`, as `chrono`'s `Datelike::day` gives it.
pub open spec fn chrono_day(days: int) -> int {
    chrono_date_of(days).2
}

/// The weekday of the day numbered `days` counted from Monday (0 to 6), as
/// `chrono`'s `Weekday::num_days_from_monday` gives it: day 1, January 1
/// of year 1, is a Monday, and the weekdays follow each other every day.
pub open spec fn chrono_weekday(days: int) -> int {
    (days - 1) % 7
}

/// Whether `year` is a leap year of the proleptic Gregorian calendar.
pub open spec fn is_leap_year(year: int) -> bool {
    year % 4 == 0 && (year % 100 != 0 || year % 400 == 0)
}

/// The number of days of the month `month` (1 to 12) of `year`.
pub open spec fn days_in_month(year: int, month: int) -> int {
    if month == 2 {
        if is_leap_year(year) {
            29
        } else {
            28
        }
    } else if month == 4 || month == 6 || month == 9 || month == 11 {
        30
    } else {
        31
    }
}

/// Whether `year`-`month`-`day` is a day of the calendar that `chrono`
/// represents: a year from `MIN_YEAR` to `MAX_YEAR`, a month from 1 to 12
/// and a day of that month.
pub open spec fn valid_ymd(year: int, month: int, day: int) -> bool {
    &&& MIN_YEAR <= year <= MAX_YEAR
    &&& 1 <= month <= 12
    &&& 1 <= day <= days_in_month(year, month)
}

/// The number of days of `year` before the first day of its month `month`.
pub open spec fn days_before_month(year: int, month: int) -> int {
    let common: int = if month == 1 {
        0
    } else if month == 2 {
        31
    } else if month == 3 {
        59
    } else if month == 4 {
        90
    } else if month == 5 {
        120
    } else if month == 6 {
        151
    } else if month == 7 {
        181
    } else if month == 8 {
        212
    } else if month == 9 {
        243
    } else if month == 10 {
        273
    } else if month == 11 {
        304
    } else {
        334
    };
    if month > 2 && is_leap_year(year) {
        common + 1
    } else {
        common
    }
}

/// The day number of `year`-`month`-`day` counted from January 1 of year 1
/// (day 1) in the proleptic Gregorian calendar: the days of the years
/// before it, then of the months before it, then the day of the month.
pub open spec fn ymd_days(year: int, month: int, day: int) -> int {
    let before = year - 1;
    365 * before + before / 4 - before / 100 + before / 400 + days_before_month(year, month) + day
}

/// The day number of the date `year`-`month`-`day`, when `chrono`'s
/// `NaiveDate::from_ymd_opt` accepts it: a day of the calendar within its
/// range of years (`valid_ymd`), numbered as `num_days_from_ce` numbers it.
#[verifier::opaque]
pub open spec fn chrono_from_ymd(year: int, month: int, day: int) -> Option<int> {
    if valid_ymd(year, month, day) {
        Some(ymd_days(year, month, day))
    } else {
        None
    }
}

/// The number of days of `year`.
pub open spec fn year_length(year: int) -> int {
    if is_leap_year(year) {
        366
    } else {
        365
    }
}

proof fn lemma_div_step(value: int, divisor: int)
    requires
        divisor > 0,
    ensures
        value / divisor - (value - 1) / divisor == if value % divisor == 0 {
            1int
        } else {
            0int
        },
{
    vstd::arithmetic::div_mod::lemma_fundamental_div_mod(value, divisor);
    vstd::arithmetic::div_mod::lemma_fundamental_div_mod(value - 1, divisor);
    assert(value / divisor - (value - 1) / divisor == if value % divisor == 0 { 1int } else { 0int }) by (nonlinear_arith)
        requires
            divisor > 0,
            value == divisor * (value / divisor) + value % divisor,
            value - 1 == divisor * ((value - 1) / divisor) + (value - 1) % divisor,
            0 <= value % divisor < divisor,
            0 <= (value - 1) % divisor < divisor,
    ;
}

proof fn lemma_year_start_step(year: int)
    ensures
        ymd_days(year + 1, 1, 1) == ymd_days(year, 1, 1) + year_length(year),
{
    lemma_div_step(year, 4);
    lemma_div_step(year, 100);
    lemma_div_step(year, 400);
}

proof fn lemma_within_year(year: int, month: int, day: int)
    requires
        valid_ymd(year, month, day),
    ensures
        ymd_days(year, 1, 1) <= ymd_days(year, month, day) < ymd_days(year, 1, 1) + year_length(year),
{
}

proof fn lemma_year_start_monotone(first: int, later: int)
    requires
        first < later,
    ensures
        ymd_days(first + 1, 1, 1) <= ymd_days(later, 1, 1),
    decreases later - first,
{
    if later > first + 1 {
        lemma_year_start_monotone(first, later - 1);
        lemma_year_start_step(later - 1);
    }
}

proof fn lemma_ymd_ordered(year: int, month: int, day: int, later_year: int, later_month: int, later_day: int)
    requires
        valid_ymd(year, month, day),
        valid_ymd(later_year, later_month, later_day),
        year < later_year,
    ensures
        ymd_days(year, month, day) < ymd_days(later_year, later_month, later_day),
{
    lemma_within_year(year, month, day);
    lemma_within_year(later_year, later_month, later_day);
    lemma_year_start_step(year);
    lemma_year_start_monotone(year, later_year);
}

/// Two valid dates with the same day number are the same date.
pub proof fn lemma_ymd_injective(year: int, month: int, day: int, other_year: int, other_month: int, other_day: int)
    requires
        valid_ymd(year, month, day),
        valid_ymd(other_year, other_month, other_day),
        ymd_days(year, month, day) == ymd_days(other_year, other_month, other_day),
    ensures
        year == other_year && month == other_month && day == other_day,
{
    if year < other_year {
        lemma_ymd_ordered(year, month, day, other_year, other_month, other_day);
    } else if other_year < year {
        lemma_ymd_ordered(other_year, other_month, other_day, year, month, day);
    }
}

/// A valid date lies within `chrono`'s range of day numbers, and its day
/// number gives it back: its year, month and day of the month.
pub proof fn lemma_date_of(year: int, month: int, day: int)
    requires
        valid_ymd(year, month, day),
    ensures
        chrono_in_range(ymd_days(year, month, day)),
        chrono_date_of(ymd_days(year, month, day)) == (year, month, day),
        chrono_year(ymd_days(year, month, day)) == year,
        chrono_month(ymd_days(year, month, day)) == month,
        chrono_day(ymd_days(year, month, day)) == day,
{
    let days = ymd_days(year, month, day);
    let date = (year, month, day);
    assert(valid_ymd(date.0, date.1, date.2) && ymd_days(date.0, date.1, date.2) == days);
    let found = chrono_date_of(days);
    lemma_ymd_injective(year, month, day, found.0, found.1, found.2);
    assert(ymd_days(MIN_YEAR as int, 1, 1) == MIN_DAY);
    assert(ymd_days(MAX_YEAR as int, 12, 31) == MAX_DAY);
    if year > MIN_YEAR {
        lemma_ymd_ordered(MIN_YEAR as int, 1, 1, year, month, day);
    } else {
        lemma_within_year(year, month, day);
    }
    if year < MAX_YEAR {
        lemma_ymd_ordered(year, month, day, MAX_YEAR as int, 12, 31);
    } else {
        lemma_within_year(year, month, day);
    }
}

/// The day after a date within its month is numbered one more, the first
/// day of a month follows the last day of the month before, and January 1
/// follows December 31 of the year before.
pub proof fn lemma_next_day(year: int, month: int, day: int)
    ensures
        1 <= day && valid_ymd(year, month, day + 1) ==> (chrono_from_ymd(year, month, day) matches Some(a)
            && chrono_from_ymd(year, month, day + 1) == Some(a + 1)),
        1 <= month && valid_ymd(year, month + 1, 1) && day == days_in_month(year, month) ==> (chrono_from_ymd(
            year,
            month,
            day,
        ) matches Some(a) && chrono_from_ymd(year, month + 1, 1) == Some(a + 1)),
        month == 12 && day == 31 && MIN_YEAR <= year && valid_ymd(year + 1, 1, 1) ==> (chrono_from_ymd(year, month, day) matches Some(
            a,
        ) && chrono_from_ymd(year + 1, 1, 1) == Some(a + 1)),
{
    reveal(chrono_from_ymd);
    lemma_year_start_step(year);
}

/// The day number that `chrono`'s `NaiveDate::checked_add_months` gives for
/// the day numbered `days` and `months` months: the same date itself for
/// no month; otherwise the date whose month, counted from year 0, is
/// `months` later, on the same day of the month or the last day of that
/// month where it is shorter, when the count fits an `i32` and the date
/// lies within `chrono`'s range.
#[verifier::opaque]
pub open spec fn chrono_add_months(days: int, months: int) -> Option<int> {
    if months == 0 {
        Some(days)
    } else if months > i32::MAX {
        None
    } else {
        let total = chrono_year(days) * 12 + chrono_month(days) - 1 + months;
        if total > i32::MAX {
            None
        } else {
            let year = total / 12;
            let month = total % 12 + 1;
            let day = if chrono_day(days) > days_in_month(year, month) {
                days_in_month(year, month)
            } else {
                chrono_day(days)
            };
            chrono_from_ymd(year, month, day)
        }
    }
}

/// The text of the day numbered `days` as `chrono` displays a `NaiveDate`
/// (`YYYY-MM-DD`).
pub uninterp spec fn chrono_date_text(days: int) -> Seq<char>;

/// The day number `chrono`'s `NaiveDate::parse_from_str(text, "%Y-%m-%d")`
/// reads from `text`, when it reads one.
pub uninterp spec fn chrono_parse_ymd(text: Seq<char>) -> Option<int>;

/// The text of the error `chrono` reports when `NaiveDate::parse_from_str(text, "%Y-%m-%d")` fails.
pub uninterp spec fn chrono_parse_ymd_error(text: Seq<char>) -> Seq<char>;

/// The local date, seconds since midnight and nanoseconds that `chrono`'s
/// `DateTime::parse_from_rfc3339(text)` reads (through `naive_local`), when
/// it reads them.
pub uninterp spec fn chrono_parse_rfc3339(text: Seq<char>) -> Option<(int, int, int)>;

/// The text of the error `chrono` reports when `DateTime::parse_from_rfc3339(text)` fails.
pub uninterp spec fn chrono_parse_rfc3339_error(text: Seq<char>) -> Seq<char>;

/// A calendar date, held as its day number counted from January 1 of year 1.
#[derive(Clone, Copy, Debug, PartialEq, Eq, Structural, PartialOrd, Ord, Hash)]
pub struct Date {
    days: i32,
}

impl View for Date {
    type V = int;

    closed spec fn view(&self) -> int {
        self.days as int
    }
}

/// `chrono::NaiveDate::from_ymd_opt`: the date `year`-`month`-`day` when
/// `chrono` accepts it, which it documents as a real day of the calendar
/// within its range of years (`valid_ymd`). The contract claims that the
/// result carries that year, month and day.
#[verifier::external_body]
fn chrono_from_ymd_opt(year: i32, month: u32, day: u32) -> (r: Option<Date>)
    ensures
        r is Some <==> valid_ymd(year as int, month as int, day as int),
        match r {
            Some(d) => {
                &&& chrono_from_ymd(year as int, month as int, day as int) == Some(d@)
                &&& chrono_in_range(d@)
                &&& chrono_year(d@) == year
                &&& chrono_month(d@) == month
                &&& chrono_day(d@) == day
            },
            None => chrono_from_ymd(year as int, month as int, day as int) is None,
        },
{
    match NaiveDate::from_ymd_opt(year, month, day) {
        Some(d) => Some(Date { days: d.num_days_from_ce() }),
        None => None,
    }
}

/// `chrono::Datelike::year` of the date, within `chrono`'s range of years.
#[verifier::external_body]
fn chrono_year_of(date: Date) -> (r: i32)
    requires
        chrono_in_range(date@),
    ensures
        r == chrono_year(date@),
        MIN_YEAR <= r <= MAX_YEAR,
        chrono_from_ymd(r as int, chrono_month(date@), chrono_day(date@)) == Some(date@),
{
    NaiveDate::from_num_days_from_ce_opt(date.days).unwrap().year()
}

/// `chrono::Datelike::month` of the date; `chrono` documents it between 1 and 12.
#[verifier::external_body]
fn chrono_month_of(date: Date) -> (r: u32)
    requires
        chrono_in_range(date@),
    ensures
        r == chrono_month(date@),
        1 <= r <= 12,
        chrono_from_ymd(chrono_year(date@), r as int, chrono_day(date@)) == Some(date@),
{
    NaiveDate::from_num_days_from_ce_opt(date.days).unwrap().month()
}

/// `chrono::Datelike::day` of the date; `chrono` documents it between 1 and 31.
#[verifier::external_body]
fn chrono_day_of(date: Date) -> (r: u32)
    requires
        chrono_in_range(date@),
    ensures
        r == chrono_day(date@),
        1 <= r <= 31,
        chrono_from_ymd(chrono_year(date@), chrono_month(date@), r as int) == Some(date@),
{
    NaiveDate::from_num_days_from_ce_opt(date.days).unwrap().day()
}

/// `chrono::Weekday::num_days_from_monday` of the date's weekday: 0 for a
/// Monday up to 6 for a Sunday.
#[verifier::external_body]
fn chrono_weekday_of(date: Date) -> (r: u32)
    requires
        chrono_in_range(date@),
    ensures
        r == chrono_weekday(date@),
        r < 7,
{
    NaiveDate::from_num_days_from_ce_opt(date.days).unwrap().weekday().num_days_from_monday()
}

/// `chrono::NaiveDate::checked_add_days`: the date `days` days later, when
/// `chrono` can represent it.
#[verifier::external_body]
fn chrono_checked_add_days(date: Date, days: u64) -> (r: Option<Date>)
    requires
        chrono_in_range(date@),
    ensures
        r is Some <==> chrono_in_range(date@ + days),
        r matches Some(d) ==> d@ == date@ + days && chrono_in_range(d@),
{
    match NaiveDate::from_num_days_from_ce_opt(date.days).unwrap().checked_add_days(Days::new(days)) {
        Some(d) => Some(Date { days: d.num_days_from_ce() }),
        None => None,
    }
}

/// `chrono::NaiveDate::checked_sub_days`: the date `days` days earlier, when
/// `chrono` can represent it.
#[verifier::external_body]
fn chrono_checked_sub_days(date: Date, days: u64) -> (r: Option<Date>)
    requires
        chrono_in_range(date@),
    ensures
        r is Some <==> chrono_in_range(date@ - days),
        r matches Some(d) ==> d@ == date@ - days && chrono_in_range(d@),
{
    match NaiveDate::from_num_days_from_ce_opt(date.days).unwrap().checked_sub_days(Days::new(days)) {
        Some(d) => Some(Date { days: d.num_days_from_ce() }),
        None => None,
    }
}

/// `chrono::NaiveDate::checked_add_months`: the same day `months` months later
/// (the last day of that month where it is shorter), when `chrono` can
/// represent it, as `chrono_add_months` states it.
#[verifier::external_body]
fn chrono_checked_add_months(date: Date, months: u32) -> (r: Option<Date>)
    requires
        chrono_in_range(date@),
    ensures
        match r {
            Some(d) => chrono_add_months(date@, months as int) == Some(d@) && chrono_in_range(d@),
            None => chrono_add_months(date@, months as int) is None,
        },
        months == 0 ==> r == Some(date),
{
    match NaiveDate::from_num_days_from_ce_opt(date.days).unwrap().checked_add_months(Months::new(months)) {
        Some(d) => Some(Date { days: d.num_days_from_ce() }),
        None => None,
    }
}

/// `chrono::NaiveDate::signed_duration_since(..).num_days()`: the number of
/// days from `other` to `date`, that is the difference of their day numbers.
#[verifier::external_body]
fn chrono_days_since(date: Date, other: Date) -> (r: i64)
    requires
        chrono_in_range(date@),
        chrono_in_range(other@),
    ensures
        r == date@ - other@,
{
    let d = NaiveDate::from_num_days_from_ce_opt(date.days).unwrap();
    let o = NaiveDate::from_num_days_from_ce_opt(other.days).unwrap();
    d.signed_duration_since(o).num_days()
}

/// `chrono::NaiveDate`'s `Display` (through `ToString`): the date's text.
#[verifier::external_body]
pub(crate) fn chrono_to_string(date: Date) -> (r: String)
    requires
        chrono_in_range(date@),
    ensures
        r@ == chrono_date_text(date@),
{
    NaiveDate::from_num_days_from_ce_opt(date.days).unwrap().to_string()
}

/// `chrono::NaiveDate::parse_from_str` with the format `%Y-%m-%d`: the date
/// written in `text`, or the text of `chrono`'s parse error.
#[verifier::external_body]
fn chrono_parse_from_str_ymd(text: &str) -> (r: Result<Date, String>)
    ensures
        match r {
            Ok(d) => chrono_parse_ymd(text@) == Some(d@) && chrono_in_range(d@),
            Err(e) => chrono_parse_ymd(text@) is None && e@ == chrono_parse_ymd_error(text@),
        },
{
    match NaiveDate::parse_from_str(text, "%Y-%m-%d") {
        Ok(d) => Ok(Date { days: d.num_days_from_ce() }),
        Err(e) => Err(e.to_string()),
    }
}

/// `chrono::DateTime::parse_from_rfc3339` then `naive_local`: the local date
/// and time of day written in `text`, or the text of `chrono`'s parse error.
/// The seconds since midnight are below 86400 and the nanoseconds below
/// 2000000000, as `chrono`'s `NaiveTime` documents.
#[verifier::external_body]
fn chrono_parse_rfc3339_local(text: &str) -> (r: Result<DateTime, String>)
    ensures
        match r {
            Ok(dt) => {
                &&& chrono_parse_rfc3339(text@) == Some((dt.date@, dt.secs as int, dt.nanos as int))
                &&& chrono_in_range(dt.date@)
                &&& dt.secs < 86400
                &&& dt.nanos < 2000000000
            },
            Err(e) => chrono_parse_rfc3339(text@) is None && e@ == chrono_parse_rfc3339_error(text@),
        },
{
    match chrono::DateTime::parse_from_rfc3339(text) {
        Ok(value) => {
            let local = value.naive_local();
            Ok(DateTime {
                date: Date { days: local.date().num_days_from_ce() },
                secs: chrono::Timelike::num_seconds_from_midnight(&local),
                nanos: chrono::Timelike::nanosecond(&local),
            })
        },
        Err(e) => Err(e.to_string()),
    }
}

/// The day number of the UTC day in which falls the instant `timestamp`
/// seconds after January 1, 1970 0:00:00 UTC.
pub open spec fn timestamp_day(timestamp: int) -> int {
    timestamp / 86400 + 719163
}

/// The seconds since midnight (UTC) of the instant `timestamp` seconds after
/// January 1, 1970 0:00:00 UTC.
pub open spec fn timestamp_seconds(timestamp: int) -> int {
    timestamp % 86400
}

/// `chrono::DateTime::from_timestamp(timestamp, 0)`, read back as its UTC
/// date and its seconds since midnight. As `chrono`'s source shows, the day
/// is the Euclidean quotient of the timestamp by 86400 shifted by the day
/// number of January 1, 1970, the seconds are the Euclidean remainder, and
/// there is no result when the day lies outside `chrono`'s range.
#[verifier::external_body]
fn chrono_from_timestamp(timestamp: i64) -> (r: Option<(Date, u32)>)
    ensures
        match r {
            Some((date, seconds)) => {
                &&& date@ == timestamp_day(timestamp as int)
                &&& seconds == timestamp_seconds(timestamp as int)
                &&& chrono_in_range(date@)
            },
            None => !chrono_in_range(timestamp_day(timestamp as int)),
        },
{
    match chrono::DateTime::from_timestamp(timestamp, 0) {
        Some(moment) => Some(
            (Date { days: moment.date_naive().num_days_from_ce() }, moment.time().num_seconds_from_midnight()),
        ),
        None => None,
    }
}

/// `chrono::NaiveDate::default`: January 1, 1970, day 719163 of the
/// numbering from January 1 of year 1 (as `chrono` documents both).
#[verifier::external_body]
fn chrono_default_date() -> (r: Date)
    ensures
        r@ == 719163,
        chrono_in_range(r@),
        chrono_from_ymd(1970, 1, 1) == Some(r@),
        chrono_year(r@) == 1970,
        chrono_month(r@) == 1,
        chrono_day(r@) == 1,
{
    Date { days: NaiveDate::default().num_days_from_ce() }
}

impl Date {
    #[verifier::type_invariant]
    spec fn wf(self) -> bool {
        chrono_in_range(self.days as int)
    }

    /// A date's day number fits in an `i32`.
    pub proof fn lemma_view_bounds(self)
        ensures
            i32::MIN <= self@ <= i32::MAX,
    {
    }

    /// Two dates are equal exactly when their day numbers are.
    pub proof fn lemma_view_eq(self, other: Date)
        ensures
            (self == other) <==> (self@ == other@),
    {
    }

    /// The date `year`-`month`-`day`, or `None` where no such day exists
    /// (or its year is out of `chrono`'s range).
    pub fn from_ymd_opt(year: i32, month: u32, day: u32) -> (r: Option<Date>)
        ensures
            r is Some <==> valid_ymd(year as int, month as int, day as int),
            match r {
                Some(d) => {
                    &&& chrono_from_ymd(year as int, month as int, day as int) == Some(d@)
                    &&& chrono_year(d@) == year
                    &&& chrono_month(d@) == month
                    &&& chrono_day(d@) == day
                },
                None => chrono_from_ymd(year as int, month as int, day as int) is None,
            },
    {
        chrono_from_ymd_opt(year, month, day)
    }

    /// The calendar year of the date.
    pub fn year(&self) -> (r: i32)
        ensures
            r == chrono_year(self@),
            MIN_YEAR <= r <= MAX_YEAR,
    {
        proof { use_type_invariant(self); }
        chrono_year_of(*self)
    }

    /// The month of the date, from 1 to 12.
    pub fn month(&self) -> (r: u32)
        ensures
            r == chrono_month(self@),
            1 <= r <= 12,
    {
        proof { use_type_invariant(self); }
        chrono_month_of(*self)
    }

    /// The day of the month, from 1 to 31.
    pub fn day(&self) -> (r: u32)
        ensures
            r == chrono_day(self@),
            1 <= r <= 31,
    {
        proof { use_type_invariant(self); }
        chrono_day_of(*self)
    }

    /// The weekday counted from Monday: 0 for a Monday up to 6 for a Sunday.
    pub fn weekday_from_monday(&self) -> (r: u32)
        ensures
            r == chrono_weekday(self@),
            r < 7,
    {
        proof { use_type_invariant(self); }
        chrono_weekday_of(*self)
    }

    /// The date `days` days later, or `None` beyond the calendar's range.
    pub fn checked_add_days(&self, days: u64) -> (r: Option<Date>)
        ensures
            r is Some <==> chrono_in_range(self@ + days),
            r matches Some(d) ==> d@ == self@ + days,
    {
        proof { use_type_invariant(self); }
        chrono_checked_add_days(*self, days)
    }

    /// The date `days` days earlier, or `None` beyond the calendar's range.
    pub fn checked_sub_days(&self, days: u64) -> (r: Option<Date>)
        ensures
            r is Some <==> chrono_in_range(self@ - days),
            r matches Some(d) ==> d@ == self@ - days,
    {
        proof { use_type_invariant(self); }
        chrono_checked_sub_days(*self, days)
    }

    /// The same day `months` months later (the month's last day where it is
    /// shorter), or `None` beyond the calendar's range.
    pub fn checked_add_months(&self, months: u32) -> (r: Option<Date>)
        ensures
            match r {
                Some(d) => chrono_add_months(self@, months as int) == Some(d@),
                None => chrono_add_months(self@, months as int) is None,
            },
            months == 0 ==> r == Some(*self),
    {
        proof { use_type_invariant(self); }
        chrono_checked_add_months(*self, months)
    }

    /// The signed number of days from `other` to this date.
    pub fn days_since(&self, other: &Date) -> (r: i64)
        ensures
            r == self@ - other@,
    {
        proof {
            use_type_invariant(self);
            use_type_invariant(other);
        }
        chrono_days_since(*self, *other)
    }

    /// January 1, 1970, the date `chrono` takes by default.
    pub fn default_date() -> (r: Date)
        ensures
            r@ == 719163,
            chrono_year(r@) == 1970,
            chrono_month(r@) == 1,
            chrono_day(r@) == 1,
    {
        chrono_default_date()
    }

    /// Whether this date comes strictly before `other`.
    pub fn is_before(&self, other: &Date) -> (r: bool)
        ensures
            r == (self@ < other@),
            chrono_in_range(self@),
            chrono_in_range(other@),
    {
        proof {
            use_type_invariant(self);
            use_type_invariant(other);
        }
        self.days < other.days
    }

    /// Reads a date written `YYYY-MM-DD`; any other text is a referential
    /// error naming the text and `chrono`'s reason.
    pub fn from_text(value: &str) -> (r: Result<Date, Error>)
        ensures
            match r {
                Ok(d) => chrono_parse_ymd(value@) == Some(d@),
                Err(err) => {
                    &&& chrono_parse_ymd(value@) is None
                    &&& err matches Error::Referential(msg)
                    &&& msg@ == "unable to convert "@ + value@ + " into Date because "@
                        + chrono_parse_ymd_error(value@)
                },
            },
    {
        match chrono_parse_from_str_ymd(value) {
            Ok(d) => Ok(d),
            Err(reason) => {
                let head = conversion_message(value, "Date because ");
                let msg = concat(head.as_str(), reason.as_str());
                assert(msg@ =~= "unable to convert "@ + value@ + " into Date because "@ + reason@) by {
                    reveal_strlit("Date because ");
                    reveal_strlit(" into Date because ");
                    reveal_strlit(" into ");
                }
                Err(Error::new_referential(msg))
            },
        }
    }

    /// The date's text, `YYYY-MM-DD`.
    pub fn to_text(&self) -> (r: String)
        ensures
            r@ == chrono_date_text(self@),
    {
        proof { use_type_invariant(self); }
        chrono_to_string(*self)
    }

    /// The UTC date and the seconds since midnight of the instant
    /// `timestamp` seconds after January 1, 1970 0:00:00 UTC, or `None` when
    /// that date lies outside the supported range.
    pub fn from_timestamp(timestamp: i64) -> (r: Option<(Date, u32)>)
        ensures
            match r {
                Some((date, seconds)) => {
                    &&& date@ == timestamp_day(timestamp as int)
                    &&& seconds == timestamp_seconds(timestamp as int)
                    &&& chrono_in_range(date@)
                },
                None => !chrono_in_range(timestamp_day(timestamp as int)),
            },
    {
        chrono_from_timestamp(timestamp)
    }

    /// The day number of the date, counted from January 1 of year 1 (day 1).
    pub fn num_days_from_ce(&self) -> (r: i32)
        ensures
            r == self@,
            chrono_in_range(self@),
    {
        proof { use_type_invariant(self); }
        self.days
    }
}

/// A date with a time of day: the seconds since midnight and the
/// nanoseconds within the second, as `chrono`'s `NaiveDateTime` holds them.
#[derive(Clone, Copy, Debug, PartialEq, Eq, Structural)]
pub struct DateTime {
    pub date: Date,
    pub secs: u32,
    pub nanos: u32,
}

/// `left` comes strictly before `right`: by date, then by time of day.
pub open spec fn spec_datetime_before(left: DateTime, right: DateTime) -> bool {
    ||| left.date@ < right.date@
    ||| (left.date@ == right.date@ && left.secs < right.secs)
    ||| (left.date@ == right.date@ && left.secs == right.secs && left.nanos < right.nanos)
}

impl DateTime {
    /// Reads an RFC 3339 date and time, keeping its local date and time of
    /// day; any other text is a referential error naming the text and
    /// `chrono`'s reason.
    pub fn from_text(value: &str) -> (r: Result<DateTime, Error>)
        ensures
            match r {
                Ok(dt) => chrono_parse_rfc3339(value@) == Some((dt.date@, dt.secs as int, dt.nanos as int)),
                Err(err) => {
                    &&& chrono_parse_rfc3339(value@) is None
                    &&& err matches Error::Referential(msg)
                    &&& msg@ == "unable to convert "@ + value@ + " into Date because "@
                        + chrono_parse_rfc3339_error(value@)
                },
            },
    {
        match chrono_parse_rfc3339_local(value) {
            Ok(dt) => Ok(dt),
            Err(reason) => {
                let head = conversion_message(value, "Date because ");
                let msg = concat(head.as_str(), reason.as_str());
                assert(msg@ =~= "unable to convert "@ + value@ + " into Date because "@ + reason@) by {
                    reveal_strlit("Date because ");
                    reveal_strlit(" into Date because ");
                    reveal_strlit(" into ");
                }
                Err(Error::new_referential(msg))
            },
        }
    }

    /// Whether this instant comes strictly before `other`.
    pub fn is_before(&self, other: &DateTime) -> (r: bool)
        ensures
            r == spec_datetime_before(*self, *other),
    {
        if self.date.is_before(&other.date) {
            true
        } else if other.date.is_before(&self.date) {
            false
        } else if self.secs != other.secs {
            self.secs < other.secs
        } else {
            self.nanos < other.nanos
        }
    }
}

} // verus!
