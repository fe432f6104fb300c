//! Stepping through the calendar from a begin date to an end date: every
//! day, every week's Sunday, every month's last day or every year's
//! December 31, and finally the end date itself.
use crate::date::{
    chrono_add_months, chrono_day, chrono_from_ymd, chrono_in_range, chrono_month, chrono_weekday, chrono_year,
    days_in_month, lemma_date_of, lemma_next_day, valid_ymd, ymd_days, Date, MAX_YEAR,
};
use vstd::prelude::*;

verus! {

/// The stride of a date iteration.
#[derive(Debug, Clone, Copy, PartialEq, Eq, Structural)]
pub enum Step {
    Day,
    Week,
    Month,
    Year,
}

/// The last day of the month of the day numbered `first_of_month`: one
/// month later, one day back.
pub open spec fn spec_month_end(first_of_month: int) -> Option<int> {
    match chrono_add_months(first_of_month, 1) {
        Some(next_month) => if chrono_in_range(next_month - 1) {
            Some(next_month - 1)
        } else {
            None
        },
        None => None,
    }
}

/// The first date an iteration yields before reaching its end: the begin
/// date, the Sunday closing its week, the last day of its month, or
/// December 31 of its year.
pub open spec fn spec_first(begin: int, step: Step) -> Option<int> {
    match step {
        Step::Day => Some(begin),
        Step::Week => {
            let sunday = begin + 6 - chrono_weekday(begin);
            if chrono_in_range(sunday) {
                Some(sunday)
            } else {
                None
            }
        },
        Step::Month => match chrono_from_ymd(chrono_year(begin), chrono_month(begin), 1) {
            Some(first) => spec_month_end(first),
            None => None,
        },
        Step::Year => chrono_from_ymd(chrono_year(begin), 12, 31),
    }
}

/// The date after `current`: the next day, seven days later, the last day
/// of the next month, or December 31 of the next year.
pub open spec fn spec_advance(current: int, step: Step) -> Option<int> {
    match step {
        Step::Day => if chrono_in_range(current + 1) {
            Some(current + 1)
        } else {
            None
        },
        Step::Week => if chrono_in_range(current + 7) {
            Some(current + 7)
        } else {
            None
        },
        Step::Month => if chrono_in_range(current + 1) {
            spec_month_end(current + 1)
        } else {
            None
        },
        Step::Year => chrono_from_ymd(chrono_year(current) + 1, 12, 31),
    }
}

/// One step of an iteration in state `current` towards `end`: what it
/// yields and its next state. A date before the end is yielded and the
/// iteration advances; a date at or past the end yields the end and stops.
pub open spec fn spec_next(current: Option<int>, end: int, step: Step) -> (Option<int>, Option<int>) {
    match current {
        Some(v) => if v >= end {
            (Some(end), None)
        } else {
            (Some(v), spec_advance(v, step))
        },
        None => (None, None),
    }
}

/// Dates from a begin date up to an end date by steps of a day, a week, a
/// month or a year, the end date last.
pub struct DateByStepIterator {
    it: Option<Date>,
    end: Date,
    step: Step,
}

impl DateByStepIterator {
    /// The date the iteration yields next, if any (before it reaches the end).
    pub closed spec fn current(&self) -> Option<int> {
        match self.it {
            Some(d) => Some(d@),
            None => None,
        }
    }

    /// The end date of the iteration.
    pub closed spec fn end_day(&self) -> int {
        self.end@
    }

    /// The stride of the iteration.
    pub closed spec fn step_kind(&self) -> Step {
        self.step
    }

    /// An iteration from `begin` to `end` by `step`.
    pub fn new(begin: Date, end: Date, step: Step) -> (r: Self)
        ensures
            r.current() == spec_first(begin@, step),
            r.end_day() == end@,
            r.step_kind() == step,
    {
        let it = match step {
            Step::Day => Some(begin),
            Step::Week => {
                let days_from_monday = begin.weekday_from_monday() as u64;
                begin.checked_add_days(6 - days_from_monday)
            },
            Step::Month => match Date::from_ymd_opt(begin.year(), begin.month(), 1) {
                Some(first) => match first.checked_add_months(1) {
                    Some(next_month) => next_month.checked_sub_days(1),
                    None => None,
                },
                None => None,
            },
            Step::Year => Date::from_ymd_opt(begin.year(), 12, 31),
        };
        DateByStepIterator { it, end, step }
    }

    /// The next date of the iteration: the current date while it is before
    /// the end, then the end date once, then nothing.
    pub fn next(&mut self) -> (r: Option<Date>)
        ensures
            (match r {
                Some(d) => Some(d@),
                None => None,
            }, final(self).current()) == spec_next(old(self).current(), old(self).end_day(), old(self).step_kind()),
            final(self).end_day() == old(self).end_day(),
            final(self).step_kind() == old(self).step_kind(),
    {
        match self.it {
            Some(v) => {
                if !v.is_before(&self.end) {
                    self.it = None;
                    Some(self.end)
                } else {
                    self.it = match self.step {
                        Step::Day => v.checked_add_days(1),
                        Step::Week => v.checked_add_days(7),
                        Step::Year => Date::from_ymd_opt(v.year() + 1, 12, 31),
                        Step::Month => match v.checked_add_days(1) {
                            Some(next_day) => match next_day.checked_add_months(1) {
                                Some(next_month) => next_month.checked_sub_days(1),
                                None => None,
                            },
                            None => None,
                        },
                    };
                    Some(v)
                }
            },
            None => None,
        }
    }
}

/// An iteration never yields a date past its end, yields the end date only
/// as its last date, and yields nothing once it is over.
pub proof fn lemma_next_bounded(current: Option<int>, end: int, step: Step)
    ensures
        spec_next(current, end, step).0 matches Some(d) ==> d <= end,
        spec_next(current, end, step).0 == Some(end) ==> spec_next(current, end, step).1 is None,
        current is None ==> spec_next(current, end, step) == (None::<int>, None::<int>),
{
}

/// Stepping by days or weeks moves the current date forward by exactly
/// one or seven days.
pub proof fn lemma_day_week_advance(current: int)
    ensures
        spec_advance(current, Step::Day) matches Some(n) ==> n == current + 1,
        spec_advance(current, Step::Week) matches Some(n) ==> n == current + 7,
{
}

/// The first day of a month (short of the last month `chrono` holds)
/// ends, by `spec_month_end`, on the last day of that month.
proof fn lemma_month_end_of_first(year: int, month: int)
    requires
        valid_ymd(year, month, 1),
        month < 12 || year < MAX_YEAR,
    ensures
        spec_month_end(ymd_days(year, month, 1)) == Some(ymd_days(year, month, days_in_month(year, month))),
{
    reveal(chrono_from_ymd);
    reveal(chrono_add_months);
    lemma_date_of(year, month, 1);
    lemma_date_of(year, month, days_in_month(year, month));
    let first = ymd_days(year, month, 1);
    let total = year * 12 + month - 1 + 1;
    if month < 12 {
        assert(total / 12 == year && total % 12 + 1 == month + 1);
        lemma_next_day(year, month, days_in_month(year, month));
        lemma_date_of(year, month + 1, 1);
    } else {
        assert(total / 12 == year + 1 && total % 12 + 1 == 1);
        lemma_next_day(year, 12, 31);
        lemma_date_of(year + 1, 1, 1);
    }
}

/// An iteration by months from a date first yields the last day of that
/// date's month; the day after it is the first day of the next month
/// (January 1 of the next year after a December).
pub proof fn lemma_month_first_is_month_end(year: int, month: int, day: int)
    requires
        valid_ymd(year, month, day),
        month < 12 || year < MAX_YEAR,
    ensures
        spec_first(ymd_days(year, month, day), Step::Month) matches Some(last) && {
            &&& chrono_year(last) == year
            &&& chrono_month(last) == month
            &&& chrono_day(last) == days_in_month(year, month)
            &&& last + 1 == if month < 12 {
                ymd_days(year, month + 1, 1)
            } else {
                ymd_days(year + 1, 1, 1)
            }
        },
{
    reveal(chrono_from_ymd);
    lemma_date_of(year, month, day);
    lemma_month_end_of_first(year, month);
    lemma_date_of(year, month, days_in_month(year, month));
    if month < 12 {
        lemma_next_day(year, month, days_in_month(year, month));
    } else {
        lemma_next_day(year, 12, 31);
    }
}

/// Stepping by months from the last day of a month lands on the last day
/// of the next month.
pub proof fn lemma_month_advance(year: int, month: int)
    requires
        valid_ymd(year, month, 1),
        month < 11 || year < MAX_YEAR,
    ensures
        spec_advance(ymd_days(year, month, days_in_month(year, month)), Step::Month) matches Some(next) && {
            let (next_year, next_month) = if month < 12 {
                (year, month + 1)
            } else {
                (year + 1, 1)
            };
            &&& chrono_year(next) == next_year
            &&& chrono_month(next) == next_month
            &&& chrono_day(next) == days_in_month(next_year, next_month)
        },
{
    reveal(chrono_from_ymd);
    lemma_date_of(year, month, days_in_month(year, month));
    if month < 12 {
        lemma_next_day(year, month, days_in_month(year, month));
        lemma_month_end_of_first(year, month + 1);
        lemma_date_of(year, month + 1, days_in_month(year, month + 1));
    } else {
        lemma_next_day(year, 12, 31);
        lemma_month_end_of_first(year + 1, 1);
        lemma_date_of(year + 1, 1, 31);
    }
}

/// An iteration by years from a date first yields December 31 of that
/// date's year, and stepping by years from any date lands on December 31
/// of the next year (nothing past `chrono`'s last year).
pub proof fn lemma_year_steps(year: int, month: int, day: int)
    requires
        valid_ymd(year, month, day),
    ensures
        spec_first(ymd_days(year, month, day), Step::Year) matches Some(first) && chrono_year(first) == year
            && chrono_month(first) == 12 && chrono_day(first) == 31,
        year < MAX_YEAR ==> (spec_advance(ymd_days(year, month, day), Step::Year) matches Some(next) && chrono_year(
            next,
        ) == year + 1 && chrono_month(next) == 12 && chrono_day(next) == 31),
        year == MAX_YEAR ==> spec_advance(ymd_days(year, month, day), Step::Year) is None,
{
    reveal(chrono_from_ymd);
    lemma_date_of(year, month, day);
    lemma_date_of(year, 12, 31);
    if year < MAX_YEAR {
        lemma_date_of(year + 1, 12, 31);
    }
}

/// An iteration by weeks first yields the Sunday that closes the begin
/// date's week: a Sunday, no earlier than the begin date and less than a
/// week after it.
pub proof fn lemma_week_first_is_sunday(begin: int)
    ensures
        spec_first(begin, Step::Week) matches Some(sunday) ==> begin <= sunday < begin + 7 && chrono_weekday(sunday)
            == 6,
{
}

} // verus!
