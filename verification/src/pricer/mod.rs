//! Pricing helpers: the periods of historical data to fetch and their
//! fetching, calendar periods, date stepping and heat-map periods.

pub mod distribution;
pub mod heat_map;
pub mod iterator;
pub mod selection;
pub mod tools;

use crate::date::{chrono_in_range, Date, DateTime};
use crate::error::Error;
use crate::historical::{
    keeps_cached, spec_fetch_outcome, spec_latest_index, spec_not_in_cache, CacheView, HistoricalData, Persistance,
    Provider, Requester,
};
use crate::marketdata::Instrument;
use vstd::prelude::*;

verus! {

/// The historical data to fetch for a position, given its first trade and
/// its closing trade (if it is closed): from the first trade's date to the
/// closing date, or to `end` while the position is open; nothing for a
/// position without trades or first traded after `end`.
pub open spec fn spec_fetch_period(first_trade: Option<DateTime>, close: Option<DateTime>, end: Date) -> Option<(Date, Date)> {
    match first_trade {
        Some(first) => if first.date@ <= end@ {
            Some(
                (
                    first.date,
                    match close {
                        Some(c) => c.date,
                        None => end,
                    },
                ),
            )
        } else {
            None
        },
        None => None,
    }
}

/// The periods to fetch for the first `k` positions, each with its
/// position's index, in the positions' order.
pub open spec fn spec_fetch_periods(
    positions: Seq<(Option<DateTime>, Option<DateTime>)>,
    end: Date,
    k: int,
) -> Seq<(usize, Date, Date)>
    decreases k,
{
    if k <= 0 {
        seq![]
    } else {
        let previous = spec_fetch_periods(positions, end, k - 1);
        match spec_fetch_period(positions[k - 1].0, positions[k - 1].1, end) {
            Some((b, e)) => previous.push(((k - 1) as usize, b, e)),
            None => previous,
        }
    }
}

/// For each position, given as its first trade and its closing trade (if
/// it is closed), the period of historical data to fetch before pricing
/// the portfolio up to `end`, with the position's index.
pub fn fetch_periods(positions: &Vec<(Option<DateTime>, Option<DateTime>)>, end: Date) -> (r: Vec<(usize, Date, Date)>)
    ensures
        r@ == spec_fetch_periods(positions@, end, positions@.len() as int),
{
    let mut periods: Vec<(usize, Date, Date)> = Vec::new();
    let mut i: usize = 0;
    while i < positions.len()
        invariant
            i <= positions@.len(),
            periods@ == spec_fetch_periods(positions@, end, i as int),
        decreases positions@.len() - i,
    {
        let (first_trade, close) = positions[i];
        match first_trade {
            Some(first) => {
                if !end.is_before(&first.date) {
                    let period_end = match close {
                        Some(c) => c.date,
                        None => end,
                    };
                    periods.push((i, first.date, period_end));
                }
            },
            None => {},
        }
        i = i + 1;
    }
    periods
}

/// The first trade and the closing trade of each position.
pub open spec fn position_dates(
    positions: Seq<(Instrument, Option<DateTime>, Option<DateTime>)>,
) -> Seq<(Option<DateTime>, Option<DateTime>)> {
    positions.map_values(|p: (Instrument, Option<DateTime>, Option<DateTime>)| (p.1, p.2))
}

/// The periods (as day numbers) among `periods`, each given with the index
/// of its position, that are fetched for the instrument named `name`, in
/// order.
pub open spec fn periods_of(
    positions: Seq<(Instrument, Option<DateTime>, Option<DateTime>)>,
    periods: Seq<(usize, Date, Date)>,
    name: Seq<char>,
) -> Seq<(int, int)>
    decreases periods.len(),
{
    if periods.len() == 0 {
        seq![]
    } else {
        let previous = periods_of(positions, periods.drop_last(), name);
        let last = periods.last();
        if positions[last.0 as int].0.name@ == name {
            previous.push((last.1@, last.2@))
        } else {
            previous
        }
    }
}

/// What fetching the periods `periods` one after the other, each as
/// `HistoricalData::fetch` does, can leave cached for an instrument that
/// held `before`.
pub open spec fn spec_fetched_through<T>(
    before: Option<CacheView<T>>,
    periods: Seq<(int, int)>,
    after: Option<CacheView<T>>,
) -> bool
    decreases periods.len(),
{
    if periods.len() == 0 {
        after == before
    } else {
        exists|mid: Option<CacheView<T>>|
            spec_fetched_through(before, periods.drop_last(), mid) && #[trigger] spec_fetch_outcome(
                mid,
                periods.last().0,
                periods.last().1,
                after,
            )
    }
}

/// `after` is what `before` becomes by fetching, in order, the first `n`
/// periods that the positions need before pricing up to `end`
/// (`spec_fetch_periods`), each for its position's instrument: the caches
/// are what these fetches can leave, and the log of fetches grows by
/// exactly these `n` fetches, all but the last of them successful.
pub open spec fn fetched_up_to<'a, T, R: Requester<T>, P: Persistance<T>>(
    before: HistoricalData<'a, T, R, P>,
    after: HistoricalData<'a, T, R, P>,
    positions: Seq<(Instrument, Option<DateTime>, Option<DateTime>)>,
    end: Date,
    n: int,
) -> bool {
    let periods = spec_fetch_periods(position_dates(positions), end, positions.len() as int);
    &&& 0 <= n <= periods.len()
    &&& forall|k: Seq<char>|
        #[trigger] spec_fetched_through(before.cached(k), periods_of(positions, periods.take(n), k), after.cached(k))
    &&& after.fetches().len() == before.fetches().len() + n
    &&& after.fetches().take(before.fetches().len() as int) == before.fetches()
    &&& forall|i: int|
        before.fetches().len() <= i < after.fetches().len() ==> {
            let entry = #[trigger] after.fetches()[i];
            let period = periods[i - before.fetches().len()];
            &&& entry.0 == positions[period.0 as int].0.name@
            &&& entry.1 == period.1@
            &&& entry.2 == period.2@
            &&& (i < after.fetches().len() - 1 ==> entry.3 is Ok)
        }
}

/// The period to fetch for `position` (an instrument with its first trade
/// and its closing trade) is already held by the cache.
pub open spec fn period_cached<'a, T, R: Requester<T>, P: Persistance<T>>(
    historical: HistoricalData<'a, T, R, P>,
    position: (Instrument, Option<DateTime>, Option<DateTime>),
    end: Date,
) -> bool {
    spec_fetch_period(position.1, position.2, end) matches Some((b, e)) ==> historical.cached(position.0.name@) matches Some(
        c,
    ) && spec_not_in_cache(c, b@, e@) is None
}

proof fn lemma_fetched_through_step<T>(
    before: Option<CacheView<T>>,
    periods: Seq<(int, int)>,
    mid: Option<CacheView<T>>,
    begin: int,
    end: int,
    after: Option<CacheView<T>>,
)
    requires
        spec_fetched_through(before, periods, mid),
        spec_fetch_outcome(mid, begin, end, after),
    ensures
        spec_fetched_through(before, periods.push((begin, end)), after),
{
    let extended = periods.push((begin, end));
    assert(extended.drop_last() =~= periods);
    assert(extended.last() == (begin, end));
    assert(spec_fetch_outcome(mid, extended.last().0, extended.last().1, after));
}

proof fn lemma_fetch_periods_entries(positions: Seq<(Option<DateTime>, Option<DateTime>)>, end: Date, k: int)
    requires
        0 <= k <= positions.len(),
        positions.len() <= usize::MAX,
    ensures
        forall|j: int|
            0 <= j < spec_fetch_periods(positions, end, k).len() ==> {
                let p = #[trigger] spec_fetch_periods(positions, end, k)[j];
                &&& p.0 < k
                &&& spec_fetch_period(positions[p.0 as int].0, positions[p.0 as int].1, end) == Some((p.1, p.2))
            },
    decreases k,
{
    if k > 0 {
        lemma_fetch_periods_entries(positions, end, k - 1);
        let previous = spec_fetch_periods(positions, end, k - 1);
        assert forall|j: int| 0 <= j < previous.len() implies spec_fetch_periods(positions, end, k)[j] == previous[j] by {}
    }
}

proof fn lemma_periods_of_step(
    positions: Seq<(Instrument, Option<DateTime>, Option<DateTime>)>,
    periods: Seq<(usize, Date, Date)>,
    j: int,
    name: Seq<char>,
)
    requires
        0 <= j < periods.len(),
    ensures
        periods_of(positions, periods.take(j + 1), name) == if positions[periods[j].0 as int].0.name@ == name {
            periods_of(positions, periods.take(j), name).push((periods[j].1@, periods[j].2@))
        } else {
            periods_of(positions, periods.take(j), name)
        },
{
    assert(periods.take(j + 1).drop_last() =~= periods.take(j));
}

/// Makes sure the historical quotes each position needs are cached, the
/// positions given as their instrument, their first trade and their
/// closing trade (if closed): the periods of `fetch_periods` (for each
/// position first traded no later than `end`, from the day of its first
/// trade to the day it closed, or to `end` while it is open) are fetched
/// one after the other for their positions' instruments, in the positions'
/// order, stopping at the first error, which is returned. The caches of
/// the instruments of no position are left as they are, and what was
/// cached stays cached; when every period is already cached, nothing
/// changes and the result is `Ok`.
pub fn fetch_positions<'a, T, R: Requester<T>, P: Persistance<T>>(
    historical: &mut HistoricalData<'a, T, R, P>,
    positions: &Vec<(Instrument, Option<DateTime>, Option<DateTime>)>,
    end: Date,
) -> (r: Result<(), Error>)
    ensures
        exists|n: int|
            #[trigger] fetched_up_to(*old(historical), *final(historical), positions@, end, n) && (r is Ok ==> n
                == spec_fetch_periods(position_dates(positions@), end, positions@.len() as int).len() && forall|i: int|
                old(historical).fetches().len() <= i < final(historical).fetches().len()
                    ==> (#[trigger] final(historical).fetches()[i]).3 is Ok) && (r is Err ==> n > 0
                && final(historical).fetches().last().3 == r),
        forall|k: Seq<char>|
            (forall|i: int| 0 <= i < positions@.len() ==> positions@[i].0.name@ != k)
                ==> #[trigger] final(historical).cached(k) == old(historical).cached(k),
        forall|k: Seq<char>| keeps_cached(old(historical).cached(k), #[trigger] final(historical).cached(k)),
        (forall|i: int| 0 <= i < positions@.len() ==> period_cached(*old(historical), #[trigger] positions@[i], end))
            ==> r is Ok && forall|k: Seq<char>| #[trigger] final(historical).cached(k) == old(historical).cached(k),
{
    let ghost initial = *historical;
    let mut dates: Vec<(Option<DateTime>, Option<DateTime>)> = Vec::new();
    let mut i: usize = 0;
    while i < positions.len()
        invariant
            i <= positions@.len(),
            dates@ == position_dates(positions@).take(i as int),
        decreases positions@.len() - i,
    {
        dates.push((positions[i].1, positions[i].2));
        i = i + 1;
        assert(dates@ =~= position_dates(positions@).take(i as int));
    }
    assert(dates@ =~= position_dates(positions@));
    let periods = fetch_periods(&dates, end);
    let ghost all = periods@;
    proof {
        lemma_fetch_periods_entries(dates@, end, dates@.len() as int);
        assert(all.take(0) =~= Seq::<(usize, Date, Date)>::empty());
        assert forall|k: Seq<char>| #[trigger] spec_fetched_through(initial.cached(k), periods_of(positions@, all.take(0), k), historical.cached(k)) by {}
        assert(historical.fetches().take(initial.fetches().len() as int) =~= initial.fetches());
    }
    let mut j: usize = 0;
    while j < periods.len()
        invariant
            j <= periods@.len(),
            periods@ == all,
            all == spec_fetch_periods(position_dates(positions@), end, positions@.len() as int),
            dates@ == position_dates(positions@),
            forall|q: int|
                0 <= q < all.len() ==> {
                    let p = #[trigger] all[q];
                    &&& p.0 < positions@.len()
                    &&& spec_fetch_period(dates@[p.0 as int].0, dates@[p.0 as int].1, end) == Some((p.1, p.2))
                },
            initial == *old(historical),
            forall|k: Seq<char>|
                #[trigger] spec_fetched_through(initial.cached(k), periods_of(positions@, all.take(j as int), k), historical.cached(k)),
            forall|k: Seq<char>|
                (forall|q: int| 0 <= q < positions@.len() ==> positions@[q].0.name@ != k) ==> #[trigger] historical.cached(k)
                    == initial.cached(k),
            forall|k: Seq<char>| keeps_cached(initial.cached(k), #[trigger] historical.cached(k)),
            (forall|q: int| 0 <= q < positions@.len() ==> period_cached(initial, #[trigger] positions@[q], end))
                ==> forall|k: Seq<char>| #[trigger] historical.cached(k) == initial.cached(k),
            fetched_up_to(initial, *historical, positions@, end, j as int),
            forall|i: int|
                initial.fetches().len() <= i < historical.fetches().len() ==> (#[trigger] historical.fetches()[i]).3 is Ok,
        decreases periods@.len() - j,
    {
        let (index, period_begin, period_end) = periods[j];
        let ghost previous = *historical;
        proof {
            assert(all[j as int].0 < positions@.len());
            if forall|q: int| 0 <= q < positions@.len() ==> period_cached(initial, #[trigger] positions@[q], end) {
                assert(period_cached(initial, positions@[index as int], end));
            }
        }
        let fetched = historical.fetch(&positions[index].0, period_begin, period_end);
        proof {
            let name = positions@[index as int].0.name@;
            assert forall|k: Seq<char>| #[trigger] spec_fetched_through(
                initial.cached(k),
                periods_of(positions@, all.take(j + 1), k),
                historical.cached(k),
            ) by {
                lemma_periods_of_step(positions@, all, j as int, k);
                assert(all[j as int] == (index, period_begin, period_end));
                assert(spec_fetched_through(initial.cached(k), periods_of(positions@, all.take(j as int), k), previous.cached(k)));
                if k == name {
                    lemma_fetched_through_step(
                        initial.cached(k),
                        periods_of(positions@, all.take(j as int), k),
                        previous.cached(k),
                        period_begin@,
                        period_end@,
                        historical.cached(k),
                    );
                }
            }
            assert forall|k: Seq<char>| keeps_cached(initial.cached(k), #[trigger] historical.cached(k)) by {
                assert(keeps_cached(initial.cached(k), previous.cached(k)));
            }
            let start = initial.fetches().len();
            assert(historical.fetches().take(start as int) =~= initial.fetches()) by {
                assert(previous.fetches().take(start as int) == initial.fetches());
            }
            assert forall|i: int| start <= i < historical.fetches().len() implies {
                let entry = #[trigger] historical.fetches()[i];
                let period = all[i - start];
                &&& entry.0 == positions@[period.0 as int].0.name@
                &&& entry.1 == period.1@
                &&& entry.2 == period.2@
                &&& (i < historical.fetches().len() - 1 ==> entry.3 is Ok)
            } by {
                if i < historical.fetches().len() - 1 {
                    assert(historical.fetches()[i] == previous.fetches()[i]);
                }
            }
            assert(fetched_up_to(initial, *historical, positions@, end, j + 1));
        }
        if fetched.is_err() {
            return fetched;
        }
        j = j + 1;
    }
    proof {
        assert(fetched_up_to(initial, *historical, positions@, end, j as int));
    }
    Ok(())
}

/// A spot is known on day `day` in the cache `cache`: it holds a quote
/// dated no later than that day.
pub open spec fn has_spot<T>(cache: Option<CacheView<T>>, day: int) -> bool {
    cache matches Some(c) && spec_latest_index(c.2, day) is Some
}

/// The days on which a position first traded on `first_trade` is priced:
/// each day from its first trade (or from `begin` when that is later) to
/// `end`, in order, each with whether a spot is known for it in the cache
/// of `instrument`.
pub fn spot_days<'a, T, R: Requester<T>, P: Persistance<T>>(
    historical: &HistoricalData<'a, T, R, P>,
    instrument: &Instrument,
    first_trade: Date,
    begin: Date,
    end: Date,
) -> (r: Vec<(Date, bool)>)
    ensures
        ({
            let start = if first_trade@ < begin@ {
                begin@
            } else {
                first_trade@
            };
            &&& r@.len() == if end@ < start {
                0
            } else {
                end@ - start + 1
            }
            &&& forall|i: int|
                0 <= i < r@.len() ==> (#[trigger] r@[i]).0@ == start + i && r@[i].1 == has_spot(
                    historical.cached(instrument.name@),
                    start + i,
                )
        }),
{
    let mut date = if first_trade.is_before(&begin) {
        begin
    } else {
        first_trade
    };
    let ghost start = date@;
    let mut result: Vec<(Date, bool)> = Vec::new();
    while !end.is_before(&date)
        invariant
            start == (if first_trade@ < begin@ {
                begin@
            } else {
                first_trade@
            }),
            start <= date@,
            result@.len() == date@ - start,
            result@.len() > 0 ==> date@ <= end@,
            forall|i: int|
                0 <= i < result@.len() ==> (#[trigger] result@[i]).0@ == start + i && result@[i].1 == has_spot(
                    historical.cached(instrument.name@),
                    start + i,
                ),
        decreases end@ - date@,
    {
        let known = historical.latest(instrument, date).is_some();
        result.push((date, known));
        if !date.is_before(&end) {
            return result;
        }
        date = date.checked_add_days(1).unwrap();
    }
    result
}

/// The pricings of the position at `position` (whose pricings are dated
/// `dates`) among its first `n` ones that are dated `day`, as (position,
/// pricing) coordinates, in order.
pub open spec fn spec_dated(dates: Seq<Date>, day: int, position: int, n: int) -> Seq<(usize, usize)>
    decreases n,
{
    if n <= 0 {
        seq![]
    } else {
        let previous = spec_dated(dates, day, position, n - 1);
        if dates[n - 1]@ == day {
            previous.push((position as usize, (n - 1) as usize))
        } else {
            previous
        }
    }
}

/// The pricings dated `day` of the first `p` positions, position after
/// position, as (position, pricing) coordinates.
pub open spec fn spec_priced_on(dates: Seq<Vec<Date>>, day: int, p: int) -> Seq<(usize, usize)>
    decreases p,
{
    if p <= 0 {
        seq![]
    } else {
        spec_priced_on(dates, day, p - 1) + spec_dated(dates[p - 1]@, day, p - 1, dates[p - 1]@.len() as int)
    }
}

/// The first `n` days from `begin` on which some position is priced, each
/// with the coordinates of its pricings.
pub open spec fn spec_pricing_days(dates: Seq<Vec<Date>>, begin: int, n: int) -> Seq<(int, Seq<(usize, usize)>)>
    decreases n,
{
    if n <= 0 {
        seq![]
    } else {
        let previous = spec_pricing_days(dates, begin, n - 1);
        let day = begin + n - 1;
        let priced = spec_priced_on(dates, day, dates.len() as int);
        if priced.len() > 0 {
            previous.push((day, priced))
        } else {
            previous
        }
    }
}

/// Days with their pricings, each day taken by its day number.
pub open spec fn pricing_day_numbers(days: Seq<(Date, Vec<(usize, usize)>)>) -> Seq<(int, Seq<(usize, usize)>)> {
    days.map_values(|d: (Date, Vec<(usize, usize)>)| (d.0@, d.1@))
}

/// The days from `begin` to `end` on which a portfolio is priced, in
/// order, each with the pricings of its positions dated that day: for each
/// position, given as the dates of its successive pricings, the
/// (position, pricing) coordinates of those dated that day, position after
/// position. Days without any pricing are left out.
pub fn pricing_days(dates: &Vec<Vec<Date>>, begin: Date, end: Date) -> (r: Vec<(Date, Vec<(usize, usize)>)>)
    ensures
        pricing_day_numbers(r@) == spec_pricing_days(dates@, begin@, end@ - begin@ + 1),
{
    let mut result: Vec<(Date, Vec<(usize, usize)>)> = Vec::new();
    if end.is_before(&begin) {
        return result;
    }
    let first_day = begin.num_days_from_ce();
    let last_day = end.num_days_from_ce();
    let count = (last_day - first_day) as usize + 1;
    let mut buckets: Vec<Vec<(usize, usize)>> = Vec::new();
    while buckets.len() < count
        invariant
            buckets@.len() <= count,
            forall|o: int| 0 <= o < buckets@.len() ==> #[trigger] buckets@[o]@.len() == 0,
        decreases count - buckets@.len(),
    {
        buckets.push(Vec::new());
    }
    let mut p: usize = 0;
    while p < dates.len()
        invariant
            p <= dates@.len(),
            buckets@.len() == count,
            count == end@ - begin@ + 1,
            forall|o: int| 0 <= o < count ==> #[trigger] buckets@[o]@ == spec_priced_on(dates@, begin@ + o, p as int),
        decreases dates@.len() - p,
    {
        let position_dates = &dates[p];
        let mut k: usize = 0;
        while k < position_dates.len()
            invariant
                p < dates@.len(),
                *position_dates == dates@[p as int],
                k <= position_dates@.len(),
                buckets@.len() == count,
                count == end@ - begin@ + 1,
                forall|o: int| 0 <= o < count ==> #[trigger] buckets@[o]@ == spec_priced_on(dates@, begin@ + o, p as int)
                    + spec_dated(position_dates@, begin@ + o, p as int, k as int),
            decreases position_dates@.len() - k,
        {
            let day = position_dates[k];
            if !day.is_before(&begin) && !end.is_before(&day) {
                let offset = day.days_since(&begin) as usize;
                buckets[offset].push((p, k));
            }
            k = k + 1;
        }
        proof {
            assert forall|o: int| 0 <= o < count implies #[trigger] buckets@[o]@ == spec_priced_on(dates@, begin@ + o, p as int + 1) by {
                assert(spec_priced_on(dates@, begin@ + o, p as int + 1) == spec_priced_on(dates@, begin@ + o, p as int) + spec_dated(
                    dates@[p as int]@,
                    begin@ + o,
                    p as int,
                    dates@[p as int]@.len() as int,
                ));
            }
        }
        p = p + 1;
    }
    let mut o: usize = 0;
    while o < count
        invariant
            o <= count,
            buckets@.len() == count,
            count == end@ - begin@ + 1,
            chrono_in_range(begin@),
            chrono_in_range(end@),
            forall|j: int| o <= j < count ==> #[trigger] buckets@[j]@ == spec_priced_on(dates@, begin@ + j, dates@.len() as int),
            pricing_day_numbers(result@) == spec_pricing_days(dates@, begin@, o as int),
        decreases count - o,
    {
        if buckets[o].len() > 0 {
            let day = begin.checked_add_days(o as u64).unwrap();
            let mut bucket: Vec<(usize, usize)> = Vec::new();
            std::mem::swap(&mut bucket, &mut buckets[o]);
            result.push((day, bucket));
        }
        o = o + 1;
    }
    result
}

proof fn lemma_dated_coordinates(dates: Seq<Date>, day: int, position: int, n: int)
    requires
        0 <= position <= usize::MAX,
        0 <= n <= dates.len(),
        dates.len() <= usize::MAX,
    ensures
        forall|c: int|
            0 <= c < spec_dated(dates, day, position, n).len() ==> {
                let at = #[trigger] spec_dated(dates, day, position, n)[c];
                &&& at.0 == position
                &&& at.1 < n
                &&& dates[at.1 as int]@ == day
            },
    decreases n,
{
    if n > 0 {
        lemma_dated_coordinates(dates, day, position, n - 1);
        let previous = spec_dated(dates, day, position, n - 1);
        assert forall|c: int| 0 <= c < previous.len() implies spec_dated(dates, day, position, n)[c] == previous[c] by {}
    }
}

proof fn lemma_priced_on_coordinates(dates: Seq<Vec<Date>>, day: int, p: int)
    requires
        0 <= p <= dates.len(),
        dates.len() <= usize::MAX,
        forall|q: int| 0 <= q < dates.len() ==> (#[trigger] dates[q])@.len() <= usize::MAX,
    ensures
        forall|c: int|
            0 <= c < spec_priced_on(dates, day, p).len() ==> {
                let at = #[trigger] spec_priced_on(dates, day, p)[c];
                &&& at.0 < p
                &&& at.1 < dates[at.0 as int]@.len()
                &&& dates[at.0 as int]@[at.1 as int]@ == day
            },
    decreases p,
{
    if p > 0 {
        lemma_priced_on_coordinates(dates, day, p - 1);
        lemma_dated_coordinates(dates[p - 1]@, day, p - 1, dates[p - 1]@.len() as int);
        let previous = spec_priced_on(dates, day, p - 1);
        let last = spec_dated(dates[p - 1]@, day, p - 1, dates[p - 1]@.len() as int);
        assert(spec_priced_on(dates, day, p) == previous + last);
    }
}

proof fn lemma_dated_complete(dates: Seq<Date>, day: int, position: int, n: int, k: int)
    requires
        0 <= position <= usize::MAX,
        0 <= k < n <= dates.len(),
        dates.len() <= usize::MAX,
        dates[k]@ == day,
    ensures
        spec_dated(dates, day, position, n).contains((position as usize, k as usize)),
    decreases n,
{
    let previous = spec_dated(dates, day, position, n - 1);
    if k < n - 1 {
        lemma_dated_complete(dates, day, position, n - 1, k);
        let i = choose|i: int| 0 <= i < previous.len() && previous[i] == (position as usize, k as usize);
        assert(spec_dated(dates, day, position, n)[i] == previous[i]);
    } else {
        assert(spec_dated(dates, day, position, n) == previous.push((position as usize, k as usize)));
        assert(spec_dated(dates, day, position, n)[previous.len() as int] == (position as usize, k as usize));
    }
}

proof fn lemma_priced_on_complete(dates: Seq<Vec<Date>>, day: int, p: int, position: int, k: int)
    requires
        0 <= position < p <= dates.len(),
        dates.len() <= usize::MAX,
        forall|q: int| 0 <= q < dates.len() ==> (#[trigger] dates[q])@.len() <= usize::MAX,
        0 <= k < dates[position]@.len(),
        dates[position]@[k]@ == day,
    ensures
        spec_priced_on(dates, day, p).contains((position as usize, k as usize)),
    decreases p,
{
    let previous = spec_priced_on(dates, day, p - 1);
    let last = spec_dated(dates[p - 1]@, day, p - 1, dates[p - 1]@.len() as int);
    assert(spec_priced_on(dates, day, p) == previous + last);
    if position < p - 1 {
        lemma_priced_on_complete(dates, day, p - 1, position, k);
        let i = choose|i: int| 0 <= i < previous.len() && previous[i] == (position as usize, k as usize);
        assert((previous + last)[i] == previous[i]);
    } else {
        lemma_dated_complete(dates[position]@, day, position, dates[position]@.len() as int, k);
        let i = choose|i: int| 0 <= i < last.len() && last[i] == (position as usize, k as usize);
        assert((previous + last)[previous.len() + i] == last[i]);
    }
}

proof fn lemma_pricing_days_has_day(dates: Seq<Vec<Date>>, begin: int, n: int, day: int)
    requires
        begin <= day < begin + n,
        spec_priced_on(dates, day, dates.len() as int).len() > 0,
    ensures
        exists|j: int|
            0 <= j < spec_pricing_days(dates, begin, n).len() && #[trigger] spec_pricing_days(dates, begin, n)[j] == (
                day,
                spec_priced_on(dates, day, dates.len() as int),
            ),
    decreases n,
{
    let previous = spec_pricing_days(dates, begin, n - 1);
    if day < begin + n - 1 {
        lemma_pricing_days_has_day(dates, begin, n - 1, day);
        let j = choose|j: int|
            0 <= j < previous.len() && #[trigger] previous[j] == (day, spec_priced_on(dates, day, dates.len() as int));
        assert(spec_pricing_days(dates, begin, n)[j] == previous[j]);
    } else {
        assert(spec_pricing_days(dates, begin, n)[previous.len() as int] == (
            day,
            spec_priced_on(dates, day, dates.len() as int),
        ));
    }
}

/// Every pricing dated within the period from `begin` (included) over `n`
/// days shows under its own day among the pricing days.
pub proof fn lemma_pricing_days_complete(dates: Seq<Vec<Date>>, begin: int, n: int)
    requires
        dates.len() <= usize::MAX,
        forall|q: int| 0 <= q < dates.len() ==> (#[trigger] dates[q])@.len() <= usize::MAX,
    ensures
        forall|p: int, k: int|
            0 <= p < dates.len() && 0 <= k < dates[p]@.len() && begin <= (#[trigger] dates[p]@[k])@ < begin + n
                ==> exists|j: int|
                0 <= j < spec_pricing_days(dates, begin, n).len() && (#[trigger] spec_pricing_days(dates, begin, n)[j]).0
                    == dates[p]@[k]@ && spec_pricing_days(dates, begin, n)[j].1.contains((p as usize, k as usize)),
{
    assert forall|p: int, k: int|
        0 <= p < dates.len() && 0 <= k < dates[p]@.len() && begin <= (#[trigger] dates[p]@[k])@ < begin + n implies exists|j: int|
        0 <= j < spec_pricing_days(dates, begin, n).len() && (#[trigger] spec_pricing_days(dates, begin, n)[j]).0
            == dates[p]@[k]@ && spec_pricing_days(dates, begin, n)[j].1.contains((p as usize, k as usize)) by {
        let day = dates[p]@[k]@;
        lemma_priced_on_complete(dates, day, dates.len() as int, p, k);
        lemma_pricing_days_has_day(dates, begin, n, day);
        let j = choose|j: int|
            0 <= j < spec_pricing_days(dates, begin, n).len() && #[trigger] spec_pricing_days(dates, begin, n)[j] == (
                day,
                spec_priced_on(dates, day, dates.len() as int),
            );
        assert(spec_pricing_days(dates, begin, n)[j].0 == day);
    }
}

/// The pricing days come in increasing order within the period, each with
/// at least one pricing, and each coordinate listed for a day is that of a
/// pricing dated that day.
pub proof fn lemma_pricing_days_dated(dates: Seq<Vec<Date>>, begin: int, n: int)
    requires
        0 <= n,
        dates.len() <= usize::MAX,
        forall|q: int| 0 <= q < dates.len() ==> (#[trigger] dates[q])@.len() <= usize::MAX,
    ensures
        forall|j: int|
            0 <= j < spec_pricing_days(dates, begin, n).len() ==> {
                let d = #[trigger] spec_pricing_days(dates, begin, n)[j];
                &&& begin <= d.0 < begin + n
                &&& d.1.len() > 0
            },
        forall|j: int, k: int|
            0 <= j < k < spec_pricing_days(dates, begin, n).len() ==> #[trigger] spec_pricing_days(dates, begin, n)[j].0
                < #[trigger] spec_pricing_days(dates, begin, n)[k].0,
        forall|j: int, c: int|
            0 <= j < spec_pricing_days(dates, begin, n).len() && 0 <= c < spec_pricing_days(dates, begin, n)[j].1.len()
                ==> {
                let d = spec_pricing_days(dates, begin, n)[j];
                let at = #[trigger] spec_pricing_days(dates, begin, n)[j].1[c];
                &&& at.0 < dates.len()
                &&& at.1 < dates[at.0 as int]@.len()
                &&& dates[at.0 as int]@[at.1 as int]@ == d.0
            },
    decreases n,
{
    if n > 0 {
        lemma_pricing_days_dated(dates, begin, n - 1);
        let day = begin + n - 1;
        lemma_priced_on_coordinates(dates, day, dates.len() as int);
        let previous = spec_pricing_days(dates, begin, n - 1);
        assert forall|j: int| 0 <= j < previous.len() implies spec_pricing_days(dates, begin, n)[j] == previous[j] by {}
    }
}

} // verus!
