//! Heat maps: the performance of a series of dated indicators cut into
//! months or years. The library decides which indicators close a period
//! and against which earlier indicator each one is measured.
use crate::date::{chrono_month, chrono_year, Date};
use vstd::prelude::*;

verus! {

/// The length of the periods of a heat map.
#[derive(Debug, Clone, Copy, PartialEq, Eq, Structural)]
pub enum HeatMapPeriod {
    Monthly,
    Yearly,
}

/// Two day numbers fall in the same period: the same month of the same
/// year, or the same year.
pub open spec fn spec_same_period(period: HeatMapPeriod, left: int, right: int) -> bool {
    match period {
        HeatMapPeriod::Monthly => chrono_month(left) == chrono_month(right) && chrono_year(left)
            == chrono_year(right),
        HeatMapPeriod::Yearly => chrono_year(left) == chrono_year(right),
    }
}

impl HeatMapPeriod {
    /// Whether both dates fall in the same period.
    pub fn same(&self, left: Date, right: Date) -> (r: bool)
        ensures
            r == spec_same_period(*self, left@, right@),
    {
        match self {
            HeatMapPeriod::Monthly => left.month() == right.month() && left.year() == right.year(),
            HeatMapPeriod::Yearly => left.year() == right.year(),
        }
    }
}

/// One point of a heat map: the indicator at `index` closes a period.
#[derive(Debug, Clone, Copy, PartialEq, Eq, Structural)]
pub enum HeatMapEntry {
    /// Its performance is measured relative to the indicator at `reference`
    /// (from zero where there is none): `(v + 1) / (v_ref + 1) - 1`.
    Relative { index: usize, reference: Option<usize> },
    /// No period closes before the last indicator: its value is taken as it is.
    Raw { index: usize },
}

/// The day numbers of a sequence of dates.
pub open spec fn day_numbers(dates: Seq<Date>) -> Seq<int> {
    dates.map_values(|d: Date| d@)
}

/// The positions `i < k` where the date after position `i` leaves the
/// period of the date at `i`, in increasing order.
pub open spec fn period_breaks(days: Seq<int>, period: HeatMapPeriod, k: int) -> Seq<int>
    decreases k,
{
    if k <= 0 {
        seq![]
    } else {
        let previous = period_breaks(days, period, k - 1);
        if !spec_same_period(period, days[k], days[k - 1]) {
            previous.push(k - 1)
        } else {
            previous
        }
    }
}

/// The points closing each period at its breaks, each measured against
/// the point before it.
pub open spec fn chained_entries(breaks: Seq<int>) -> Seq<HeatMapEntry> {
    Seq::new(
        breaks.len(),
        |j: int|
            HeatMapEntry::Relative {
                index: breaks[j] as usize,
                reference: if j == 0 {
                    None
                } else {
                    Some(breaks[j - 1] as usize)
                },
            },
    )
}

/// The points of the heat map of dated indicators: one at each period
/// break, then the last indicator, measured against the last break unless
/// it carries that break's date, or taken as it is when nothing breaks.
pub open spec fn spec_heat_map_entries(days: Seq<int>, period: HeatMapPeriod) -> Seq<HeatMapEntry> {
    let n = days.len() as int;
    let breaks = period_breaks(days, period, n - 1);
    if n == 0 {
        seq![]
    } else if breaks.len() == 0 {
        seq![HeatMapEntry::Raw { index: (n - 1) as usize }]
    } else if days[breaks.last()] != days[n - 1] {
        chained_entries(breaks).push(
            HeatMapEntry::Relative {
                index: (n - 1) as usize,
                reference: Some(breaks.last() as usize),
            },
        )
    } else {
        chained_entries(breaks)
    }
}

/// The index an entry stands for.
pub open spec fn entry_index(entry: HeatMapEntry) -> int {
    match entry {
        HeatMapEntry::Relative { index, .. } => index as int,
        HeatMapEntry::Raw { index } => index as int,
    }
}

proof fn lemma_period_breaks_bounds(days: Seq<int>, period: HeatMapPeriod, k: int)
    ensures
        forall|j: int|
            0 <= j < period_breaks(days, period, k).len() ==> 0 <= #[trigger] period_breaks(
                days,
                period,
                k,
            )[j] < k,
        forall|i: int, j: int|
            0 <= i < j < period_breaks(days, period, k).len() ==> #[trigger] period_breaks(
                days,
                period,
                k,
            )[i] < #[trigger] period_breaks(days, period, k)[j],
        forall|j: int|
            0 <= j < period_breaks(days, period, k).len() ==> !spec_same_period(
                period,
                days[#[trigger] period_breaks(days, period, k)[j] + 1],
                days[period_breaks(days, period, k)[j]],
            ),
    decreases k,
{
    if k > 0 {
        lemma_period_breaks_bounds(days, period, k - 1);
        let prev = period_breaks(days, period, k - 1);
        let cur = period_breaks(days, period, k);
        assert forall|j: int| 0 <= j < prev.len() implies cur[j] == prev[j] by {}
    }
}

/// Of indicators in date order, the heat map's last point is the last
/// indicator: no period is left out at the end.
pub proof fn lemma_heat_map_ends_at_last(days: Seq<int>, period: HeatMapPeriod)
    requires
        0 < days.len() <= usize::MAX,
        forall|i: int, j: int| 0 <= i <= j < days.len() ==> days[i] <= days[j],
    ensures
        spec_heat_map_entries(days, period).len() > 0,
        entry_index(spec_heat_map_entries(days, period).last()) == days.len() - 1,
{
    lemma_period_breaks_bounds(days, period, days.len() - 1);
}

/// Each point of the heat map is measured against the point before it,
/// and the points follow the indicators' order.
pub proof fn lemma_heat_map_chain(days: Seq<int>, period: HeatMapPeriod)
    requires
        days.len() <= usize::MAX,
    ensures
        forall|j: int|
            0 <= j < spec_heat_map_entries(days, period).len() ==> 0 <= entry_index(
                #[trigger] spec_heat_map_entries(days, period)[j],
            ) < days.len(),
        forall|i: int, j: int|
            0 <= i < j < spec_heat_map_entries(days, period).len() ==> entry_index(
                #[trigger] spec_heat_map_entries(days, period)[i],
            ) < entry_index(#[trigger] spec_heat_map_entries(days, period)[j]),
        forall|j: int|
            0 < j < spec_heat_map_entries(days, period).len() ==> (
            #[trigger] spec_heat_map_entries(days, period)[j] matches HeatMapEntry::Relative {
                reference,
                ..
            } && reference == Some(entry_index(spec_heat_map_entries(days, period)[j - 1]) as usize)),
{
    lemma_period_breaks_bounds(days, period, days.len() - 1);
}

/// Which indicators of a dated series close a period of the heat map, and
/// against which earlier indicator each one's performance is measured.
pub fn heat_map_entries(dates: &Vec<Date>, period: HeatMapPeriod) -> (r: Vec<HeatMapEntry>)
    ensures
        r@ == spec_heat_map_entries(day_numbers(dates@), period),
{
    let ghost days = day_numbers(dates@);
    let n = dates.len();
    let mut entries: Vec<HeatMapEntry> = Vec::new();
    let mut last: Option<usize> = None;
    let mut i: usize = 0;
    while n > 0 && i < n - 1
        invariant
            n == dates@.len(),
            days == day_numbers(dates@),
            0 <= i,
            n == 0 ==> i == 0,
            n > 0 ==> i <= n - 1,
            entries@ == chained_entries(period_breaks(days, period, i as int)),
            match last {
                Some(l) => {
                    &&& period_breaks(days, period, i as int).len() > 0
                    &&& l == period_breaks(days, period, i as int).last()
                },
                None => period_breaks(days, period, i as int).len() == 0,
            },
        decreases n - i,
    {
        proof {
            lemma_period_breaks_bounds(days, period, i as int);
        }
        if !period.same(dates[i + 1], dates[i]) {
            entries.push(HeatMapEntry::Relative { index: i, reference: last });
            last = Some(i);
        }
        i = i + 1;
    }
    if n > 0 {
        match last {
            Some(l) => {
                proof {
                    lemma_period_breaks_bounds(days, period, i as int);
                    dates@[l as int].lemma_view_eq(dates@[n - 1]);
                }
                if dates[l] != dates[n - 1] {
                    entries.push(HeatMapEntry::Relative { index: n - 1, reference: Some(l) });
                }
            },
            None => {
                entries.push(HeatMapEntry::Raw { index: n - 1 });
            },
        }
    }
    entries
}

/// The last of the first `n` dates that falls in month `month` of year
/// `year`.
pub open spec fn spec_last_in_month(dates: Seq<Date>, year: int, month: int, n: int) -> Option<int>
    decreases n,
{
    if n <= 0 {
        None
    } else if chrono_year(dates[n - 1]@) == year && chrono_month(dates[n - 1]@) == month {
        Some(n - 1)
    } else {
        spec_last_in_month(dates, year, month, n - 1)
    }
}

/// An optional position, as a `usize`.
pub open spec fn as_position(position: Option<int>) -> Option<usize> {
    match position {
        Some(i) => Some(i as usize),
        None => None,
    }
}

/// The years of the rows of a monthly table.
pub open spec fn row_years(rows: Seq<(i32, Vec<Option<usize>>)>) -> Seq<int> {
    rows.map_values(|row: (i32, Vec<Option<usize>>)| row.0 as int)
}

/// `rows` is the monthly table of the first `n` dates: one row per year of
/// those dates, in increasing order, each with twelve cells, the cell of a
/// month holding the position of the last date of that month.
pub open spec fn monthly_table(rows: Seq<(i32, Vec<Option<usize>>)>, dates: Seq<Date>, n: int) -> bool {
    &&& forall|a: int, b: int| 0 <= a < b < rows.len() ==> rows[a].0 < rows[b].0
    &&& forall|k: int| 0 <= k < rows.len() ==> (#[trigger] rows[k]).1@.len() == 12
    &&& forall|k: int, m: int|
        0 <= k < rows.len() && 0 <= m < 12 ==> #[trigger] rows[k].1@[m] == as_position(
            spec_last_in_month(dates, rows[k].0 as int, m + 1, n),
        )
    &&& forall|k: int| 0 <= k < rows.len() ==> exists|i: int| 0 <= i < n && #[trigger] chrono_year(dates[i]@) == (#[trigger] rows[k]).0
    &&& forall|i: int| 0 <= i < n ==> row_years(rows).contains(#[trigger] chrono_year(dates[i]@))
}

proof fn lemma_set_cell(
    before: Seq<(i32, Vec<Option<usize>>)>,
    after: Seq<(i32, Vec<Option<usize>>)>,
    dates: Seq<Date>,
    i: int,
    p: int,
)
    requires
        0 <= i < dates.len(),
        0 <= p < before.len(),
        i <= usize::MAX,
        1 <= chrono_month(dates[i]@) <= 12,
        monthly_table(before, dates, i),
        after.len() == before.len(),
        forall|k: int| 0 <= k < before.len() && k != p ==> after[k] == before[k],
        after[p].0 == before[p].0,
        before[p].0 == chrono_year(dates[i]@),
        after[p].1@ == before[p].1@.update(chrono_month(dates[i]@) - 1, Some(i as usize)),
    ensures
        monthly_table(after, dates, i + 1),
{
    assert forall|k: int| 0 <= k < after.len() implies exists|j: int|
        0 <= j < i + 1 && #[trigger] chrono_year(dates[j]@) == (#[trigger] after[k]).0 by {
        assert(after[k].0 == before[k].0);
    }
    assert(row_years(after) =~= row_years(before));
}

proof fn lemma_insert_row(
    before: Seq<(i32, Vec<Option<usize>>)>,
    after: Seq<(i32, Vec<Option<usize>>)>,
    dates: Seq<Date>,
    i: int,
    p: int,
    row: (i32, Vec<Option<usize>>),
)
    requires
        0 <= i < dates.len(),
        0 <= p <= before.len(),
        i <= usize::MAX,
        monthly_table(before, dates, i),
        forall|k: int| 0 <= k < p ==> before[k].0 < row.0,
        p < before.len() ==> before[p].0 > row.0,
        row.0 == chrono_year(dates[i]@),
        row.1@.len() == 12,
        forall|c: int| 0 <= c < 12 ==> #[trigger] row.1@[c] == (if c == chrono_month(dates[i]@) - 1 {
            Some(i as usize)
        } else {
            None
        }),
        after == before.insert(p, row),
    ensures
        monthly_table(after, dates, i + 1),
{
    let year = row.0;
    assert(!row_years(before).contains(year as int)) by {
        if row_years(before).contains(year as int) {
            let k = choose|k: int| 0 <= k < row_years(before).len() && row_years(before)[k] == year;
            assert(before[k].0 == year);
        }
    }
    assert forall|k: int, m: int| 0 <= k < after.len() && 0 <= m < 12 implies #[trigger] after[k].1@[m] == as_position(
        spec_last_in_month(dates, after[k].0 as int, m + 1, i + 1),
    ) by {
        if k == p {
            lemma_no_month_before(dates, year as int, m + 1, i, before);
        }
    }
    assert forall|j: int| 0 <= j < i + 1 implies row_years(after).contains(#[trigger] chrono_year(dates[j]@)) by {
        if j == i {
            assert(row_years(after)[p] == year);
        } else {
            let y = chrono_year(dates[j]@);
            let k = choose|k: int| 0 <= k < row_years(before).len() && row_years(before)[k] == y;
            if k < p {
                assert(row_years(after)[k] == y);
            } else {
                assert(row_years(after)[k + 1] == y);
            }
        }
    }
}

/// The monthly table of a heat map's dates: one row per year, in
/// increasing order, each with twelve cells (January first), the cell of a
/// month holding the position of the last date that falls in it.
pub fn monthly_rows(dates: &Vec<Date>) -> (r: Vec<(i32, Vec<Option<usize>>)>)
    ensures
        monthly_table(r@, dates@, dates@.len() as int),
{
    let mut rows: Vec<(i32, Vec<Option<usize>>)> = Vec::new();
    let mut i: usize = 0;
    while i < dates.len()
        invariant
            i <= dates@.len(),
            monthly_table(rows@, dates@, i as int),
        decreases dates@.len() - i,
    {
        let year = dates[i].year();
        let month = dates[i].month();
        let mut p: usize = 0;
        while p < rows.len() && rows[p].0 < year
            invariant
                p <= rows@.len(),
                forall|k: int| 0 <= k < p ==> rows@[k].0 < year,
            decreases rows@.len() - p,
        {
            p = p + 1;
        }
        let ghost before = rows@;
        if p < rows.len() && rows[p].0 == year {
            rows[p].1[(month - 1) as usize] = Some(i);
            proof {
                lemma_set_cell(before, rows@, dates@, i as int, p as int);
            }
        } else {
            let mut cells: Vec<Option<usize>> = Vec::new();
            let mut m: usize = 0;
            while m < 12
                invariant
                    1 <= month <= 12,
                    m <= 12,
                    cells@.len() == m,
                    forall|c: int| 0 <= c < m ==> #[trigger] cells@[c] == (if c == month - 1 {
                        Some(i)
                    } else {
                        None
                    }),
                decreases 12 - m,
            {
                if m == (month - 1) as usize {
                    cells.push(Some(i));
                } else {
                    cells.push(None);
                }
                m = m + 1;
            }
            rows.insert(p, (year, cells));
            proof {
                lemma_insert_row(before, rows@, dates@, i as int, p as int, (year, cells));
            }
        }
        i = i + 1;
    }
    rows
}

proof fn lemma_no_month_before(
    dates: Seq<Date>,
    year: int,
    month: int,
    n: int,
    rows: Seq<(i32, Vec<Option<usize>>)>,
)
    requires
        0 <= n <= dates.len(),
        !row_years(rows).contains(year),
        forall|i: int| 0 <= i < n ==> row_years(rows).contains(#[trigger] chrono_year(dates[i]@)),
    ensures
        spec_last_in_month(dates, year, month, n) is None,
    decreases n,
{
    if n > 0 {
        lemma_no_month_before(dates, year, month, n - 1, rows);
    }
}

} // verus!
