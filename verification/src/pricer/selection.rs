//! Finding a position's successive pricings among the pricings of a
//! portfolio, each portfolio pricing given by the keys of its position
//! pricings, and the span of a position's pricings that its internal rate
//! of return is computed over.
use crate::portfolio::spec_distinct;
use vstd::prelude::*;

verus! {

/// What identifies a position pricing among those of a portfolio pricing:
/// the instrument's name, the position's index in the portfolio, and
/// whether the position is closed on that day.
pub struct PositionKey {
    pub instrument_name: String,
    pub position_index: usize,
    pub is_close: bool,
}

/// The key at coordinates (portfolio pricing, position pricing).
pub open spec fn key_at(portfolios: Seq<Vec<PositionKey>>, at: (usize, usize)) -> PositionKey {
    portfolios[at.0 as int]@[at.1 as int]
}

/// The coordinates of the keys among the first `n` of `keys` (those of the
/// portfolio pricing at `portfolio`) that are `wanted`, in order.
pub open spec fn spec_pick_in(
    keys: Seq<PositionKey>,
    wanted: spec_fn(PositionKey) -> bool,
    portfolio: int,
    n: int,
) -> Seq<(usize, usize)>
    decreases n,
{
    if n <= 0 {
        seq![]
    } else {
        let previous = spec_pick_in(keys, wanted, portfolio, n - 1);
        if wanted(keys[n - 1]) {
            previous.push((portfolio as usize, (n - 1) as usize))
        } else {
            previous
        }
    }
}

/// The coordinates of the wanted keys of the first `n` portfolio pricings,
/// portfolio pricing after portfolio pricing.
pub open spec fn spec_pick(portfolios: Seq<Vec<PositionKey>>, wanted: spec_fn(PositionKey) -> bool, n: int) -> Seq<
    (usize, usize),
>
    decreases n,
{
    if n <= 0 {
        seq![]
    } else {
        spec_pick(portfolios, wanted, n - 1) + spec_pick_in(
            portfolios[n - 1]@,
            wanted,
            n - 1,
            portfolios[n - 1]@.len() as int,
        )
    }
}

/// The keys of the pricings of the position at `index`.
pub open spec fn of_position(index: usize) -> spec_fn(PositionKey) -> bool {
    |key: PositionKey| key.position_index == index
}

/// The keys of the pricings of the position at `index`, of the instrument `name`.
pub open spec fn of_named_position(name: Seq<char>, index: usize) -> spec_fn(PositionKey) -> bool {
    |key: PositionKey| key.instrument_name@ == name && key.position_index == index
}

/// The position indexes of the first `n` keys whose instrument is named `name`.
pub open spec fn spec_named_indices(keys: Seq<PositionKey>, name: Seq<char>, n: int) -> Seq<usize>
    decreases n,
{
    if n <= 0 {
        seq![]
    } else {
        let previous = spec_named_indices(keys, name, n - 1);
        if keys[n - 1].instrument_name@ == name {
            previous.push(keys[n - 1].position_index)
        } else {
            previous
        }
    }
}

/// Among the first `n` coordinates of `picks`, the first whose key is closed.
pub open spec fn spec_first_closed(portfolios: Seq<Vec<PositionKey>>, picks: Seq<(usize, usize)>, n: int) -> Option<int>
    decreases n,
{
    if n <= 0 {
        None
    } else {
        match spec_first_closed(portfolios, picks, n - 1) {
            Some(j) => Some(j),
            None => if key_at(portfolios, picks[n - 1]).is_close {
                Some(n - 1)
            } else {
                None
            },
        }
    }
}

/// For the first `n` keys of the last portfolio pricing that are closed,
/// in order: the position's index, the coordinates of its first pricing
/// and those of its first closed pricing.
pub open spec fn spec_closed_positions(portfolios: Seq<Vec<PositionKey>>, n: int) -> Seq<(usize, (usize, usize), (usize, usize))>
    decreases n,
{
    if n <= 0 {
        seq![]
    } else {
        let previous = spec_closed_positions(portfolios, n - 1);
        let key = portfolios.last()@[n - 1];
        if key.is_close {
            let picks = spec_pick(portfolios, of_position(key.position_index), portfolios.len() as int);
            match spec_first_closed(portfolios, picks, picks.len() as int) {
                Some(j) => previous.push((key.position_index, picks[0], picks[j])),
                None => previous,
            }
        } else {
            previous
        }
    }
}

fn pick_in(keys: &Vec<PositionKey>, portfolio: usize, name: Option<&String>, index: usize, picks: &mut Vec<(usize, usize)>)
    ensures
        forall|k: int|
            old(picks)@.len() <= k < final(picks)@.len() ==> {
                let at = #[trigger] final(picks)@[k];
                &&& at.0 == portfolio
                &&& at.1 < keys@.len()
                &&& keys@[at.1 as int].position_index == index
                &&& name matches Some(n) ==> keys@[at.1 as int].instrument_name@ == n@
            },
        final(picks)@ == old(picks)@ + spec_pick_in(
            keys@,
            match name {
                Some(n) => of_named_position(n@, index),
                None => of_position(index),
            },
            portfolio as int,
            keys@.len() as int,
        ),
{
    let ghost wanted = match name {
        Some(n) => of_named_position(n@, index),
        None => of_position(index),
    };
    let ghost start = picks@;
    let mut q: usize = 0;
    while q < keys.len()
        invariant
            q <= keys@.len(),
            wanted == (match name {
                Some(n) => of_named_position(n@, index),
                None => of_position(index),
            }),
            picks@ == start + spec_pick_in(keys@, wanted, portfolio as int, q as int),
            start == old(picks)@,
            forall|k: int|
                start.len() <= k < picks@.len() ==> {
                    let at = #[trigger] picks@[k];
                    &&& at.0 == portfolio
                    &&& at.1 < keys@.len()
                    &&& keys@[at.1 as int].position_index == index
                    &&& name matches Some(n) ==> keys@[at.1 as int].instrument_name@ == n@
                },
        decreases keys@.len() - q,
    {
        let key = &keys[q];
        let matches = key.position_index == index && match name {
            Some(n) => key.instrument_name == *n,
            None => true,
        };
        if matches {
            picks.push((portfolio, q));
        }
        q = q + 1;
    }
}

fn pick(portfolios: &Vec<Vec<PositionKey>>, name: Option<&String>, index: usize) -> (r: Vec<(usize, usize)>)
    ensures
        forall|k: int|
            0 <= k < r@.len() ==> {
                let at = #[trigger] r@[k];
                &&& at.0 < portfolios@.len()
                &&& at.1 < portfolios@[at.0 as int]@.len()
                &&& key_at(portfolios@, at).position_index == index
                &&& name matches Some(n) ==> key_at(portfolios@, at).instrument_name@ == n@
            },
        r@ == spec_pick(
            portfolios@,
            match name {
                Some(n) => of_named_position(n@, index),
                None => of_position(index),
            },
            portfolios@.len() as int,
        ),
{
    let mut picks: Vec<(usize, usize)> = Vec::new();
    let mut p: usize = 0;
    while p < portfolios.len()
        invariant
            p <= portfolios@.len(),
            picks@ == spec_pick(
                portfolios@,
                match name {
                    Some(n) => of_named_position(n@, index),
                    None => of_position(index),
                },
                p as int,
            ),
            forall|k: int|
                0 <= k < picks@.len() ==> {
                    let at = #[trigger] picks@[k];
                    &&& at.0 < p
                    &&& at.1 < portfolios@[at.0 as int]@.len()
                    &&& key_at(portfolios@, at).position_index == index
                    &&& name matches Some(n) ==> key_at(portfolios@, at).instrument_name@ == n@
                },
        decreases portfolios@.len() - p,
    {
        pick_in(&portfolios[p], p, name, index, &mut picks);
        p = p + 1;
    }
    picks
}

/// The coordinates of the pricings of the position at `index`, of the
/// instrument named `name`, in every portfolio pricing, in order.
pub fn position_pricings(portfolios: &Vec<Vec<PositionKey>>, name: &String, index: usize) -> (r: Vec<(usize, usize)>)
    ensures
        forall|k: int|
            0 <= k < r@.len() ==> {
                let at = #[trigger] r@[k];
                &&& at.0 < portfolios@.len()
                &&& at.1 < portfolios@[at.0 as int]@.len()
                &&& key_at(portfolios@, at).instrument_name@ == name@
                &&& key_at(portfolios@, at).position_index == index
            },
        r@ == spec_pick(portfolios@, of_named_position(name@, index), portfolios@.len() as int),
{
    pick(portfolios, Some(name), index)
}

/// The indexes of the positions of the instrument named `name` in the last
/// portfolio pricing, each once (none without any portfolio pricing).
pub fn position_index_list(portfolios: &Vec<Vec<PositionKey>>, name: &String) -> (r: Vec<usize>)
    ensures
        portfolios@.len() == 0 ==> r@.len() == 0,
        portfolios@.len() > 0 ==> r@ == spec_distinct(
            spec_named_indices(portfolios@.last()@, name@, portfolios@.last()@.len() as int),
        ),
{
    let mut result: Vec<usize> = Vec::new();
    if portfolios.len() == 0 {
        return result;
    }
    let keys = &portfolios[portfolios.len() - 1];
    let mut q: usize = 0;
    while q < keys.len()
        invariant
            q <= keys@.len(),
            result@ == spec_distinct(spec_named_indices(keys@, name@, q as int)),
        decreases keys@.len() - q,
    {
        let key = &keys[q];
        if key.instrument_name == *name {
            let ghost indices = spec_named_indices(keys@, name@, q as int + 1);
            assert(indices.drop_last() == spec_named_indices(keys@, name@, q as int));
            let mut known = false;
            let mut j: usize = 0;
            while j < result.len()
                invariant
                    j <= result@.len(),
                    known <==> exists|k: int| 0 <= k < j && result@[k] == key.position_index,
                decreases result@.len() - j,
            {
                if result[j] == key.position_index {
                    known = true;
                }
                j = j + 1;
            }
            if !known {
                result.push(key.position_index);
            }
        }
        q = q + 1;
    }
    result
}

proof fn lemma_pick_in_contains(keys: Seq<PositionKey>, wanted: spec_fn(PositionKey) -> bool, portfolio: int, n: int, q: int)
    requires
        0 <= q < n <= keys.len(),
        wanted(keys[q]),
        0 <= portfolio,
    ensures
        spec_pick_in(keys, wanted, portfolio, n).contains((portfolio as usize, q as usize)),
    decreases n,
{
    let picks = spec_pick_in(keys, wanted, portfolio, n);
    if q == n - 1 {
        assert(picks.last() == (portfolio as usize, q as usize));
    } else {
        lemma_pick_in_contains(keys, wanted, portfolio, n - 1, q);
        let previous = spec_pick_in(keys, wanted, portfolio, n - 1);
        let k = choose|k: int| 0 <= k < previous.len() && previous[k] == (portfolio as usize, q as usize);
        assert(picks[k] == previous[k]);
    }
}

proof fn lemma_pick_contains(portfolios: Seq<Vec<PositionKey>>, wanted: spec_fn(PositionKey) -> bool, n: int, p: int, q: int)
    requires
        0 <= p < n <= portfolios.len(),
        0 <= q < portfolios[p]@.len(),
        wanted(portfolios[p]@[q]),
    ensures
        spec_pick(portfolios, wanted, n).contains((p as usize, q as usize)),
    decreases n,
{
    let picks = spec_pick(portfolios, wanted, n);
    let previous = spec_pick(portfolios, wanted, n - 1);
    let last = spec_pick_in(portfolios[n - 1]@, wanted, n - 1, portfolios[n - 1]@.len() as int);
    if p == n - 1 {
        lemma_pick_in_contains(portfolios[p]@, wanted, p, portfolios[p]@.len() as int, q);
        let k = choose|k: int| 0 <= k < last.len() && last[k] == (p as usize, q as usize);
        assert(picks[previous.len() + k] == last[k]);
    } else {
        lemma_pick_contains(portfolios, wanted, n - 1, p, q);
        let k = choose|k: int| 0 <= k < previous.len() && previous[k] == (p as usize, q as usize);
        assert(picks[k] == previous[k]);
    }
}

proof fn lemma_first_closed_found(portfolios: Seq<Vec<PositionKey>>, picks: Seq<(usize, usize)>, n: int, j: int)
    requires
        0 <= j < n <= picks.len(),
        key_at(portfolios, picks[j]).is_close,
    ensures
        spec_first_closed(portfolios, picks, n) matches Some(f) && 0 <= f <= j,
    decreases n,
{
    if j < n - 1 {
        lemma_first_closed_found(portfolios, picks, n - 1, j);
    } else if spec_first_closed(portfolios, picks, n - 1) is Some {
        lemma_first_closed_is_closed(portfolios, picks, n - 1);
    }
}

proof fn lemma_first_closed_stays(portfolios: Seq<Vec<PositionKey>>, picks: Seq<(usize, usize)>, n: int, k: int)
    requires
        0 <= n <= k,
        spec_first_closed(portfolios, picks, n) is Some,
    ensures
        spec_first_closed(portfolios, picks, k) == spec_first_closed(portfolios, picks, n),
    decreases k - n,
{
    if k > n {
        lemma_first_closed_stays(portfolios, picks, n, k - 1);
    }
}

proof fn lemma_first_closed_is_closed(portfolios: Seq<Vec<PositionKey>>, picks: Seq<(usize, usize)>, n: int)
    requires
        spec_first_closed(portfolios, picks, n) is Some,
    ensures
        spec_first_closed(portfolios, picks, n) matches Some(f) && 0 <= f < n && key_at(portfolios, picks[f]).is_close,
    decreases n,
{
    if n > 0 && spec_first_closed(portfolios, picks, n - 1) is Some {
        lemma_first_closed_is_closed(portfolios, picks, n - 1);
    }
}

/// For each key of the last portfolio pricing that is closed, in order:
/// the position's index, the coordinates of its first pricing and those
/// of its first closed pricing, across all portfolio pricings.
pub fn closed_positions(portfolios: &Vec<Vec<PositionKey>>) -> (r: Vec<(usize, (usize, usize), (usize, usize))>)
    ensures
        portfolios@.len() == 0 ==> r@.len() == 0,
        portfolios@.len() > 0 ==> r@ == spec_closed_positions(portfolios@, portfolios@.last()@.len() as int),
{
    let mut result: Vec<(usize, (usize, usize), (usize, usize))> = Vec::new();
    if portfolios.len() == 0 {
        return result;
    }
    let last = portfolios.len() - 1;
    let keys = &portfolios[last];
    let mut q: usize = 0;
    while q < keys.len()
        invariant
            portfolios@.len() > 0,
            last == portfolios@.len() - 1,
            *keys == portfolios@.last(),
            q <= keys@.len(),
            result@ == spec_closed_positions(portfolios@, q as int),
        decreases keys@.len() - q,
    {
        let key = &keys[q];
        if key.is_close {
            let index = key.position_index;
            let picks = pick(portfolios, None, index);
            proof {
                lemma_pick_contains(portfolios@, of_position(index), portfolios@.len() as int, last as int, q as int);
                let k = choose|k: int| 0 <= k < picks@.len() && picks@[k] == (last, q);
                lemma_first_closed_found(portfolios@, picks@, picks@.len() as int, k);
                lemma_first_closed_is_closed(portfolios@, picks@, picks@.len() as int);
            }
            let mut j: usize = 0;
            while j < picks.len() && !portfolios[picks[j].0][picks[j].1].is_close
                invariant
                    j <= picks@.len(),
                    spec_first_closed(portfolios@, picks@, picks@.len() as int) matches Some(f) && j <= f,
                    spec_first_closed(portfolios@, picks@, j as int) is None,
                    forall|k: int|
                        0 <= k < picks@.len() ==> {
                            let at = #[trigger] picks@[k];
                            &&& 0 <= at.0 < portfolios@.len()
                            &&& 0 <= at.1 < portfolios@[at.0 as int]@.len()
                        },
                decreases picks@.len() - j,
            {
                proof {
                    lemma_first_closed_is_closed(portfolios@, picks@, picks@.len() as int);
                }
                j = j + 1;
            }
            proof {
                lemma_first_closed_stays(portfolios@, picks@, j as int + 1, picks@.len() as int);
            }
            result.push((index, picks[0], picks[j]));
        }
        q = q + 1;
    }
    result
}

/// How far back a position's previous pricings count in its internal rate
/// of return, given whether each was closed: all of them up to and
/// including the first closed one, and whether some came after it (then
/// the current pricing is left out too).
pub open spec fn spec_cash_flow_span(closed: Seq<bool>, n: int) -> (int, bool)
    decreases n,
{
    if n <= 0 {
        (0, false)
    } else {
        let previous = spec_cash_flow_span(closed, n - 1);
        if previous.1 || (n >= 2 && previous.0 == n - 1 && closed[n - 2]) {
            (previous.0, true)
        } else {
            (n, false)
        }
    }
}

/// The number of previous pricings a position's internal rate of return
/// is computed over, given whether each was closed (all of them, up to and
/// including the first closed one), and whether some pricing came after
/// that closed one, in which case the current pricing is left out.
pub fn cash_flow_span(closed: &Vec<bool>) -> (r: (usize, bool))
    ensures
        r.0 == spec_cash_flow_span(closed@, closed@.len() as int).0,
        r.1 == spec_cash_flow_span(closed@, closed@.len() as int).1,
{
    let mut taken: usize = 0;
    let mut stop = false;
    let mut previous_closed = false;
    while taken < closed.len()
        invariant_except_break
            !stop,
        invariant
            taken <= closed@.len(),
            spec_cash_flow_span(closed@, taken as int) == (taken as int, false),
            previous_closed == (taken > 0 && closed@[taken - 1]),
        ensures
            spec_cash_flow_span(closed@, closed@.len() as int) == (taken as int, stop),
        decreases closed@.len() - taken,
    {
        if previous_closed {
            stop = true;
            proof {
                lemma_span_stays(closed@, taken as int + 1, closed@.len() as int);
            }
            break;
        }
        previous_closed = closed[taken];
        taken = taken + 1;
    }
    (taken, stop)
}

proof fn lemma_span_stays(closed: Seq<bool>, n: int, k: int)
    requires
        1 <= n <= k,
        spec_cash_flow_span(closed, n).1,
    ensures
        spec_cash_flow_span(closed, k) == spec_cash_flow_span(closed, n),
    decreases k - n,
{
    if k > n {
        lemma_span_stays(closed, n, k - 1);
    }
}

proof fn lemma_span_open(closed: Seq<bool>, n: int)
    requires
        0 <= n,
        forall|g: int| 0 <= g < n - 1 ==> !closed[g],
    ensures
        spec_cash_flow_span(closed, n) == (n, false),
    decreases n,
{
    if n > 0 {
        lemma_span_open(closed, n - 1);
    }
}

/// The span of a position's cash flows, given whether each of its `n`
/// previous pricings was closed: when one before the last was closed, it
/// reaches up to and including the first closed one, and the current
/// pricing is left out, whatever the pricings after it; when none before
/// the last was closed, it takes all of them.
pub proof fn lemma_cash_flow_span(closed: Seq<bool>, n: int)
    requires
        0 <= n,
    ensures
        forall|first: int|
            0 <= first && first + 1 < n && #[trigger] closed[first] && (forall|g: int| 0 <= g < first ==> !closed[g])
                ==> spec_cash_flow_span(closed, n) == (first + 1, true),
        (forall|g: int| 0 <= g < n - 1 ==> !closed[g]) ==> spec_cash_flow_span(closed, n) == (n, false),
{
    assert forall|first: int|
        0 <= first && first + 1 < n && #[trigger] closed[first] && (forall|g: int| 0 <= g < first ==> !closed[g])
            implies spec_cash_flow_span(closed, n) == (first + 1, true) by {
        lemma_span_open(closed, first + 1);
        assert(spec_cash_flow_span(closed, first + 2) == (first + 1, true));
        lemma_span_stays(closed, first + 2, n);
    }
    if forall|g: int| 0 <= g < n - 1 ==> !closed[g] {
        lemma_span_open(closed, n);
    }
}

} // verus!
