//! The portfolio's vocabulary: trade ways and the sources of cash
//! variations, and the dates of its trades.

mod cash_variation;
mod way;

pub use cash_variation::CashVariationSource;
pub use way::{spec_way_display, spec_way_name, Way};

use crate::date::{spec_datetime_before, Date, DateTime};
use crate::error::Error;
use vstd::prelude::*;

verus! {

/// Some position has a trade.
pub open spec fn has_trade(positions: Seq<Vec<DateTime>>) -> bool {
    exists|i: int| 0 <= i < positions.len() && positions[i]@.len() > 0
}

/// The date on which the portfolio starts: the earliest date of the
/// positions' first trades (each position's trades are in date order). A
/// portfolio without any trade is a portfolio error.
pub fn get_trade_date(positions: &Vec<Vec<DateTime>>) -> (r: Result<Date, Error>)
    ensures
        match r {
            Ok(date) => {
                &&& exists|i: int|
                    0 <= i < positions@.len() && #[trigger] positions@[i]@.len() > 0
                        && positions@[i]@[0].date == date
                &&& forall|i: int|
                    0 <= i < positions@.len() && #[trigger] positions@[i]@.len() > 0 ==> date@
                        <= positions@[i]@[0].date@
            },
            Err(err) => {
                &&& !has_trade(positions@)
                &&& err matches Error::Portfolio(msg)
                &&& msg@ == "unable to detect first trade date in the portfolio"@
            },
        },
{
    let mut first: Option<DateTime> = None;
    let mut i: usize = 0;
    while i < positions.len()
        invariant
            i <= positions@.len(),
            match first {
                Some(f) => {
                    &&& exists|k: int| 0 <= k < i && #[trigger] positions@[k]@.len() > 0 && positions@[k]@[0] == f
                    &&& forall|k: int|
                        0 <= k < i && #[trigger] positions@[k]@.len() > 0 ==> !spec_datetime_before(
                            positions@[k]@[0],
                            f,
                        )
                },
                None => forall|k: int| 0 <= k < i ==> #[trigger] positions@[k]@.len() == 0,
            },
        decreases positions@.len() - i,
    {
        let trades = &positions[i];
        if trades.len() > 0 {
            let candidate = trades[0];
            first = match first {
                Some(f) => if candidate.is_before(&f) {
                    Some(candidate)
                } else {
                    Some(f)
                },
                None => Some(candidate),
            };
        }
        i = i + 1;
    }
    match first {
        Some(f) => Ok(f.date),
        None => Err(Error::new_portfolio("unable to detect first trade date in the portfolio".to_owned())),
    }
}

/// The values of `values` without repetition, each at its first occurrence.
pub open spec fn spec_distinct<A>(values: Seq<A>) -> Seq<A>
    decreases values.len(),
{
    if values.len() == 0 {
        seq![]
    } else {
        let previous = spec_distinct(values.drop_last());
        if previous.contains(values.last()) {
            previous
        } else {
            previous.push(values.last())
        }
    }
}

/// The texts of a list of strings.
pub open spec fn texts(values: Seq<String>) -> Seq<Seq<char>> {
    values.map_values(|v: String| v@)
}

/// The texts of a list of optional strings.
pub open spec fn optional_texts(values: Seq<Option<String>>) -> Seq<Option<Seq<char>>> {
    values.map_values(|v: Option<String>| match v {
        Some(s) => Some(s@),
        None => None,
    })
}

/// Without repetition: each value of `values` once, and nothing else.
pub proof fn lemma_distinct<A>(values: Seq<A>)
    ensures
        spec_distinct(values).no_duplicates(),
        forall|a: A| #[trigger] spec_distinct(values).contains(a) <==> values.contains(a),
    decreases values.len(),
{
    if values.len() > 0 {
        let prefix = values.drop_last();
        lemma_distinct(prefix);
        assert forall|a: A| #[trigger] values.contains(a) <==> (prefix.contains(a) || a == values.last()) by {
            if values.contains(a) {
                let k = choose|k: int| 0 <= k < values.len() && values[k] == a;
                if k < values.len() - 1 {
                    assert(prefix[k] == a);
                }
            }
            if prefix.contains(a) {
                let k = choose|k: int| 0 <= k < prefix.len() && prefix[k] == a;
                assert(prefix[k] == a);
            }
        }
        let previous = spec_distinct(prefix);
        if !previous.contains(values.last()) {
            let pushed = previous.push(values.last());
            assert forall|a: A| #[trigger] pushed.contains(a) <==> (previous.contains(a) || a == values.last()) by {
                if pushed.contains(a) {
                    let k = choose|k: int| 0 <= k < pushed.len() && pushed[k] == a;
                    assert(pushed[k] == a);
                }
                if previous.contains(a) {
                    let k = choose|k: int| 0 <= k < previous.len() && previous[k] == a;
                    assert(pushed[k] == a);
                }
                if a == values.last() {
                    assert(pushed[previous.len() as int] == a);
                }
            }
        }
    }
}

/// The names of the instruments of the positions, each once, in the order
/// they first appear.
pub fn get_instrument_name_list(instrument_names: &Vec<String>) -> (r: Vec<String>)
    ensures
        texts(r@) == spec_distinct(texts(instrument_names@)),
{
    let ghost names = texts(instrument_names@);
    let mut result: Vec<String> = Vec::new();
    let mut i: usize = 0;
    while i < instrument_names.len()
        invariant
            i <= instrument_names@.len(),
            names == texts(instrument_names@),
            texts(result@) == spec_distinct(names.take(i as int)),
        decreases instrument_names@.len() - i,
    {
        let name = &instrument_names[i];
        let mut found = false;
        let mut j: usize = 0;
        while j < result.len()
            invariant
                j <= result@.len(),
                found <==> exists|k: int| 0 <= k < j && texts(result@)[k] == name@,
            decreases result@.len() - j,
        {
            assert(texts(result@)[j as int] == result@[j as int]@);
            if result[j] == *name {
                found = true;
            }
            j = j + 1;
        }
        proof {
            let prefix = names.take(i as int + 1);
            assert(prefix.drop_last() =~= names.take(i as int));
            if found {
                let k = choose|k: int| 0 <= k < result@.len() && texts(result@)[k] == name@;
                assert(texts(result@)[k] == name@);
            }
        }
        if !found {
            result.push(name.clone());
        }
        i = i + 1;
    }
    assert(names.take(instrument_names@.len() as int) =~= names);
    result
}

/// The regions of the instruments of the positions (an instrument may have
/// none), each once, in the order they first appear.
pub fn get_region_name_list(regions: &Vec<Option<String>>) -> (r: Vec<Option<String>>)
    ensures
        optional_texts(r@) == spec_distinct(optional_texts(regions@)),
{
    let ghost values = optional_texts(regions@);
    let mut result: Vec<Option<String>> = Vec::new();
    let mut i: usize = 0;
    while i < regions.len()
        invariant
            i <= regions@.len(),
            values == optional_texts(regions@),
            optional_texts(result@) == spec_distinct(values.take(i as int)),
        decreases regions@.len() - i,
    {
        let region = &regions[i];
        let mut found = false;
        let mut j: usize = 0;
        while j < result.len()
            invariant
                j <= result@.len(),
                found <==> exists|k: int| 0 <= k < j && optional_texts(result@)[k] == values[i as int],
                values == optional_texts(regions@),
                i < regions@.len(),
                *region == regions@[i as int],
            decreases result@.len() - j,
        {
            assert(optional_texts(result@)[j as int] == match result@[j as int] {
                Some(s) => Some(s@),
                None => None::<Seq<char>>,
            });
            assert(values[i as int] == match regions@[i as int] {
                Some(s) => Some(s@),
                None => None::<Seq<char>>,
            });
            let current = &result[j];
            let same = match current {
                Some(a) => match region {
                    Some(b) => *a == *b,
                    None => false,
                },
                None => region.is_none(),
            };
            if same {
                found = true;
            }
            j = j + 1;
        }
        proof {
            let prefix = values.take(i as int + 1);
            assert(prefix.drop_last() =~= values.take(i as int));
            if found {
                let k = choose|k: int| 0 <= k < result@.len() && optional_texts(result@)[k] == values[i as int];
                assert(optional_texts(result@)[k] == values[i as int]);
            }
        }
        if !found {
            let copy = match region {
                Some(name) => Some(name.clone()),
                None => None,
            };
            result.push(copy);
        }
        i = i + 1;
    }
    assert(values.take(regions@.len() as int) =~= values);
    result
}

} // verus!
