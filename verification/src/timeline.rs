//! Putting dated items in chronological order, as the portfolio does with
//! its trades and cash variations and the persistence with stored quotes.
use crate::date::{Date, DateTime};
use vstd::multiset::Multiset;
use vstd::prelude::*;

verus! {

broadcast use vstd::seq_lib::group_to_multiset_ensures;

/// `left` comes strictly before `right` in the lexicographic order of
/// (day, second, nanosecond).
pub open spec fn instant_before(left: (int, int, int), right: (int, int, int)) -> bool {
    ||| left.0 < right.0
    ||| (left.0 == right.0 && left.1 < right.1)
    ||| (left.0 == right.0 && left.1 == right.1 && left.2 < right.2)
}

/// Something placed in time.
pub trait Chronological {
    /// Its place in time: day number, second of the day, nanosecond.
    spec fn instant(&self) -> (int, int, int);

    /// Whether it comes strictly before `other`.
    fn precedes(&self, other: &Self) -> (r: bool)
        ensures
            r == instant_before(self.instant(), other.instant()),
    ;
}

impl Chronological for Date {
    open spec fn instant(&self) -> (int, int, int) {
        (self@, 0, 0)
    }

    fn precedes(&self, other: &Self) -> (r: bool) {
        self.is_before(other)
    }
}

impl Chronological for DateTime {
    open spec fn instant(&self) -> (int, int, int) {
        (self.date@, self.secs as int, self.nanos as int)
    }

    fn precedes(&self, other: &Self) -> (r: bool) {
        self.is_before(other)
    }
}

/// The items are in chronological order: none comes before an earlier one.
pub open spec fn chronological<K: Chronological, T>(items: Seq<(K, T)>) -> bool {
    forall|i: int, j: int|
        0 <= i < j < items.len() ==> !instant_before(#[trigger] items[j].0.instant(), #[trigger] items[i].0.instant())
}

proof fn lemma_instant_order(a: (int, int, int), b: (int, int, int), c: (int, int, int))
    ensures
        !instant_before(a, a),
        instant_before(a, b) ==> !instant_before(b, a),
        !instant_before(a, b) && !instant_before(b, c) ==> !instant_before(a, c),
        !instant_before(a, b) ==> (instant_before(b, a) || a == b),
{
}

/// The items of `items` placed at instant `t`, in their order.
pub open spec fn at_instant<K: Chronological, T>(items: Seq<(K, T)>, t: (int, int, int)) -> Seq<(K, T)> {
    items.filter(|item: (K, T)| item.0.instant() == t)
}

proof fn lemma_filter_split<A>(s: Seq<A>, pos: int, x: A, keep: spec_fn(A) -> bool)
    requires
        0 <= pos <= s.len(),
    ensures
        s.insert(pos, x).filter(keep) == s.take(pos).filter(keep) + seq![x].filter(keep) + s.skip(pos).filter(keep),
        s.filter(keep) == s.take(pos).filter(keep) + s.skip(pos).filter(keep),
{
    assert(s.insert(pos, x) =~= s.take(pos) + seq![x] + s.skip(pos));
    assert(s =~= s.take(pos) + s.skip(pos));
    Seq::filter_distributes_over_add(s.take(pos) + seq![x], s.skip(pos), keep);
    Seq::filter_distributes_over_add(s.take(pos), seq![x], keep);
    Seq::filter_distributes_over_add(s.take(pos), s.skip(pos), keep);
}

proof fn lemma_filter_single<A>(x: A, keep: spec_fn(A) -> bool)
    ensures
        seq![x].filter(keep) == (if keep(x) {
            seq![x]
        } else {
            Seq::<A>::empty()
        }),
{
    reveal_with_fuel(Seq::filter, 2);
}

proof fn lemma_filter_none<A>(s: Seq<A>, keep: spec_fn(A) -> bool)
    requires
        forall|k: int| 0 <= k < s.len() ==> !keep(#[trigger] s[k]),
    ensures
        s.filter(keep) == Seq::<A>::empty(),
    decreases s.len(),
{
    reveal_with_fuel(Seq::filter, 1);
    if s.len() > 0 {
        lemma_filter_none(s.drop_last(), keep);
    }
}

proof fn lemma_filter_front<A>(s: Seq<A>, keep: spec_fn(A) -> bool)
    requires
        s.len() > 0,
    ensures
        s.filter(keep) == seq![s[0]].filter(keep) + s.remove(0).filter(keep),
{
    assert(s =~= seq![s[0]] + s.remove(0));
    Seq::filter_distributes_over_add(seq![s[0]], s.remove(0), keep);
}

/// The items in chronological order, items at the same instant keeping
/// their order (a stable sort).
pub fn sort_chronologically<K: Chronological, T>(items: Vec<(K, T)>) -> (r: Vec<(K, T)>)
    ensures
        chronological(r@),
        r@.to_multiset() == items@.to_multiset(),
        forall|t: (int, int, int)| #[trigger] at_instant(r@, t) == at_instant(items@, t),
{
    let mut remaining = items;
    let mut result: Vec<(K, T)> = Vec::new();
    while remaining.len() > 0
        invariant
            chronological(result@),
            result@.to_multiset().add(remaining@.to_multiset()) == items@.to_multiset(),
            forall|t: (int, int, int)| #[trigger] at_instant(result@, t) + at_instant(remaining@, t) == at_instant(items@, t),
        decreases remaining@.len(),
    {
        let ghost before = remaining@;
        let item = remaining.remove(0);
        let mut position: usize = 0;
        while position < result.len() && !item.0.precedes(&result[position].0)
            invariant
                position <= result@.len(),
                forall|k: int| 0 <= k < position ==> !instant_before(item.0.instant(), #[trigger] result@[k].0.instant()),
            decreases result@.len() - position,
        {
            position = position + 1;
        }
        let ghost sorted = result@;
        result.insert(position, item);
        proof {
            assert forall|t: (int, int, int)| #[trigger] at_instant(result@, t) + at_instant(remaining@, t) == at_instant(
                items@,
                t,
            ) by {
                let keep = |x: (K, T)| x.0.instant() == t;
                let x = item.0.instant();
                lemma_filter_split(sorted, position as int, item, keep);
                lemma_filter_single(item, keep);
                lemma_filter_front(before, keep);
                if x == t {
                    assert forall|k: int| 0 <= k < sorted.skip(position as int).len() implies !keep(
                        #[trigger] sorted.skip(position as int)[k],
                    ) by {
                        let z = sorted[position as int].0.instant();
                        let y = sorted[position + k].0.instant();
                        lemma_instant_order(x, z, y);
                        lemma_instant_order(z, y, x);
                        lemma_instant_order(y, z, x);
                    }
                    lemma_filter_none(sorted.skip(position as int), keep);
                }
                assert(at_instant(result@, t) + at_instant(remaining@, t) =~= at_instant(sorted, t) + at_instant(before, t));
            }
            assert forall|i: int, j: int| 0 <= i < j < result@.len() implies !instant_before(
                #[trigger] result@[j].0.instant(),
                #[trigger] result@[i].0.instant(),
            ) by {
                let x = item.0.instant();
                if i < position && j == position {
                    lemma_instant_order(x, sorted[i].0.instant(), x);
                } else if i == position && j > position {
                    let y = sorted[j - 1].0.instant();
                    if position < sorted.len() {
                        let z = sorted[position as int].0.instant();
                        lemma_instant_order(x, z, y);
                        lemma_instant_order(z, y, x);
                        lemma_instant_order(y, z, x);
                    }
                }
            }
        }
    }
    proof {
        assert forall|t: (int, int, int)| #[trigger] at_instant(result@, t) == at_instant(items@, t) by {
            lemma_filter_none(remaining@, |x: (K, T)| x.0.instant() == t);
        }
    }
    result
}

/// Stored quotes in chronological order with the first and last dates they
/// cover, or `None` when there is none.
pub fn stored_history<T>(datas: Vec<(Date, T)>) -> (r: Option<(Date, Date, Vec<(Date, T)>)>)
    ensures
        match r {
            Some((first, last, sorted)) => {
                &&& datas@.len() > 0
                &&& chronological(sorted@)
                &&& sorted@.to_multiset() == datas@.to_multiset()
                &&& forall|t: (int, int, int)| #[trigger] at_instant(sorted@, t) == at_instant(datas@, t)
                &&& first == sorted@[0].0
                &&& last == sorted@.last().0
            },
            None => datas@.len() == 0,
        },
{
    let sorted = sort_chronologically(datas);
    proof {
        sorted@.to_multiset_ensures();
        datas@.to_multiset_ensures();
    }
    if sorted.len() == 0 {
        None
    } else {
        let first = sorted[0].0;
        let last = sorted[sorted.len() - 1].0;
        Some((first, last, sorted))
    }
}

} // verus!
