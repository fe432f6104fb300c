//! The currencies, markets and instruments the referential has loaded,
//! each kept once and shared through `Rc`.
use std::rc::Rc;
use vstd::prelude::*;

verus! {

/// `Rc::clone` from std: another pointer to the same value.
#[verifier::external_body]
fn rc_clone<T>(value: &Rc<T>) -> (r: Rc<T>)
    ensures
        *r == **value,
{
    Rc::clone(value)
}

/// The values held by a list of shared pointers.
pub open spec fn shared_values<T>(items: Seq<Rc<T>>) -> Seq<T> {
    items.map_values(|item: Rc<T>| *item)
}

/// The position of the first value that `predicate` accepted, given what
/// it answered for each value: its answers are those it gave, each one
/// allowed by its contract.
pub open spec fn spec_first_match<T, P: Fn(&T) -> bool>(values: Seq<T>, predicate: P, i: int) -> bool {
    &&& 0 <= i < values.len()
    &&& call_ensures(predicate, (&values[i],), true)
    &&& forall|j: int| 0 <= j < i ==> call_ensures(predicate, (&#[trigger] values[j],), false)
}

fn find_first<T, P: Fn(&T) -> bool>(items: &Vec<Rc<T>>, predicate: &P) -> (r: Option<Rc<T>>)
    requires
        forall|i: int| 0 <= i < items@.len() ==> call_requires(*predicate, (&#[trigger] shared_values(items@)[i],)),
    ensures
        match r {
            Some(found) => exists|i: int|
                spec_first_match(shared_values(items@), *predicate, i) && *found == shared_values(items@)[i],
            None => forall|i: int|
                0 <= i < items@.len() ==> call_ensures(*predicate, (&#[trigger] shared_values(items@)[i],), false),
        },
{
    let ghost values = shared_values(items@);
    let mut i: usize = 0;
    while i < items.len()
        invariant
            i <= items@.len(),
            values == shared_values(items@),
            forall|k: int| 0 <= k < items@.len() ==> call_requires(*predicate, (&#[trigger] values[k],)),
            forall|j: int| 0 <= j < i ==> call_ensures(*predicate, (&#[trigger] values[j],), false),
        decreases items@.len() - i,
    {
        let item: &T = &*items[i];
        assert(*item == values[i as int]);
        if predicate(item) {
            let found = rc_clone(&items[i]);
            return Some(found);
        }
        i = i + 1;
    }
    None
}

/// The currencies (`C`), markets (`M`) and instruments (`I`) loaded so far,
/// in the order they were added.
pub struct Cache<C, M, I> {
    currencies: Vec<Rc<C>>,
    markets: Vec<Rc<M>>,
    instruments: Vec<Rc<I>>,
}

impl<C, M, I> Cache<C, M, I> {
    /// The currencies, in the order they were added.
    pub closed spec fn currencies(&self) -> Seq<C> {
        shared_values(self.currencies@)
    }

    /// The markets, in the order they were added.
    pub closed spec fn markets(&self) -> Seq<M> {
        shared_values(self.markets@)
    }

    /// The instruments, in the order they were added.
    pub closed spec fn instruments(&self) -> Seq<I> {
        shared_values(self.instruments@)
    }

    /// An empty cache.
    pub fn new() -> (r: Self)
        ensures
            r.currencies().len() == 0,
            r.markets().len() == 0,
            r.instruments().len() == 0,
    {
        Cache { currencies: Vec::new(), markets: Vec::new(), instruments: Vec::new() }
    }

    /// Adds a currency and returns it, shared.
    pub fn add_currency(&mut self, currency: C) -> (r: Rc<C>)
        ensures
            final(self).currencies() == old(self).currencies().push(currency),
            final(self).markets() == old(self).markets(),
            final(self).instruments() == old(self).instruments(),
            *r == currency,
    {
        let shared = Rc::new(currency);
        let r = rc_clone(&shared);
        self.currencies.push(shared);
        r
    }

    /// The first currency (in the order they were added) that `predicate` accepts.
    pub fn get_currency_by<P: Fn(&C) -> bool>(&self, predicate: P) -> (r: Option<Rc<C>>)
        requires
            forall|i: int| 0 <= i < self.currencies().len() ==> call_requires(predicate, (&#[trigger] self.currencies()[i],)),
        ensures
            match r {
                Some(found) => exists|i: int| spec_first_match(self.currencies(), predicate, i) && *found == self.currencies()[i],
                None => forall|i: int|
                    0 <= i < self.currencies().len() ==> call_ensures(predicate, (&#[trigger] self.currencies()[i],), false),
            },
    {
        let ghost values = self.currencies();
        find_first(&self.currencies, &predicate)
    }

    /// Adds a market and returns it, shared.
    pub fn add_market(&mut self, market: M) -> (r: Rc<M>)
        ensures
            final(self).markets() == old(self).markets().push(market),
            final(self).currencies() == old(self).currencies(),
            final(self).instruments() == old(self).instruments(),
            *r == market,
    {
        let shared = Rc::new(market);
        let r = rc_clone(&shared);
        self.markets.push(shared);
        r
    }

    /// The first market (in the order they were added) that `predicate` accepts.
    pub fn get_market_by<P: Fn(&M) -> bool>(&self, predicate: P) -> (r: Option<Rc<M>>)
        requires
            forall|i: int| 0 <= i < self.markets().len() ==> call_requires(predicate, (&#[trigger] self.markets()[i],)),
        ensures
            match r {
                Some(found) => exists|i: int| spec_first_match(self.markets(), predicate, i) && *found == self.markets()[i],
                None => forall|i: int|
                    0 <= i < self.markets().len() ==> call_ensures(predicate, (&#[trigger] self.markets()[i],), false),
            },
    {
        let ghost values = self.markets();
        find_first(&self.markets, &predicate)
    }

    /// Adds an instrument and returns it, shared.
    pub fn add_instrument(&mut self, instrument: I) -> (r: Rc<I>)
        ensures
            final(self).instruments() == old(self).instruments().push(instrument),
            final(self).currencies() == old(self).currencies(),
            final(self).markets() == old(self).markets(),
            *r == instrument,
    {
        let shared = Rc::new(instrument);
        let r = rc_clone(&shared);
        self.instruments.push(shared);
        r
    }

    /// The first instrument (in the order they were added) that `predicate` accepts.
    pub fn get_instrument_by<P: Fn(&I) -> bool>(&self, predicate: P) -> (r: Option<Rc<I>>)
        requires
            forall|i: int| 0 <= i < self.instruments().len() ==> call_requires(predicate, (&#[trigger] self.instruments()[i],)),
        ensures
            match r {
                Some(found) => exists|i: int| spec_first_match(self.instruments(), predicate, i) && *found == self.instruments()[i],
                None => forall|i: int|
                    0 <= i < self.instruments().len() ==> call_ensures(predicate, (&#[trigger] self.instruments()[i],), false),
            },
    {
        let ghost values = self.instruments();
        find_first(&self.instruments, &predicate)
    }
}

impl<C, M, I> Default for Cache<C, M, I> {
    /// An empty cache.
    fn default() -> (r: Self)
        ensures
            r.currencies().len() == 0,
            r.markets().len() == 0,
            r.instruments().len() == 0,
    {
        Cache::new()
    }
}

/// A value added last to a list is found by a predicate that rejects every
/// earlier value and accepts it: what was added is what is found.
pub proof fn lemma_added_found<T, P: Fn(&T) -> bool>(values: Seq<T>, added: T, predicate: P)
    requires
        forall|j: int| 0 <= j < values.len() ==> call_ensures(predicate, (&#[trigger] values[j],), false),
        call_ensures(predicate, (&added,), true),
    ensures
        spec_first_match(values.push(added), predicate, values.len() as int),
{
    assert(values.push(added)[values.len() as int] == added);
}

} // verus!
