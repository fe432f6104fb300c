//! Fetching historical quotes through a requester, kept in a persistence
//! and cached per instrument, so that only the missing part of a period is
//! ever requested.
use super::cache_instrument::{spec_insert, spec_latest_index, spec_not_in_cache, CacheInstrument, CacheView};
use crate::date::Date;
use crate::error::Error;
use crate::marketdata::Instrument;
use core::marker::PhantomData;
use vstd::prelude::*;

verus! {

/// A source of historical quotes: the quotes of an instrument between two
/// dates, with the first and last dates they cover.
pub trait Requester<T> {
    fn request(&self, instrument: &Instrument, begin: Date, end: Date) -> Result<(Date, Date, Vec<(Date, T)>), Error>;
}

/// A store of historical quotes that outlives the program.
pub trait Persistance<T> {
    /// Keeps the quotes of an instrument.
    fn save(&self, instrument: &Instrument, datas: &Vec<(Date, T)>) -> Result<(), Error>;

    /// The stored quotes of an instrument with the first and last dates
    /// they cover, or `None` when none is stored.
    fn load(&self, instrument: &Instrument) -> Result<Option<(Date, Date, Vec<(Date, T)>)>, Error>;
}

/// A source of historical quotes that fetches them ahead and then answers
/// for the latest one known at a date.
pub trait Provider<T> {
    /// Makes sure the quotes of `instrument` from `begin` to `end` are at hand.
    fn fetch(&mut self, instrument: &Instrument, begin: Date, end: Date) -> Result<(), Error>;

    /// The last quote of `instrument` dated no later than `date`, if any.
    fn latest(&self, instrument: &Instrument, date: Date) -> Option<&(Date, T)>;
}

/// A requester that has no quotes of type `T` to give.
pub struct NullRequester<T> {
    quote: PhantomData<T>,
}

impl<T> NullRequester<T> {
    /// The requester with no quotes.
    pub fn new() -> (r: Self) {
        NullRequester { quote: PhantomData }
    }

    /// No quotes, over a period reported as January 1, 1970 to itself.
    pub fn request_nothing(&self) -> (r: Result<(Date, Date, Vec<(Date, T)>), Error>)
        ensures
            r matches Ok((b, e, data)) && b@ == 719163 && e@ == 719163 && data@.len() == 0,
    {
        Ok((Date::default_date(), Date::default_date(), Vec::new()))
    }
}

impl<T> Requester<T> for NullRequester<T> {
    /// No quotes, whatever the instrument and the period, over a period
    /// reported as January 1, 1970 to itself.
    fn request(&self, instrument: &Instrument, begin: Date, end: Date) -> (r: Result<(Date, Date, Vec<(Date, T)>), Error>)
        ensures
            r matches Ok((b, e, data)) && b@ == 719163 && e@ == 719163 && data@.len() == 0,
    {
        self.request_nothing()
    }
}

/// The position of the first entry cached under `key`.
pub open spec fn spec_find<T>(entries: Seq<(Seq<char>, CacheView<T>)>, key: Seq<char>) -> Option<int>
    decreases entries.len(),
{
    if entries.len() == 0 {
        None
    } else if entries.last().0 == key && spec_find(entries.drop_last(), key) is None {
        Some(entries.len() - 1)
    } else {
        spec_find(entries.drop_last(), key)
    }
}

/// The cache of the first entry under `key`.
pub open spec fn spec_lookup<T>(entries: Seq<(Seq<char>, CacheView<T>)>, key: Seq<char>) -> Option<CacheView<T>> {
    match spec_find(entries, key) {
        Some(i) => Some(entries[i].1),
        None => None,
    }
}

/// What was cached is still cached afterwards, over a period that holds
/// the one cached before.
pub open spec fn keeps_cached<T>(before: Option<CacheView<T>>, after: Option<CacheView<T>>) -> bool {
    before matches Some(c) ==> after matches Some(f) && f.0 <= c.0 && c.1 <= f.1
}

/// What fetching the period from `begin` to `end` can leave cached for an
/// instrument cached as `c`: the same cache, or, when the cache lacks part
/// of the period, the cache with non-empty quotes received for that part
/// added to it.
pub open spec fn spec_extended<T>(c: CacheView<T>, begin: int, end: int, after: Option<CacheView<T>>) -> bool {
    ||| after == Some(c)
    ||| (spec_not_in_cache(c, begin, end) matches Some(m) && exists|data: Seq<(Date, T)>|
        data.len() > 0 && after == Some(spec_insert(c, m.0, m.1, data)))
}

/// What fetching the period from `begin` to `end` can leave cached for an
/// instrument that held `before`. A cached instrument ends as
/// `spec_extended` says. One not cached yet stays uncached, or holds the
/// non-empty quotes received for the whole period, or holds the cache
/// stored in the persistence, extended as `spec_extended` says.
pub open spec fn spec_fetch_outcome<T>(
    before: Option<CacheView<T>>,
    begin: int,
    end: int,
    after: Option<CacheView<T>>,
) -> bool {
    match before {
        Some(c) => spec_extended(c, begin, end, after),
        None => {
            ||| after is None
            ||| exists|data: Seq<(Date, T)>| data.len() > 0 && after == Some((begin, end, data))
            ||| exists|stored: CacheView<T>| spec_extended(stored, begin, end, after)
        },
    }
}

/// The part of the period from `begin` to `end` that is requested for an
/// instrument cached as `c`: what the cache lacks, if anything.
pub open spec fn requested_for<T>(c: CacheView<T>, begin: int, end: int) -> Seq<(int, int)> {
    match spec_not_in_cache(c, begin, end) {
        Some(m) => seq![m],
        None => seq![],
    }
}

/// The periods `asked` of the requester when fetching the period from
/// `begin` to `end` for an instrument that held `before` and ends holding
/// `after`. For a cached instrument, exactly the part its cache lacks. For
/// one not cached yet: nothing when the persistence fails; the whole
/// period when the persistence holds nothing for it; otherwise, the part
/// that the stored cache lacks.
pub open spec fn spec_fetch_requests<T>(
    before: Option<CacheView<T>>,
    begin: int,
    end: int,
    after: Option<CacheView<T>>,
    asked: Seq<(int, int)>,
) -> bool {
    match before {
        Some(c) => asked == requested_for(c, begin, end),
        None => {
            ||| (asked.len() == 0 && after is None)
            ||| (asked == seq![(begin, end)] && (after is None || exists|data: Seq<(Date, T)>|
                data.len() > 0 && after == Some((begin, end, data))))
            ||| exists|stored: CacheView<T>|
                #[trigger] spec_extended(stored, begin, end, after) && asked == requested_for(stored, begin, end)
        },
    }
}

/// The periods `asked`, each given the instrument's name `name`.
pub open spec fn named_requests(name: Seq<char>, asked: Seq<(int, int)>) -> Seq<(Seq<char>, int, int)> {
    asked.map_values(|m: (int, int)| (name, m.0, m.1))
}

/// The entry found for a key is the first one cached under it; no entry is
/// found when none is cached under it.
pub proof fn lemma_find<T>(entries: Seq<(Seq<char>, CacheView<T>)>, key: Seq<char>)
    ensures
        match spec_find(entries, key) {
            Some(i) => 0 <= i < entries.len() && entries[i].0 == key && forall|j: int|
                0 <= j < i ==> entries[j].0 != key,
            None => forall|j: int| 0 <= j < entries.len() ==> entries[j].0 != key,
        },
    decreases entries.len(),
{
    if entries.len() > 0 {
        let prefix = entries.drop_last();
        lemma_find(prefix, key);
        assert forall|j: int| 0 <= j < prefix.len() implies prefix[j] == entries[j] by {}
    }
}

proof fn lemma_find_unique<T>(entries: Seq<(Seq<char>, CacheView<T>)>, key: Seq<char>, i: int)
    requires
        0 <= i < entries.len(),
        entries[i].0 == key,
        forall|j: int| 0 <= j < i ==> entries[j].0 != key,
    ensures
        spec_find(entries, key) == Some(i),
{
    lemma_find(entries, key);
}

proof fn lemma_find_none<T>(entries: Seq<(Seq<char>, CacheView<T>)>, key: Seq<char>)
    requires
        forall|j: int| 0 <= j < entries.len() ==> entries[j].0 != key,
    ensures
        spec_find(entries, key) is None,
{
    lemma_find(entries, key);
}

proof fn lemma_find_push<T>(entries: Seq<(Seq<char>, CacheView<T>)>, entry: (Seq<char>, CacheView<T>), key: Seq<char>)
    ensures
        spec_find(entries.push(entry), key) == if spec_find(entries, key) is Some {
            spec_find(entries, key)
        } else if entry.0 == key {
            Some(entries.len() as int)
        } else {
            None
        },
{
    let pushed = entries.push(entry);
    lemma_find(entries, key);
    lemma_find(pushed, key);
    match spec_find(entries, key) {
        Some(i) => lemma_find_unique(pushed, key, i),
        None => {
            if entry.0 == key {
                lemma_find_unique(pushed, key, entries.len() as int);
            } else {
                lemma_find_none(pushed, key);
            }
        },
    }
}

proof fn lemma_find_update<T>(
    entries: Seq<(Seq<char>, CacheView<T>)>,
    i: int,
    entry: (Seq<char>, CacheView<T>),
    key: Seq<char>,
)
    requires
        0 <= i < entries.len(),
        entry.0 == entries[i].0,
    ensures
        spec_find(entries.update(i, entry), key) == spec_find(entries, key),
{
    let updated = entries.update(i, entry);
    lemma_find(entries, key);
    lemma_find(updated, key);
    match spec_find(entries, key) {
        Some(k) => lemma_find_unique(updated, key, k),
        None => lemma_find_none(updated, key),
    }
}

/// The cache of historical quotes in front of a requester and a persistence.
pub struct HistoricalData<'a, T, R: Requester<T>, P: Persistance<T>> {
    requester: R,
    persistence: &'a P,
    cache: Vec<(String, CacheInstrument<T>)>,
    requested: Ghost<Seq<(Seq<char>, int, int)>>,
    fetched: Ghost<Seq<(Seq<char>, int, int, Result<(), Error>)>>,
}

impl<'a, T, R: Requester<T>, P: Persistance<T>> HistoricalData<'a, T, R, P> {
    /// The cached entries, each an instrument's name and its cache.
    pub closed spec fn entries(&self) -> Seq<(Seq<char>, CacheView<T>)> {
        self.cache@.map_values(|e: (String, CacheInstrument<T>)| (e.0@, e.1@))
    }

    /// The periods asked of the requester so far, in order, each with the
    /// name of its instrument.
    pub closed spec fn requests(&self) -> Seq<(Seq<char>, int, int)> {
        self.requested@
    }

    /// The fetches made so far, in order: each instrument's name, the
    /// period and the result.
    pub closed spec fn fetches(&self) -> Seq<(Seq<char>, int, int, Result<(), Error>)> {
        self.fetched@
    }

    /// What is cached for the instrument named `key`.
    pub open spec fn cached(&self, key: Seq<char>) -> Option<CacheView<T>> {
        spec_lookup(self.entries(), key)
    }

    fn find(&self, key: &String) -> (r: Option<usize>)
        ensures
            match r {
                Some(i) => spec_find(self.entries(), key@) == Some(i as int) && i < self.cache@.len(),
                None => spec_find(self.entries(), key@) is None,
            },
    {
        let mut i: usize = 0;
        while i < self.cache.len()
            invariant
                i <= self.cache@.len(),
                forall|j: int| 0 <= j < i ==> self.entries()[j].0 != key@,
            decreases self.cache@.len() - i,
        {
            if self.cache[i].0 == *key {
                proof { lemma_find_unique(self.entries(), key@, i as int); }
                return Some(i);
            }
            i = i + 1;
        }
        proof { lemma_find_none(self.entries(), key@); }
        None
    }

    /// Adds the quotes `data` of `instrument`, obtained for the period from
    /// `begin` to `end`, to its cache (see `CacheInstrument::insert`), or
    /// caches them as they are when the instrument is not cached yet. Other
    /// instruments' caches are left as they are.
    pub fn record_quotes(&mut self, instrument: &Instrument, begin: Date, end: Date, data: Vec<(Date, T)>)
        ensures
            forall|k: Seq<char>| k != instrument.name@ ==> #[trigger] final(self).cached(k) == old(self).cached(k),
            final(self).cached(instrument.name@) == Some(
                match old(self).cached(instrument.name@) {
                    Some(c) => spec_insert(c, begin@, end@, data@),
                    None => (begin@, end@, data@),
                },
            ),
            final(self).requests() == old(self).requests(),
            final(self).fetches() == old(self).fetches(),
    {
        let ghost name = instrument.name@;
        let ghost initial = self.entries();
        proof { lemma_find(initial, name); }
        match self.find(&instrument.name) {
            Some(i) => {
                let mut item = self.cache.remove(i);
                item.1.insert(begin, end, data);
                let ghost entry = (item.0@, item.1@);
                self.cache.insert(i, item);
                proof {
                    assert(self.entries() =~= initial.update(i as int, entry));
                    assert forall|k: Seq<char>| k != name implies #[trigger] spec_lookup(self.entries(), k) == spec_lookup(initial, k) by {
                        lemma_find_update(initial, i as int, entry, k);
                        lemma_find(initial, k);
                    }
                    lemma_find_update(initial, i as int, entry, name);
                }
            },
            None => {
                let item = CacheInstrument::new(begin, end, data);
                let ghost entry = (name, item@);
                self.cache.push((instrument.name.clone(), item));
                proof {
                    assert(self.entries() =~= initial.push(entry));
                    assert forall|k: Seq<char>| k != name implies #[trigger] spec_lookup(self.entries(), k) == spec_lookup(initial, k) by {
                        lemma_find_push(initial, entry, k);
                        lemma_find(initial, k);
                    }
                    lemma_find_push(initial, entry, name);
                }
            },
        }
    }

    /// The part of the period from `begin` to `end` to request for
    /// `instrument`: what its cache lacks of it (`None` when the cache holds
    /// it all), or the whole period when it is not cached.
    pub fn missing_period(&self, instrument: &Instrument, begin: Date, end: Date) -> (r: Option<(Date, Date)>)
        ensures
            match self.cached(instrument.name@) {
                Some(c) => match spec_not_in_cache(c, begin@, end@) {
                    Some(m) => r matches Some((b, e)) && b@ == m.0 && e@ == m.1,
                    None => r is None,
                },
                None => r == Some((begin, end)),
            },
    {
        proof { lemma_find(self.entries(), instrument.name@); }
        match self.find(&instrument.name) {
            Some(i) => self.cache[i].1.not_in_cache(begin, end),
            None => Some((begin, end)),
        }
    }

    /// Takes in the quotes `data` received for `instrument` over the period
    /// from `begin` to `end`: nothing is done with none; otherwise they are
    /// saved in the persistence and, once saved, added to the cache as
    /// `record_quotes` does. The persistence's error is returned as it
    /// comes, with the cache left as it was.
    pub fn receive_quotes(&mut self, instrument: &Instrument, begin: Date, end: Date, data: Vec<(Date, T)>) -> (r: Result<(), Error>)
        ensures
            forall|k: Seq<char>| k != instrument.name@ ==> #[trigger] final(self).cached(k) == old(self).cached(k),
            data@.len() == 0 ==> r is Ok && final(self).cached(instrument.name@) == old(self).cached(instrument.name@),
            data@.len() > 0 ==> match r {
                Ok(_) => final(self).cached(instrument.name@) == Some(
                    match old(self).cached(instrument.name@) {
                        Some(c) => spec_insert(c, begin@, end@, data@),
                        None => (begin@, end@, data@),
                    },
                ),
                Err(_) => final(self).cached(instrument.name@) == old(self).cached(instrument.name@),
            },
            final(self).requests() == old(self).requests(),
            final(self).fetches() == old(self).fetches(),
    {
        if data.len() == 0 {
            return Ok(());
        }
        match self.persistence.save(instrument, &data) {
            Err(err) => Err(err),
            Ok(()) => {
                self.record_quotes(instrument, begin, end, data);
                Ok(())
            },
        }
    }

    /// The work of `fetch`: the instrument's cache is first loaded from the
    /// persistence when it is not cached yet; then only the part of the
    /// period that the cache lacks (`missing_period`) is requested, and the
    /// quotes received are taken in by `receive_quotes`.
    fn fetch_missing(&mut self, instrument: &Instrument, begin: Date, end: Date) -> (r: Result<(), Error>)
        ensures
            forall|k: Seq<char>| k != instrument.name@ ==> #[trigger] final(self).cached(k) == old(self).cached(k),
            keeps_cached(old(self).cached(instrument.name@), final(self).cached(instrument.name@)),
            spec_fetch_outcome(old(self).cached(instrument.name@), begin@, end@, final(self).cached(instrument.name@)),
            old(self).cached(instrument.name@) matches Some(c) ==> (spec_not_in_cache(c, begin@, end@) is None
                ==> r is Ok && final(self).cached(instrument.name@) == Some(c)),
            exists|asked: Seq<(int, int)>|
                #[trigger] spec_fetch_requests(
                    old(self).cached(instrument.name@),
                    begin@,
                    end@,
                    final(self).cached(instrument.name@),
                    asked,
                ) && final(self).requests() == old(self).requests() + named_requests(instrument.name@, asked),
            final(self).fetches() == old(self).fetches(),
    {
        let ghost name = instrument.name@;
        let ghost before = self.cached(name);
        let ghost start = self.requests();
        if self.find(&instrument.name).is_none() {
            match self.persistence.load(instrument) {
                Err(err) => {
                    proof {
                        assert(spec_fetch_requests(before, begin@, end@, self.cached(name), seq![]));
                        assert(self.requests() =~= start + named_requests(name, seq![]));
                    }
                    return Err(err);
                },
                Ok(Some((db_begin, db_end, db_result))) => {
                    self.record_quotes(instrument, db_begin, db_end, db_result);
                },
                Ok(None) => {},
            }
        }
        let ghost loaded = self.cached(name);
        proof {
            if let Some(s) = loaded {
                assert(spec_extended(s, begin@, end@, loaded));
            }
        }
        match self.missing_period(instrument, begin, end) {
            None => {
                proof {
                    assert(spec_fetch_requests(before, begin@, end@, self.cached(name), seq![]));
                    assert(self.requests() =~= start + named_requests(name, seq![]));
                }
                Ok(())
            },
            Some((request_begin, request_end)) => {
                let ghost requesting = *self;
                self.requested = Ghost(self.requested@.push((name, request_begin@, request_end@)));
                proof {
                    assert(self.entries() == requesting.entries());
                    assert forall|k: Seq<char>| #[trigger] self.cached(k) == requesting.cached(k) by {}
                }
                let ghost asked = seq![(request_begin@, request_end@)];
                proof {
                    assert(self.requests() =~= start + named_requests(name, asked));
                }
                let result = match self.requester.request(instrument, request_begin, request_end) {
                    Err(err) => Err(err),
                    Ok((_result_begin, _result_end, result_data)) => {
                        self.receive_quotes(instrument, request_begin, request_end, result_data)
                    },
                };
                proof {
                    let after = self.cached(name);
                    if let Some(s) = loaded {
                        assert(spec_extended(s, begin@, end@, after));
                    }
                    assert(spec_fetch_requests(before, begin@, end@, after, asked));
                }
                result
            },
        }
    }

    /// An empty cache in front of `requester` and `persistence`.
    pub fn new(requester: R, persistence: &'a P) -> (r: Self)
        ensures
            forall|key: Seq<char>| r.cached(key) is None,
            r.requests().len() == 0,
            r.fetches().len() == 0,
    {
        HistoricalData {
            requester,
            persistence,
            cache: Vec::new(),
            requested: Ghost(Seq::empty()),
            fetched: Ghost(Seq::empty()),
        }
    }
}

impl<'a, T, R: Requester<T>, P: Persistance<T>> Provider<T> for HistoricalData<'a, T, R, P> {
    /// Makes sure the quotes of `instrument` from `begin` to `end` are
    /// cached. The instrument's cache is first loaded from the persistence
    /// when it is not cached yet; then only the part of the period that the
    /// cache lacks (`missing_period`) is requested, and the quotes received
    /// are taken in by `receive_quotes`. Nothing is requested when the
    /// cache already holds the whole period, and the result is then `Ok`.
    /// Errors of the persistence and of the requester are returned as they
    /// come. Other instruments' caches are left as they are, and what was
    /// cached stays cached. The requests made are logged in `requests`,
    /// and the fetch with its result in `fetches`.
    fn fetch(&mut self, instrument: &Instrument, begin: Date, end: Date) -> (r: Result<(), Error>)
        ensures
            forall|k: Seq<char>| k != instrument.name@ ==> #[trigger] final(self).cached(k) == old(self).cached(k),
            keeps_cached(old(self).cached(instrument.name@), final(self).cached(instrument.name@)),
            spec_fetch_outcome(old(self).cached(instrument.name@), begin@, end@, final(self).cached(instrument.name@)),
            old(self).cached(instrument.name@) matches Some(c) ==> (spec_not_in_cache(c, begin@, end@) is None
                ==> r is Ok && final(self).cached(instrument.name@) == Some(c)),
            exists|asked: Seq<(int, int)>|
                #[trigger] spec_fetch_requests(
                    old(self).cached(instrument.name@),
                    begin@,
                    end@,
                    final(self).cached(instrument.name@),
                    asked,
                ) && final(self).requests() == old(self).requests() + named_requests(instrument.name@, asked),
            final(self).fetches() == old(self).fetches().push((instrument.name@, begin@, end@, r)),
    {
        let r = self.fetch_missing(instrument, begin, end);
        let ghost fetching = *self;
        self.fetched = Ghost(self.fetched@.push((instrument.name@, begin@, end@, r)));
        proof {
            assert(self.entries() == fetching.entries());
            assert forall|k: Seq<char>| #[trigger] self.cached(k) == fetching.cached(k) by {}
        }
        r
    }

    /// The last quote of `instrument` (in its cache's order) dated no later
    /// than `date`; `None` when the instrument is not cached or has no
    /// quote that early.
    fn latest(&self, instrument: &Instrument, date: Date) -> (r: Option<&(Date, T)>)
        ensures
            match self.cached(instrument.name@) {
                Some(c) => match spec_latest_index(c.2, date@) {
                    Some(i) => r == Some(&c.2[i]),
                    None => r is None,
                },
                None => r is None,
            },
    {
        match self.find(&instrument.name) {
            Some(i) => self.cache[i].1.latest(date),
            None => None,
        }
    }

}

} // verus!
