//! The quotes cached for one instrument, over the period they were
//! requested for.
use crate::date::Date;
use vstd::prelude::*;

verus! {

/// The cached period and quotes of an instrument: its first and last day
/// numbers and its dated quotes.
pub type CacheView<T> = (int, int, Seq<(Date, T)>);

/// The quotes of an instrument for the period from `begin` to `end`, in
/// the order they were obtained.
pub struct CacheInstrument<T> {
    pub begin: Date,
    pub end: Date,
    pub data: Vec<(Date, T)>,
}

impl<T> View for CacheInstrument<T> {
    type V = CacheView<T>;

    open spec fn view(&self) -> CacheView<T> {
        (self.begin@, self.end@, self.data@)
    }
}

/// The cache holds the whole period from `begin` to `end`.
pub open spec fn spec_covers<T>(cache: CacheView<T>, begin: int, end: int) -> bool {
    cache.0 <= begin && end <= cache.1
}

/// The part of the period from `begin` to `end` that the cache lacks and
/// that must be requested: from the requested begin when it precedes the
/// cache (up to the requested end when it passes the cache's end, else up
/// to the cache's end), else from the day after the cache's end up to the
/// requested end when it passes it; nothing when the cache holds it all.
pub open spec fn spec_not_in_cache<T>(cache: CacheView<T>, begin: int, end: int) -> Option<(int, int)> {
    if begin < cache.0 {
        if end > cache.1 {
            Some((begin, end))
        } else {
            Some((begin, cache.1))
        }
    } else if end > cache.1 {
        Some((cache.1 + 1, end))
    } else {
        None
    }
}

/// The cache after adding the quotes `data` obtained for the period from
/// `begin` to `end`: a period reaching beyond both ends replaces the cache;
/// one starting earlier is put before it; one ending later is put after it;
/// one inside it changes nothing.
pub open spec fn spec_insert<T>(cache: CacheView<T>, begin: int, end: int, data: Seq<(Date, T)>) -> CacheView<T> {
    if begin < cache.0 {
        if end > cache.1 {
            (begin, end, data)
        } else {
            (begin, cache.1, data + cache.2)
        }
    } else if end > cache.1 {
        (cache.0, end, cache.2 + data)
    } else {
        cache
    }
}

/// The position of the last quote dated no later than `date`, if any.
pub open spec fn spec_latest_index<T>(data: Seq<(Date, T)>, date: int) -> Option<int>
    decreases data.len(),
{
    if data.len() == 0 {
        None
    } else if data.last().0@ <= date {
        Some(data.len() - 1)
    } else {
        spec_latest_index(data.drop_last(), date)
    }
}

/// The quote found for a date is dated no later than it, and every quote
/// after it in the cache is dated later; when none is found, every quote is
/// dated later.
pub proof fn lemma_latest_index<T>(data: Seq<(Date, T)>, date: int)
    ensures
        match spec_latest_index(data, date) {
            Some(i) => 0 <= i < data.len() && data[i].0@ <= date && forall|j: int|
                i < j < data.len() ==> data[j].0@ > date,
            None => forall|j: int| 0 <= j < data.len() ==> data[j].0@ > date,
        },
    decreases data.len(),
{
    if data.len() > 0 && data.last().0@ > date {
        lemma_latest_index(data.drop_last(), date);
        assert forall|j: int| 0 <= j < data.len() - 1 implies data[j] == data.drop_last()[j] by {}
    }
}

impl<T> CacheInstrument<T> {
    /// A cache of the quotes `data` for the period from `begin` to `end`.
    pub fn new(begin: Date, end: Date, data: Vec<(Date, T)>) -> (r: Self)
        ensures
            r@ == (begin@, end@, data@),
    {
        CacheInstrument { begin, end, data }
    }

    /// The last quote (in the cache's order) dated no later than `date`.
    pub fn latest(&self, date: Date) -> (r: Option<&(Date, T)>)
        ensures
            match spec_latest_index(self.data@, date@) {
                Some(i) => r == Some(&self.data@[i]),
                None => r is None,
            },
    {
        let mut i = self.data.len();
        assert(self.data@.take(i as int) =~= self.data@);
        while i > 0
            invariant
                i <= self.data@.len(),
                spec_latest_index(self.data@, date@) == spec_latest_index(self.data@.take(i as int), date@),
            decreases i,
        {
            let item = &self.data[i - 1];
            proof {
                let prefix = self.data@.take(i as int);
                assert(prefix.drop_last() =~= self.data@.take(i - 1));
            }
            if !date.is_before(&item.0) {
                return Some(item);
            }
            i = i - 1;
        }
        None
    }

    /// Adds the quotes `data` obtained for the period from `begin` to `end`:
    /// they replace the cache when the period reaches beyond both its ends,
    /// go before it when the period starts earlier, after it when the period
    /// ends later, and are dropped when the cache already holds the period.
    pub fn insert(&mut self, begin: Date, end: Date, data: Vec<(Date, T)>)
        ensures
            final(self)@ == spec_insert(old(self)@, begin@, end@, data@),
    {
        let mut data = data;
        if begin.is_before(&self.begin) {
            if self.end.is_before(&end) {
                self.begin = begin;
                self.end = end;
                self.data = data;
            } else {
                self.begin = begin;
                data.append(&mut self.data);
                self.data = data;
            }
        } else if self.end.is_before(&end) {
            self.data.append(&mut data);
            self.end = end;
        }
    }

    /// The part of the period from `begin` to `end` that the cache lacks,
    /// or `None` when it holds the whole period.
    pub fn not_in_cache(&self, begin: Date, end: Date) -> (r: Option<(Date, Date)>)
        ensures
            match r {
                Some((b, e)) => spec_not_in_cache(self@, begin@, end@) == Some((b@, e@)),
                None => spec_not_in_cache(self@, begin@, end@) is None,
            },
    {
        if begin.is_before(&self.begin) {
            if self.end.is_before(&end) {
                Some((begin, end))
            } else {
                Some((begin, self.end))
            }
        } else if self.end.is_before(&end) {
            Some((self.end.checked_add_days(1).unwrap(), end))
        } else {
            None
        }
    }
}

/// The cache lacks nothing of a period exactly when it holds it whole.
pub proof fn lemma_not_in_cache_iff_covered<T>(cache: CacheView<T>, begin: int, end: int)
    ensures
        spec_not_in_cache(cache, begin, end) is None <==> spec_covers(cache, begin, end),
{
}

/// Adding the quotes obtained for the period the cache lacks (whatever
/// they are) leaves the cache holding the whole requested period.
pub proof fn lemma_insert_missing_covers<T>(
    cache: CacheView<T>,
    begin: int,
    end: int,
    data: Seq<(Date, T)>,
)
    requires
        spec_not_in_cache(cache, begin, end) is Some,
    ensures
        ({
            let (b, e) = spec_not_in_cache(cache, begin, end).unwrap();
            spec_covers(spec_insert(cache, b, e, data), begin, end)
        }),
{
}

/// Adding quotes never loses the quotes already cached: they stay, in
/// their order, between the quotes added before and after them.
pub proof fn lemma_insert_keeps_or_replaces<T>(
    cache: CacheView<T>,
    begin: int,
    end: int,
    data: Seq<(Date, T)>,
)
    ensures
        ({
            let r = spec_insert(cache, begin, end, data);
            ||| r.2 == data + cache.2
            ||| r.2 == cache.2 + data
            ||| r.2 == cache.2
            ||| (r.0 == begin && r.1 == end && begin < cache.0 && end > cache.1)
        }),
        spec_insert(cache, begin, end, data).0 <= cache.0,
        spec_insert(cache, begin, end, data).1 >= cache.1,
{
}

} // verus!
