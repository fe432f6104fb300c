//! Historical market data: a per-instrument cache of dated quotes that
//! knows which part of a requested period it lacks, in front of a
//! requester and a persistence.

mod cache_instrument;
mod provider;
mod yahoo;

pub use cache_instrument::{
    lemma_insert_keeps_or_replaces, lemma_insert_missing_covers, lemma_latest_index,
    lemma_not_in_cache_iff_covered, spec_covers, spec_insert, spec_latest_index,
    spec_not_in_cache, CacheInstrument, CacheView,
};
pub use yahoo::{ChartBlock, DailyPrices, QuoteSeries, YahooRequester};
pub use provider::{
    keeps_cached, named_requests, requested_for, spec_extended, spec_fetch_outcome, spec_fetch_requests, spec_find,
    HistoricalData, NullRequester, Persistance, Provider, Requester,
};
