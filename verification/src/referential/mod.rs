//! The referential: the currencies, markets and instruments loaded so far,
//! each kept once and shared, and the reading of its documents.

mod cache;
pub mod document;

pub use cache::{lemma_added_found, spec_first_match, Cache};
