//! Portfolio pricing: calendar logic, historical market-data caching and
//! the referential of instruments, with their contracts proved by Verus.

pub mod date;
pub mod error;
pub mod historical;
pub mod marketdata;
pub mod portfolio;
pub mod pricer;
pub mod referential;
pub mod report;
pub mod timeline;
