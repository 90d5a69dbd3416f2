//! A verified company directory.
//!
//! Companies are keyed by a store-assigned surrogate id (`sid`) and,
//! optionally, by an externally assigned regulatory id (`cik`). The directory
//! store keeps aliases, tags, websites (with a captcha flag) and a career page
//! per company, offers deduplicating upsert, cascading delete, and a queue of
//! companies that have no website yet; a discovery worker turns such a company
//! into a discovered one from the outcome of an external web search.

pub mod company;
pub mod discovery;
pub mod laws;
pub mod scraper;
pub mod serp;
pub mod store;
pub mod strings;
pub mod tables;
