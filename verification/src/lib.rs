//! Discovery of outbound links on a web site: a blocklist of domains, the
//! crawl's bookkeeping and link classification, and the state behind the
//! desktop front end.

pub mod text;
pub mod web;
pub mod filter;
pub mod crawler;
pub mod ui;

pub use crawler::{CrawlResult, CrawlStats, Crawler};
pub use filter::DomainFilter;
