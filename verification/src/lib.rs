//! A verified core for a same-domain image crawler.
//!
//! URLs and page markup are carried as UTF-8 byte vectors. The crate
//! resolves link references, extracts image and anchor URLs from markup,
//! validates image URLs by extension, derives safe download filenames,
//! and drives a depth-bounded, deduplicating crawl over a work list.
//! Network and filesystem work stays outside; the outside crates that
//! parse URLs and markup are reached through a few trusted wrappers.

pub mod bytes;
pub mod urls;
pub mod validate;
pub mod filename;
pub mod scrape;
pub mod extract;
pub mod crawl;
