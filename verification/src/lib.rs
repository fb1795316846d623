//! Watches a classifieds marketplace for multiple subscribers.
//!
//! Each subscriber registers free-text search queries; a scheduler decides
//! which queries are due each tick, a paginated scraper turns result pages
//! into structured listings, and a store keeps per-query cooldown
//! bookkeeping that is safe under concurrent additions and removals.
#![verifier::loop_isolation(false)]

pub mod commands;
pub mod dates;
pub mod extract;
pub mod pagination;
pub mod scheduler;
pub mod store;
pub mod text;
