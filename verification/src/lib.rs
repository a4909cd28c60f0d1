//! Verified core of the Newtron command bar: query normalisation, URL and
//! local-file match classification, search-result extraction, the TTL cache,
//! and the bookkeeping around history import and re-indexing.

pub mod text;
pub mod search;
pub mod index;
pub mod cache;
pub mod clock;
pub mod indexer;
pub mod rank;
pub mod assistant;
pub mod route;
pub mod window;
