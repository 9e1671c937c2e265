//! Package search results: extraction from search-result markup, local
//! inventory parsing, download statistics with a retry policy, and the
//! merge and ordering of the final result list.

pub mod model;
pub mod order;
pub mod extract;
pub mod search;
pub mod inventory;
pub mod stats;
