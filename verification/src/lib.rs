//! Aggregated player-drop statistics: a canonical player identity that parses
//! several external notations, layered expiring caches with single-flight
//! recomputation, ranked per-player stats with a two-tier fallback, weighted
//! name search with de-duplication, and vanity-name resolution decisions.
use vstd::prelude::*;

pub mod cache;
pub mod data;
pub mod digits;
pub mod error;
pub mod search;
pub mod service;
pub mod steam_id;

pub use crate::data::{DropStats, GlobalStats, SearchParams, TopOrder, TopStats};
pub use crate::search::SearchResult;
pub use crate::service::DataSource;
pub use crate::error::DropsError;
pub use crate::steam_id::SteamId;

verus! {

/// View model of the leaderboard page: the rows of one ordering beside the
/// global aggregates. Rendering itself is the HTTP layer's business.
pub struct IndexTemplate<'a> {
    pub top: &'a [TopStats],
    pub stats: GlobalStats,
}

/// View model of the per-player page.
pub struct PlayerTemplate {
    pub stats: DropStats,
}

/// View model of the error page.
pub struct ErrorTemplate {
    pub error: String,
}

} // verus!
