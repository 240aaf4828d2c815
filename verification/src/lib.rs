//! Cheapest-combination engine for a player-driven marketplace.
//!
//! Given the current sell listings for an item at a location, the engine
//! answers "what is the cheapest set of listings that together supply at
//! least N units?", optionally restricted to high-quality stock.  Around
//! that optimizer sit a TTL-based result cache and a request-coalescing
//! layer that keeps at most one computation per distinct query in flight.
//!
//! The crate holds the data model, the cache, the combinatorial search and
//! the coalescing state machine; fetching listings from the remote
//! marketplace and the HTTP surface are left to the embedding program.

pub mod cache;
pub mod catalog;
pub mod engine;
pub mod listing;
pub mod search;
