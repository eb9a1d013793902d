//! Regional restaurant-inspection directory core.
//!
//! The crate models the ingest -> normalize -> index -> rank pipeline of a
//! multi-jurisdiction food-safety directory together with the query engine it
//! feeds: deduplication and stitching of source records, trust-score
//! derivation, snapshot search with facet counts, vote aggregation, top-picks
//! ordering, and the sliding-window rate limiter that guards the write path.
//! Instants are carried as milliseconds since the Unix epoch and coordinates
//! as microdegrees, so every rule is stated over plain integers and strings.

pub mod entities;
pub mod api;
pub mod directory;
pub mod dto;
pub mod errors;
pub mod rate_limit;
pub mod records;
pub mod search;
pub mod store;
pub mod ingestion;
pub mod numbers;
pub mod text;
pub mod trust_score;
