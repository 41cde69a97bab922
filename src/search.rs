//! Ranking and fusion of search results.
pub mod fusion;
pub mod searcher;

pub use fusion::{FusedHit, ReciprocalRankFusion};
