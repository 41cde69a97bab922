//! Local document search: BM25 keyword ranking, reciprocal rank fusion,
//! incremental index diffs and the stores they work on.
use vstd::prelude::*;

pub mod config;
pub mod embedding;
pub mod extract;
pub mod index;
pub mod loader;
pub mod search;
pub mod text;
pub mod tokenizer;

pub use config::SearchMode;
pub use loader::Document;

verus! {

/// Library version.
pub const VERSION: &'static str = "0.1.0";

/// Library name.
pub const NAME: &'static str = "digrag";

} // verus!
