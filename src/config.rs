//! Search configuration: the modes a query can be answered in.
use vstd::prelude::*;

use crate::text::str_eq;

verus! {

/// How a query is answered.
#[derive(Clone, Copy, Debug, PartialEq, Eq, Structural)]
pub enum SearchMode {
    /// Keyword ranking with BM25.
    Bm25,
    /// Cosine similarity of embeddings.
    Semantic,
    /// Both, fused by reciprocal rank fusion.
    Hybrid,
}

impl Default for SearchMode {
    fn default() -> (r: Self)
        ensures
            r == SearchMode::Hybrid,
    {
        SearchMode::Hybrid
    }
}

impl SearchMode {
    /// The mode a request names: `semantic` or `hybrid`; anything else is BM25.
    pub fn from_name(name: &str) -> (r: Self)
        ensures
            name@ == "semantic"@ ==> r == SearchMode::Semantic,
            name@ == "hybrid"@ ==> r == SearchMode::Hybrid,
            name@ != "semantic"@ && name@ != "hybrid"@ ==> r == SearchMode::Bm25,
    {
        proof {
            reveal_strlit("semantic");
            reveal_strlit("hybrid");
            assert("semantic"@.len() != "hybrid"@.len());
        }
        if str_eq(name, "semantic") {
            SearchMode::Semantic
        } else if str_eq(name, "hybrid") {
            SearchMode::Hybrid
        } else {
            SearchMode::Bm25
        }
    }
}

} // verus!
