//! The indices of a corpus and the metadata kept beside them.
pub mod bm25;
pub mod diff;
pub mod docstore;
pub mod metadata;
pub mod vector;
pub mod version;


pub use bm25::Bm25Index;
pub use diff::IncrementalDiff;
pub use docstore::Docstore;
pub use metadata::{DocHashes, IndexMetadata};
