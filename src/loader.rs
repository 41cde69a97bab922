//! Documents as loaded from a corpus.
pub mod changelog;
pub mod document;


pub use document::{Document, Metadata, Timestamp};
