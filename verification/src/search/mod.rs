//! Searching an index.

pub mod document;
pub mod filters;
pub mod pattern;
pub mod results;
pub mod snippet;
pub mod searcher;
pub mod laws;
