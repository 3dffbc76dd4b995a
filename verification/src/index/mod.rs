//! Indexing a workspace: where its index lives, how a run over its files is counted, what goes
//! into a semantic index, and what is noted down about the run.

pub mod embedding;
pub mod incremental;
pub mod location;
pub mod metadata;
pub mod run;
pub mod schema;
pub mod steps;
