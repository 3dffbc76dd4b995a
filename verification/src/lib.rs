//! The core of a code search tool, verified: which documents of a full-text index a query finds
//! and how they are shown, what indexing a workspace does with each file, and where an index lives.
//!
//! What touches the disk, the clock or the index itself is not here. It hands plain values to the
//! types of this crate and does what they say.

pub mod config;
pub mod error;
pub mod index;
pub mod path;
pub mod search;
pub mod text;
pub mod util;
pub mod workspace;

pub use config::SearchConfig;
pub use error::YgrepError;
pub use index::run::IndexStats;
pub use workspace::Workspace;
