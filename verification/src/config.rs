//! Configuration.

use vstd::prelude::*;

verus! {

/// How a search is limited.
#[derive(Debug, Clone, Copy)]
pub struct SearchConfig {
    /// How many hits a search gives that asks for no number.
    pub default_limit: usize,
    /// How many hits a search gives at most.
    pub max_limit: usize,
}

} // verus!
