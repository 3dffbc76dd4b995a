//! Errors.

use vstd::prelude::*;

verus! {

/// What can go wrong, as far as it is decided here.
#[derive(Debug)]
pub enum YgrepError {
    /// Something is not set up as it should be.
    Config(String),
    /// A search that cannot be carried out.
    Search(String),
}

} // verus!
