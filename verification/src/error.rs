//! What can go wrong with recorded results.
use vstd::prelude::*;

verus! {

/// Why a request for results failed.
#[derive(Debug)]
pub enum GafferError {
    /// What was given does not make sense.
    Parse(String),
    /// There is nothing to look at.
    NotFound(String),
}

} // verus!
