//! Failures that the bookmark store and the overlay report.

use vstd::prelude::*;

verus! {

/// What can go wrong with a bookmark operation.
#[derive(Debug, Clone, Copy, PartialEq, Eq, Structural)]
pub enum HError {
    /// The persistence file could not be read or written.
    IoError,
    /// What was asked for is not there: a key without a bookmark, or an
    /// overlay without a pending path.
    NotFound,
    /// The user dismissed the overlay without a result.
    Cancelled,
}

pub type HResult<T> = Result<T, HError>;

} // verus!
