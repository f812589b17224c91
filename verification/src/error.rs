//! The error that a positional operation reports.

use vstd::prelude::*;

verus! {

/// A position that the array does not have.
#[derive(Clone, Copy, Debug, PartialEq, Eq)]
pub struct IndexOutOfBounds {
    /// The position that was asked for.
    pub index: usize,
    /// The number of elements in the array.
    pub len: usize,
}

} // verus!
