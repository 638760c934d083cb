//! Error types: recoverable data conditions are reported through these,
//! never through panics; contract violations are excluded by preconditions.

use vstd::prelude::*;

verus! {

/// Failure of a slicing operation: the requested range does not fit in the
/// sliced storage.
#[derive(Debug, PartialEq, Eq, Clone, Copy)]
pub enum Error {
    SliceOutOfRange { len: usize, slice_start: u64, slice_end: u64 },
}

/// Recoverable conditions met while traversing a buffer: the data ran out,
/// or a byte-wise operation was asked of a view that is not byte-aligned.
#[derive(Debug, PartialEq, Eq, Clone, Copy)]
pub enum BufError {
    EndOfData,
    Misaligned,
    InvalidSeek,
}

} // verus!
