//! The ways an operation of this crate can fail.

use vstd::prelude::*;

verus! {

/// Why an operation was refused.
#[derive(Debug, Clone, Copy, PartialEq, Eq, Structural)]
pub enum BitmapError {
    /// A bit index at or beyond the length, or a byte index at or beyond
    /// an eighth of it.
    IndexOutOfRange,
    /// The system's entropy device could not be opened, or gave too few bytes.
    EntropyUnavailable,
}

} // verus!
