//! The tolerance band that tells current-generation plots from legacy files.

use vstd::prelude::*;

verus! {

/// Half-width of the tolerance band in bytes: the largest whole number of
/// bytes below 0.3 GiB.
pub const TOLERANCE_BYTES: u64 = 322_122_547;

/// A file is of the current generation when its size differs from the
/// reference size by no more than the tolerance.
pub open spec fn in_band(size: u64, reference: u64) -> bool {
    reference - TOLERANCE_BYTES <= size <= reference + TOLERANCE_BYTES
}

/// Tells whether a file of `size` bytes belongs to the current generation
/// anchored at `reference` bytes.
pub fn is_current_generation(size: u64, reference: u64) -> (within: bool)
    ensures
        within == in_band(size, reference),
{
    if size >= reference {
        size - reference <= TOLERANCE_BYTES
    } else {
        reference - size <= TOLERANCE_BYTES
    }
}

} // verus!
