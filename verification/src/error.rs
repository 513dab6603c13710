//! The failures that the engine reports instead of crashing.
use vstd::prelude::*;

verus! {

/// Why a call was refused. A refused call changes nothing.
#[derive(Clone, Copy, Debug, PartialEq, Eq, Structural)]
pub enum Error {
    /// The arguments cannot be worked on: no literal fragment at all, or a
    /// negative size.
    InvalidInput,
    /// A fragment's bytes are not UTF-8.
    InvalidText,
    /// Memory was used against the ownership protocol: a pointer that is not
    /// live in the arena, a range that leaves its region, or a release with a
    /// size other than the one the region was reserved with.
    MemoryMisuse,
}

} // verus!
