//! The failure taxonomy of the addressing engine.  Every error is detected
//! at construction or encode time, never in the middle of a bulk operation,
//! so a caller never sees a partially completed mutation.

use vstd::prelude::*;

verus! {

/// A bit index at or past the width of its storage element.
#[derive(Clone, Copy, Debug, PartialEq, Eq, Structural)]
pub struct OutOfRangeError {
    /// The rejected index value.
    pub value: usize,
    /// The element width it was measured against.
    pub width: usize,
}

/// A region that would run past the end of its backing storage.
#[derive(Clone, Copy, Debug, PartialEq, Eq, Structural)]
pub struct OutOfBoundsError {
    /// The first bit past the storage that the region would have named.
    pub end_bit: usize,
    /// The number of bits the storage actually holds.
    pub total_bits: usize,
}

/// A value whose significant bits exceed the region meant to hold it.
#[derive(Clone, Copy, Debug, PartialEq, Eq, Structural)]
pub struct ValueTooWideError {
    /// The bit length of the target region.
    pub len: usize,
}

/// A mutable region that lands partway inside a storage element whose cells
/// have no atomic capability: the shared-access protocol cannot be honoured,
/// so construction fails fast instead of risking lost updates.
#[derive(Clone, Copy, Debug, PartialEq, Eq, Structural)]
pub struct UnsupportedAliasingError {
    /// The element index whose edge would have been shared.
    pub elem: usize,
}

impl OutOfRangeError {
    /// Records a rejected `(value, width)` pair.
    pub fn new(value: usize, width: usize) -> (r: Self)
        ensures
            r.value == value,
            r.width == width,
    {
        OutOfRangeError { value, width }
    }
}

impl OutOfBoundsError {
    /// Records a rejected region end against the storage size.
    pub fn new(end_bit: usize, total_bits: usize) -> (r: Self)
        ensures
            r.end_bit == end_bit,
            r.total_bits == total_bits,
    {
        OutOfBoundsError { end_bit, total_bits }
    }
}

impl ValueTooWideError {
    /// Records the region length a value failed to fit.
    pub fn new(len: usize) -> (r: Self)
        ensures
            r.len == len,
    {
        ValueTooWideError { len }
    }
}

impl UnsupportedAliasingError {
    /// Records the element whose edge lacked atomic capability.
    pub fn new(elem: usize) -> (r: Self)
        ensures
            r.elem == elem,
    {
        UnsupportedAliasingError { elem }
    }
}

} // verus!
