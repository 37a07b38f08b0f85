//! A validated bit position inside one storage element.

use crate::bits::width_ok;
use crate::errors::OutOfRangeError;
use vstd::prelude::*;

verus! {

/// A bit position inside a single storage element, always strictly below
/// the element's width.  Values that break that bound are rejected by the
/// checked factory and are never representable afterwards.
#[derive(Clone, Copy, Debug, PartialEq, Eq, Structural)]
pub struct BitIndex {
    /// The width, in bits, of the element this index points into.
    width: usize,
    /// The position, always `< width`.
    value: usize,
}

impl BitIndex {
    /// The stored position.
    pub closed spec fn spec_value(self) -> usize {
        self.value
    }

    /// The stored element width.
    pub closed spec fn spec_width(self) -> usize {
        self.width
    }

    /// The invariant every constructed `BitIndex` carries.
    pub open spec fn wf(self) -> bool {
        width_ok(self.spec_width()) && self.spec_value() < self.spec_width()
    }

    /// Builds a `BitIndex`, rejecting any `value` at or past `width`.
    pub fn new(width: usize, value: usize) -> (r: Result<BitIndex, OutOfRangeError>)
        requires
            width_ok(width),
        ensures
            r is Ok <==> value < width,
            r matches Ok(ix) ==> ix.wf() && ix.spec_value() == value && ix.spec_width() == width,
            r matches Err(e) ==> e.value == value && e.width == width,
    {
        if value < width {
            Ok(BitIndex { width, value })
        } else {
            Err(OutOfRangeError::new(value, width))
        }
    }

    /// The position of the lowest bit of the element.
    pub fn zero(width: usize) -> (r: BitIndex)
        requires
            width_ok(width),
        ensures
            r.wf() && r.spec_value() == 0 && r.spec_width() == width,
    {
        BitIndex { width, value: 0 }
    }

    /// Reads the position back out.
    pub fn value(self) -> (r: usize)
        ensures
            r == self.spec_value(),
    {
        self.value
    }

    /// Reads the element width back out.
    pub fn width(self) -> (r: usize)
        ensures
            r == self.spec_width(),
    {
        self.width
    }
}

} // verus!
