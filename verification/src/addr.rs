//! A bit-granular coordinate into an element array: an element location
//! plus a validated bit index, with arithmetic that rolls over element
//! boundaries in both directions.

use crate::bits::width_ok;
use crate::index::BitIndex;
use vstd::prelude::*;

verus! {

/// A coordinate naming one bit of an element array.  It does not own the
/// storage it points into; it is only valid together with a store whose
/// element width matches `self.index.spec_width()`.
#[derive(Clone, Copy, Debug, PartialEq, Eq, Structural)]
pub struct BitAddress {
    /// Which element of the array.
    pub elem: usize,
    /// Which bit inside that element.
    pub index: BitIndex,
}

impl BitAddress {
    /// The invariant every constructed `BitAddress` carries.
    pub open spec fn wf(self) -> bool {
        self.index.wf()
    }

    /// The element width this address counts bits in.
    pub open spec fn spec_width(self) -> usize {
        self.index.spec_width()
    }

    /// The absolute bit position this address names, counting from bit 0
    /// of element 0.
    pub open spec fn abs_pos(self) -> int {
        self.elem * self.spec_width() + self.index.spec_value()
    }

    /// Builds an address from an element location and a bit index.
    pub fn new(elem: usize, index: BitIndex) -> (r: BitAddress)
        requires
            index.wf(),
        ensures
            r.wf(),
            r.elem == elem,
            r.index == index,
    {
        BitAddress { elem, index }
    }

    /// Builds the address of an absolute bit position.
    pub fn from_abs(width: usize, pos: usize) -> (r: BitAddress)
        requires
            width_ok(width),
        ensures
            r.wf(),
            r.spec_width() == width,
            r.abs_pos() == pos,
    {
        let elem = pos / width;
        let value = pos % width;
        let ix = match BitIndex::new(width, value) {
            Ok(ix) => ix,
            Err(_) => BitIndex::zero(width),
        };
        BitAddress { elem, index: ix }
    }

    /// Moves the address by `n` bits — forward for positive `n`,
    /// backward for negative — rolling over element boundaries in both
    /// directions.  The result must stay inside the addressable range.
    pub fn advance(self, n: i128) -> (r: BitAddress)
        requires
            self.wf(),
            self.abs_pos() <= usize::MAX,
            0 <= self.abs_pos() + n <= usize::MAX,
        ensures
            r.wf(),
            r.spec_width() == self.spec_width(),
            r.abs_pos() == self.abs_pos() + n,
    {
        let w = self.index.width();
        let abs = self.elem * w + self.index.value();
        let moved = (abs as i128) + n;
        BitAddress::from_abs(w, moved as usize)
    }

    /// Moves the address backward by `n` bits, rolling over element
    /// boundaries as needed.  The address cannot retreat past bit 0 of
    /// element 0.
    pub fn retreat(self, n: usize) -> (r: BitAddress)
        requires
            self.wf(),
            n <= self.abs_pos(),
            self.abs_pos() <= usize::MAX,
        ensures
            r.wf(),
            r.spec_width() == self.spec_width(),
            r.abs_pos() == self.abs_pos() - n,
    {
        let w = self.index.width();
        let abs = self.elem * w + self.index.value();
        BitAddress::from_abs(w, abs - n)
    }

    /// The signed bit count from `other` up to `self`: positive when
    /// `self` names a later bit, negative when it names an earlier one.
    pub fn distance_in_bits(self, other: BitAddress) -> (r: i128)
        requires
            self.wf(),
            other.wf(),
            self.spec_width() == other.spec_width(),
            self.abs_pos() <= usize::MAX,
            other.abs_pos() <= usize::MAX,
        ensures
            r == self.abs_pos() - other.abs_pos(),
    {
        let w = self.index.width();
        let a = self.elem * w + self.index.value();
        let b = other.elem * w + other.index.value();
        (a as i128) - (b as i128)
    }
}

} // verus!
