//! Bit-ordering policies: the pure bijection between a semantic bit
//! position inside an element and the shift amount that reaches it.

use vstd::prelude::*;

verus! {

/// A bit-ordering policy for one storage element.
///
/// `Lsb0` puts position 0 at the numerically least significant bit;
/// `Msb0` puts position 0 at the numerically most significant bit.
/// Both are pure functions of the element width and the position alone.
#[derive(Clone, Copy, Debug, PartialEq, Eq, Structural)]
pub enum BitOrder {
    /// Position 0 is the least significant bit.
    Lsb0,
    /// Position 0 is the most significant bit.
    Msb0,
}

/// The shift amount that reaches semantic position `pos` in a `w`-bit element.
pub open spec fn spec_to_shift(o: BitOrder, w: usize, pos: usize) -> usize {
    match o {
        BitOrder::Lsb0 => pos,
        BitOrder::Msb0 => (w - 1 - pos) as usize,
    }
}

/// The semantic position that a shift amount `sh` addresses in a `w`-bit element.
pub open spec fn spec_to_position(o: BitOrder, w: usize, sh: usize) -> usize {
    match o {
        BitOrder::Lsb0 => sh,
        BitOrder::Msb0 => (w - 1 - sh) as usize,
    }
}

impl BitOrder {
    /// Maps a semantic bit position to its shift amount.
    pub fn to_shift(self, w: usize, pos: usize) -> (r: usize)
        requires
            pos < w,
        ensures
            r == spec_to_shift(self, w, pos),
            r < w,
    {
        match self {
            BitOrder::Lsb0 => pos,
            BitOrder::Msb0 => w - 1 - pos,
        }
    }

    /// Maps a shift amount back to the semantic bit position it addresses.
    pub fn to_position(self, w: usize, sh: usize) -> (r: usize)
        requires
            sh < w,
        ensures
            r == spec_to_position(self, w, sh),
            r < w,
    {
        match self {
            BitOrder::Lsb0 => sh,
            BitOrder::Msb0 => w - 1 - sh,
        }
    }
}

/// For every policy and every width, `to_position` and `to_shift` are
/// mutual inverses over the whole `0..w` domain, and distinct positions
/// map to distinct shifts.
pub proof fn lemma_order_roundtrip(o: BitOrder, w: usize, pos: usize, sh: usize)
    requires
        pos < w,
        sh < w,
    ensures
        spec_to_position(o, w, spec_to_shift(o, w, pos)) == pos,
        spec_to_shift(o, w, spec_to_position(o, w, sh)) == sh,
        spec_to_shift(o, w, pos) < w,
        spec_to_position(o, w, sh) < w,
{
}

} // verus!
