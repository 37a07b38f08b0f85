//! Packing and unpacking of multi-bit integer values across a region.
//!
//! A [`FieldCodec`] fixes a bit ordering and a bit-significance direction
//! for values that span more than one element.  `encode` refuses values
//! whose significant bits exceed the region instead of truncating them,
//! and `decode` is proven to invert `encode` for every value that fits.

use crate::bits::{
    bit_get, lemma_bit_get_ext, lemma_keep_low_bits, lemma_zero_bit, ones, read_bit, write_bit,
};
use crate::errors::ValueTooWideError;
use crate::order::BitOrder;
use crate::region::{BitCombine, BitRegion, BitStore};
use vstd::prelude::*;

verus! {

/// Which end of the value the region's first bit carries.
#[derive(Clone, Copy, Debug, PartialEq, Eq, Structural)]
pub enum FieldOrder {
    /// Region position 0 carries value bit 0.
    LsbFirst,
    /// Region position 0 carries the value's highest in-range bit.
    MsbFirst,
}

/// Which bit of a `len`-bit value region offset `i` carries.  The mapping
/// is an involution: it also sends a value bit to its region offset.
pub open spec fn field_bit_index(endian: FieldOrder, len: int, i: int) -> int {
    match endian {
        FieldOrder::LsbFirst => i,
        FieldOrder::MsbFirst => len - 1 - i,
    }
}

/// Runtime counterpart of [`field_bit_index`].
pub fn field_index(endian: FieldOrder, len: usize, i: usize) -> (r: usize)
    requires
        i < len,
    ensures
        r == field_bit_index(endian, len as int, i as int),
        r < len,
{
    match endian {
        FieldOrder::LsbFirst => i,
        FieldOrder::MsbFirst => len - 1 - i,
    }
}

/// A field packer/unpacker: a bit ordering for placing bits inside
/// elements, and a significance direction for values that span several.
/// It is pure configuration and holds no state.
#[derive(Clone, Copy, Debug, PartialEq, Eq, Structural)]
pub struct FieldCodec {
    /// The ordering regions must be read and written under.
    pub order: BitOrder,
    /// The bit-significance direction across the region.
    pub endian: FieldOrder,
}

impl FieldCodec {
    /// Builds a codec from its two policies.
    pub fn new(order: BitOrder, endian: FieldOrder) -> (r: FieldCodec)
        ensures
            r.order == order,
            r.endian == endian,
    {
        FieldCodec { order, endian }
    }

    /// Reads the integer the region holds: bit `k` of the result is the
    /// region bit at offset `field_bit_index(endian, len, k)`.  The result
    /// has no bits at or above the region length.
    pub fn decode(&self, store: &BitStore, region: BitRegion) -> (v: u64)
        requires
            store.wf(),
            region.valid_for(*store),
            region.order == self.order,
            region.len <= 64,
        ensures
            forall|k: usize|
                k < region.len ==> #[trigger] bit_get(v, k) == store.spec_bit(
                    region.order,
                    region.start() + field_bit_index(self.endian, region.len as int, k as int),
                ),
            v & ones(region.len) == v,
    {
        let len = region.len;
        let mut v: u64 = 0;
        let mut k: usize = 0;
        proof {
            assert forall|t: usize| t < 64 implies !bit_get(0u64, t) by {
                lemma_zero_bit(t);
            }
        }
        while k < len
            invariant
                store.wf(),
                region.valid_for(*store),
                region.len == len,
                len <= 64,
                k <= len,
                forall|t: usize|
                    t < 64 ==> #[trigger] bit_get(v, t) == (t < k && store.spec_bit(
                        region.order,
                        region.start() + field_bit_index(self.endian, len as int, t as int),
                    )),
            decreases len - k,
        {
            let i = field_index(self.endian, len, k);
            let b = region.get(store, i);
            v = write_bit(v, k, b);
            k = k + 1;
        }
        proof {
            assert forall|t: usize| t < 64 implies #[trigger] bit_get(v & ones(len), t) == bit_get(
                v,
                t,
            ) by {
                lemma_keep_low_bits(v, len, t);
            }
            lemma_bit_get_ext(v & ones(len), v);
        }
        v
    }

    /// Writes `value` across the region: the region bit at offset `i`
    /// becomes bit `field_bit_index(endian, len, i)` of the value; no
    /// other bit of the store changes.  A value with significant bits
    /// beyond the region length is refused whole — nothing is written.
    pub fn encode(&self, store: &mut BitStore, region: BitRegion, value: u64) -> (r: Result<
        (),
        ValueTooWideError,
    >)
        requires
            old(store).wf(),
            region.valid_for(*old(store)),
            region.order == self.order,
            region.len <= 64,
        ensures
            r is Ok <==> value & ones(region.len) == value,
            r matches Err(e) ==> *final(store) == *old(store) && e.len == region.len,
            r is Ok ==> final(store).wf() && final(store).same_shape(*old(store)) && forall|p: int|
                0 <= p < old(store).total_bits() ==> final(store).spec_bit(region.order, p) == (
                if region.contains(p) {
                    bit_get(
                        value,
                        field_bit_index(
                            self.endian,
                            region.len as int,
                            p - region.start(),
                        ) as usize,
                    )
                } else {
                    old(store).spec_bit(region.order, p)
                }),
    {
        let len = region.len;
        let w = store.width();
        let fits = if len == 64 {
            true
        } else {
            (value >> (len as u64)) == 0
        };
        proof {
            if len == 64 {
                assert(value & ones(64) == value) by (bit_vector);
            } else {
                lemma_shift_out_iff_fits(value, len);
            }
        }
        if !fits {
            return Err(ValueTooWideError::new(len));
        }
        // Stage the value's bits in a scratch store aligned to offset 0,
        // then write them out with one masked read-modify-write per
        // touched element.
        let nelems = (len + w - 1) / w;
        proof {
            lemma_ceil_div(len as int, w as int);
        }
        let mut tmp = BitStore::new(w, nelems, false);
        let treg = match tmp.region(0, len, self.order) {
            Ok(t) => t,
            Err(_) => {
                proof {
                    assert(false);
                }
                return Err(ValueTooWideError::new(len));
            },
        };
        proof {
            assert forall|q: int|
                0 <= q < tmp.total_bits() implies !tmp.spec_bit(self.order, q) by {
                crate::region::lemma_pos_split(q, w, tmp.spec_elems().len() as int);
                lemma_zero_bit(
                    crate::order::spec_to_shift(self.order, w, (q % (w as int)) as usize),
                );
            }
        }
        let mut i: usize = 0;
        while i < len
            invariant
                tmp.wf(),
                treg.valid_for(tmp),
                tmp.spec_width() == w,
                treg.start() == 0,
                treg.len == len,
                treg.order == self.order,
                len <= 64,
                i <= len,
                forall|q: int|
                    0 <= q < tmp.total_bits() ==> tmp.spec_bit(self.order, q) == (0 <= q < i
                        && bit_get(
                        value,
                        field_bit_index(self.endian, len as int, q) as usize,
                    )),
            decreases len - i,
        {
            let b = read_bit(value, field_index(self.endian, len, i));
            treg.set(&mut tmp, i, b);
            i = i + 1;
        }
        region.combine(store, treg, &tmp, BitCombine::Copy);
        Ok(())
    }
}

/// A value fits below bit `n` exactly when shifting it right by `n`
/// clears it.
proof fn lemma_shift_out_iff_fits(v: u64, n: usize)
    by (bit_vector)
    requires
        n < 64,
    ensures
        ((v >> (n as u64)) == 0u64) <==> (v & ones(n) == v),
{
}

/// The ceiling division `(len + w - 1) / w` yields enough `w`-bit
/// elements to hold `len` bits, and not absurdly many.
proof fn lemma_ceil_div(len: int, w: int)
    requires
        0 < w <= 64,
        0 <= len <= 64,
    ensures
        len <= ((len + w - 1) / w) * w,
        ((len + w - 1) / w) * w <= usize::MAX,
{
    let q = (len + w - 1) / w;
    let r = (len + w - 1) % w;
    vstd::arithmetic::div_mod::lemma_fundamental_div_mod(len + w - 1, w);
    assert(0 <= r < w) by (nonlinear_arith)
        requires
            0 < w,
            0 <= len + w - 1,
            r == (len + w - 1) % w,
    ;
    assert(q * w == w * q) by (nonlinear_arith);
    assert(q * w <= len + w - 1);
    assert(len <= q * w);
}

/// Decoding after encoding returns the value: for every region of at most
/// 64 bits, every bit ordering, and both significance directions, a store
/// that holds the encoded bits of a fitting value `v` decodes to `v`.
/// The premises are exactly what `encode` ensures of the store and what
/// `decode` ensures of its result.
pub proof fn lemma_encode_decode_roundtrip(
    store: BitStore,
    region: BitRegion,
    endian: FieldOrder,
    v: u64,
    d: u64,
)
    requires
        region.len <= 64,
        v & ones(region.len) == v,
        d & ones(region.len) == d,
        forall|p: int|
            region.contains(p) ==> store.spec_bit(region.order, p) == bit_get(
                v,
                field_bit_index(endian, region.len as int, p - region.start()) as usize,
            ),
        forall|k: usize|
            k < region.len ==> #[trigger] bit_get(d, k) == store.spec_bit(
                region.order,
                region.start() + field_bit_index(endian, region.len as int, k as int),
            ),
    ensures
        d == v,
{
    let len = region.len;
    assert forall|t: usize| t < 64 implies #[trigger] bit_get(d, t) == bit_get(v, t) by {
        if t < len {
            let i = field_bit_index(endian, len as int, t as int);
            assert(0 <= i < len);
            assert(region.contains(region.start() + i));
            assert(field_bit_index(endian, len as int, i) == t);
            assert(bit_get(d, t) == store.spec_bit(region.order, region.start() + i));
            assert(store.spec_bit(region.order, region.start() + i) == bit_get(v, t));
        } else {
            lemma_keep_low_bits(d, len, t);
            lemma_keep_low_bits(v, len, t);
        }
    }
    lemma_bit_get_ext(d, v);
}

} // verus!
