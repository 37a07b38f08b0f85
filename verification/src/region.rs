//! The storage array, the region view over it, and the bulk operations.
//!
//! A [`BitStore`] owns an array of fixed-width elements; a [`BitRegion`]
//! names a contiguous bit range inside one.  Every operation is specified
//! bit by bit: the contract of each bulk operation says, for every bit of
//! the store, exactly what the naive one-bit-at-a-time algorithm would
//! have produced, and the masked head/body/tail implementation is proven
//! to meet it.

use crate::addr::BitAddress;
use crate::bits::{
    bit_get, elem_ok, lemma_bit_algebra, lemma_bit_get_ext, lemma_keep_low_bits,
    lemma_mask_range_bit, lemma_merge_masked_bit, lemma_ones_bit, lemma_single_bit, lemma_zero_bit,
    mask_range, mask_word, merge_masked, ones, ones_word, read_bit, width_ok,
};
use crate::domain::{abs_of, spec_head_len, Domain};
use crate::errors::{OutOfBoundsError, UnsupportedAliasingError};
use crate::order::{spec_to_position, spec_to_shift, BitOrder};
use vstd::prelude::*;

verus! {

/// Why a region could not be built.
#[derive(Clone, Copy, Debug, PartialEq, Eq, Structural)]
pub enum RegionError {
    /// The range runs past the end of the storage.
    Bounds(OutOfBoundsError),
    /// The range needs the shared-access protocol on an element whose
    /// cells cannot provide it.
    Aliasing(UnsupportedAliasingError),
}

/// How a partial element at a region edge must be accessed.
#[derive(Clone, Copy, Debug, PartialEq, Eq, Structural)]
pub enum AliasClass {
    /// The region owns every bit of the element.
    Exclusive,
    /// Another region may own the element's other bits: every mutation
    /// must be one masked read-modify-write.
    Shared,
}

/// Classifies one edge element: exclusive exactly when the span covers the
/// element's full width.
pub fn classify_edge(lo: usize, hi: usize, w: usize) -> (c: AliasClass)
    requires
        lo <= hi <= w,
    ensures
        c == AliasClass::Exclusive <==> (lo == 0 && hi == w),
{
    if lo == 0 && hi == w {
        AliasClass::Exclusive
    } else {
        AliasClass::Shared
    }
}

/// An array of fixed-width storage elements, each held in the low bits of
/// a `u64`.  `atomic` records whether the underlying cells support the
/// atomic read-modify-write that shared edges require.
pub struct BitStore {
    width: usize,
    atomic: bool,
    elems: Vec<u64>,
}

impl BitStore {
    /// The stored element width.
    pub closed spec fn spec_width(self) -> usize {
        self.width
    }

    /// Whether the cells offer atomic read-modify-write.
    pub closed spec fn spec_atomic(self) -> bool {
        self.atomic
    }

    /// The element values.
    pub closed spec fn spec_elems(self) -> Seq<u64> {
        self.elems@
    }

    /// The number of bits the store holds.
    pub open spec fn total_bits(self) -> int {
        self.spec_elems().len() * self.spec_width()
    }

    /// The invariant of a store: a width from the menu, a bit count that
    /// fits `usize`, and every element confined to its width.
    pub open spec fn wf(self) -> bool {
        &&& width_ok(self.spec_width())
        &&& self.total_bits() <= usize::MAX
        &&& forall|k: int| 0 <= k < self.spec_elems().len() ==> elem_ok(
            #[trigger] self.spec_elems()[k],
            self.spec_width(),
        )
    }

    /// The store keeps its width, capability, and element count.
    pub open spec fn same_shape(self, other: BitStore) -> bool {
        &&& self.spec_width() == other.spec_width()
        &&& self.spec_atomic() == other.spec_atomic()
        &&& self.spec_elems().len() == other.spec_elems().len()
    }

    /// The value of the absolute bit `p` read under ordering `o`.
    pub open spec fn spec_bit(self, o: BitOrder, p: int) -> bool {
        bit_get(
            self.spec_elems()[p / self.spec_width() as int],
            spec_to_shift(o, self.spec_width(), (p % self.spec_width() as int) as usize),
        )
    }

    /// Builds a store of `n` elements of `width` bits, all zero.  `atomic`
    /// declares whether the backing cells support atomic read-modify-write.
    pub fn new(width: usize, n: usize, atomic: bool) -> (r: BitStore)
        requires
            width_ok(width),
            n * width <= usize::MAX,
        ensures
            r.wf(),
            r.spec_width() == width,
            r.spec_atomic() == atomic,
            r.spec_elems().len() == n,
            forall|k: int| 0 <= k < n ==> r.spec_elems()[k] == 0u64,
    {
        let mut elems: Vec<u64> = Vec::new();
        let mut i: usize = 0;
        while i < n
            invariant
                i <= n,
                elems@.len() == i,
                forall|k: int| 0 <= k < i ==> elems@[k] == 0u64,
            decreases n - i,
        {
            elems.push(0u64);
            i = i + 1;
        }
        let r = BitStore { width, atomic, elems };
        proof {
            assert forall|k: int| 0 <= k < r.spec_elems().len() implies elem_ok(
                #[trigger] r.spec_elems()[k],
                r.spec_width(),
            ) by {
                assert(0u64 & ones(r.spec_width()) == 0u64) by (bit_vector);
            }
        }
        r
    }

    /// The element width.
    pub fn width(&self) -> (r: usize)
        ensures
            r == self.spec_width(),
    {
        self.width
    }

    /// Whether the cells offer atomic read-modify-write.
    pub fn is_atomic(&self) -> (r: bool)
        ensures
            r == self.spec_atomic(),
    {
        self.atomic
    }

    /// The number of elements.
    pub fn num_elems(&self) -> (r: usize)
        ensures
            r == self.spec_elems().len(),
    {
        self.elems.len()
    }

    /// The number of bits.
    pub fn len_bits(&self) -> (r: usize)
        requires
            self.wf(),
        ensures
            r == self.total_bits(),
    {
        proof {
            lemma_mul_bound(self.elems@.len() as int, self.width as int);
        }
        self.elems.len() * self.width
    }

    /// Reads one whole element.
    pub fn load_elem(&self, e: usize) -> (r: u64)
        requires
            e < self.spec_elems().len(),
        ensures
            r == self.spec_elems()[e as int],
    {
        self.elems[e]
    }

    /// One masked read-modify-write against element `e`: bits of `v`
    /// selected by `m` replace the element's bits; all its other bits and
    /// all other elements stay exactly as they were.
    pub fn store_masked(&mut self, e: usize, v: u64, m: u64)
        requires
            old(self).wf(),
            e < old(self).spec_elems().len(),
            m & ones(old(self).spec_width()) == m,
        ensures
            final(self).wf(),
            final(self).same_shape(*old(self)),
            final(self).spec_elems() == old(self).spec_elems().update(
                e as int,
                merge_masked(old(self).spec_elems()[e as int], v, m),
            ),
    {
        let cur = self.elems[e];
        let next = (cur & !m) | (v & m);
        self.elems.set(e, next);
        proof {
            lemma_merge_keeps_width(cur, v, m, self.width);
            assert(self.spec_elems() =~= old(self).spec_elems().update(
                e as int,
                merge_masked(cur, v, m),
            ));
        }
    }
}

/// A view naming `len` bits starting at `addr`, read and written under the
/// bit ordering `order`.  A region does not own storage; it is valid only
/// together with a store of the same element width that it fits inside.
#[derive(Clone, Copy, Debug, PartialEq, Eq, Structural)]
pub struct BitRegion {
    /// The first bit the region names.
    pub addr: BitAddress,
    /// How many bits it names.
    pub len: usize,
    /// The ordering that maps its positions to element shifts.
    pub order: BitOrder,
}

impl BitRegion {
    /// The absolute position of the region's first bit.
    pub open spec fn start(self) -> int {
        self.addr.abs_pos()
    }

    /// Whether the region names absolute bit `p`.
    pub open spec fn contains(self, p: int) -> bool {
        self.start() <= p < self.start() + self.len
    }

    /// Whether the region is a valid view into `s`.
    pub open spec fn valid_for(self, s: BitStore) -> bool {
        &&& self.addr.wf()
        &&& self.addr.spec_width() == s.spec_width()
        &&& self.start() + self.len <= s.total_bits()
    }

}

/// Whether a range `[start, start + len)` has an edge partway inside a
/// `w`-bit element, so that mutating it needs the shared-access protocol.
pub open spec fn needs_shared_edge(start: int, len: int, w: int) -> bool {
    len > 0 && (start % w != 0 || (start + len) % w != 0)
}

impl BitStore {
    /// Builds a read-only region over `len` bits starting at absolute bit
    /// `start_bit`.  Fails with `OutOfBoundsError` exactly when the range
    /// runs past the storage.
    pub fn region(&self, start_bit: usize, len: usize, order: BitOrder) -> (r: Result<
        BitRegion,
        OutOfBoundsError,
    >)
        requires
            self.wf(),
        ensures
            r is Ok <==> start_bit + len <= self.total_bits(),
            r matches Ok(reg) ==> reg.valid_for(*self) && reg.start() == start_bit && reg.len == len
                && reg.order == order,
            r matches Err(e) ==> e.total_bits == self.total_bits() && start_bit + len
                > self.total_bits(),
    {
        let total = self.len_bits();
        if len <= total && start_bit <= total - len {
            let a = BitAddress::from_abs(self.width, start_bit);
            Ok(BitRegion { addr: a, len, order })
        } else {
            let end = if start_bit <= usize::MAX - len {
                start_bit + len
            } else {
                usize::MAX
            };
            Err(OutOfBoundsError::new(end, total))
        }
    }

    /// Builds a mutable region.  Beyond the bounds check, construction
    /// fails fast with `UnsupportedAliasingError` when an edge of the
    /// range lands partway inside an element — a shared element under the
    /// classifier — but the cells have no atomic capability.
    pub fn region_mut(&self, start_bit: usize, len: usize, order: BitOrder) -> (r: Result<
        BitRegion,
        RegionError,
    >)
        requires
            self.wf(),
        ensures
            r is Ok <==> start_bit + len <= self.total_bits() && (self.spec_atomic()
                || !needs_shared_edge(start_bit as int, len as int, self.spec_width() as int)),
            r matches Ok(reg) ==> reg.valid_for(*self) && reg.start() == start_bit && reg.len == len
                && reg.order == order,
            r matches Err(RegionError::Bounds(e)) ==> start_bit + len > self.total_bits(),
            r matches Err(RegionError::Aliasing(e)) ==> !self.spec_atomic() && start_bit + len
                <= self.total_bits() && needs_shared_edge(
                start_bit as int,
                len as int,
                self.spec_width() as int,
            ),
    {
        match self.region(start_bit, len, order) {
            Err(e) => Err(RegionError::Bounds(e)),
            Ok(reg) => {
                if self.atomic || len == 0 {
                    Ok(reg)
                } else {
                    let w = self.width;
                    let head_partial = start_bit % w != 0;
                    let tail_partial = (start_bit + len) % w != 0;
                    if head_partial || tail_partial {
                        Err(RegionError::Aliasing(UnsupportedAliasingError::new(start_bit / w)))
                    } else {
                        Ok(reg)
                    }
                }
            },
        }
    }
}

/// `merge_masked` never sets a bit above the width when the mask and the
/// old element are confined to it.
proof fn lemma_merge_keeps_width(e: u64, v: u64, m: u64, w: usize)
    requires
        w <= 64,
        elem_ok(e, w),
        m & ones(w) == m,
    ensures
        elem_ok(merge_masked(e, v, m), w),
{
    let r = merge_masked(e, v, m);
    assert forall|s: usize| s < 64 implies #[trigger] bit_get(r & ones(w), s) == bit_get(r, s) by {
        lemma_keep_low_bits(r, w, s);
        lemma_merge_masked_bit(e, v, m, s);
        lemma_keep_low_bits(e, w, s);
        lemma_keep_low_bits(m, w, s);
    }
    lemma_bit_get_ext(r & ones(w), r);
}

/// The product facts a store's size computations lean on: a product of
/// non-negative factors is non-negative, and no smaller than either
/// factor once the other is positive.
proof fn lemma_mul_bound(n: int, w: int)
    by (nonlinear_arith)
    requires
        n >= 0,
        w >= 0,
    ensures
        n * w >= 0,
        w > 0 ==> n <= n * w,
{
}


/// The mask, in element-shift space, selecting the semantic positions
/// `lo..hi` of a `w`-bit element under ordering `o`.
pub fn order_mask(o: BitOrder, w: usize, lo: usize, hi: usize) -> (m: u64)
    requires
        lo <= hi <= w,
        w <= 64,
    ensures
        m & ones(w) == m,
        forall|s: usize|
            s < 64 ==> (#[trigger] bit_get(m, s) == (s < w && lo <= spec_to_position(o, w, s)
                < hi)),
{
    let m = match o {
        BitOrder::Lsb0 => mask_word(lo, hi),
        BitOrder::Msb0 => mask_word(w - hi, w - lo),
    };
    proof {
        assert forall|s: usize| s < 64 implies (#[trigger] bit_get(m, s) == (s < w && lo
            <= spec_to_position(o, w, s) < hi)) by {
            match o {
                BitOrder::Lsb0 => lemma_mask_range_bit(lo, hi, s),
                BitOrder::Msb0 => lemma_mask_range_bit((w - hi) as usize, (w - lo) as usize, s),
            }
        }
        assert forall|s: usize| s < 64 implies #[trigger] bit_get(m & ones(w), s) == bit_get(
            m,
            s,
        ) by {
            lemma_keep_low_bits(m, w, s);
            match o {
                BitOrder::Lsb0 => lemma_mask_range_bit(lo, hi, s),
                BitOrder::Msb0 => lemma_mask_range_bit((w - hi) as usize, (w - lo) as usize, s),
            }
        }
        lemma_bit_get_ext(m & ones(w), m);
    }
    m
}

/// Splits an absolute position `0 <= p < n * w` into its element index
/// `p / w` and in-element position `p % w`.
pub proof fn lemma_pos_split(p: int, w: usize, n: int)
    requires
        0 < w,
        0 <= p < n * w,
    ensures
        0 <= p / (w as int) < n,
        0 <= p % (w as int) < w,
        (p / (w as int)) * w + (p % (w as int)) == p,
{
    vstd::arithmetic::div_mod::lemma_fundamental_div_mod(p, w as int);
    assert(0 <= p % (w as int) < w) by (nonlinear_arith)
        requires
            0 < w,
            0 <= p,
    ;
    assert(0 <= p / (w as int)) by (nonlinear_arith)
        requires
            0 < w,
            0 <= p,
    ;
    assert(p / (w as int) < n) by (nonlinear_arith)
        requires
            0 < w,
            p < n * w,
            p == (w as int) * (p / (w as int)) + p % (w as int),
            0 <= p % (w as int),
            0 <= p / (w as int),
    ;
    assert((p / (w as int)) * (w as int) == (w as int) * (p / (w as int))) by (nonlinear_arith);
}

/// The absolute position of in-element position `j` of element `e` splits
/// back into `(e, j)`.
pub proof fn lemma_pos_join(e: usize, j: usize, w: usize)
    requires
        j < w,
    ensures
        abs_of(e, j, w) / (w as int) == e,
        abs_of(e, j, w) % (w as int) == j,
{
    vstd::arithmetic::div_mod::lemma_fundamental_div_mod_converse(
        abs_of(e, j, w),
        w as int,
        e as int,
        j as int,
    );
}

/// An element that holds a covered position sits inside a store of `n`
/// elements.
proof fn lemma_elem_in_store(e: usize, j: usize, w: usize, n: int)
    by (nonlinear_arith)
    requires
        j < w,
        0 < w,
        e * w + j < n * w,
    ensures
        e < n,
{
}

impl BitRegion {
    /// Sets every bit the region names to `b`, touching no other bit of
    /// the store.  Implemented by domain decomposition — one masked
    /// read-modify-write per partial edge element, one whole-element
    /// store per body element — and specified against the bit-by-bit
    /// reference: the contract gives the value of every bit of the store.
    #[verifier::rlimit(60)]
    pub fn fill(self, store: &mut BitStore, b: bool)
        requires
            old(store).wf(),
            self.valid_for(*old(store)),
        ensures
            final(store).wf(),
            final(store).same_shape(*old(store)),
            forall|p: int|
                0 <= p < old(store).total_bits() ==> final(store).spec_bit(self.order, p) == (
                if self.contains(p) {
                    b
                } else {
                    old(store).spec_bit(self.order, p)
                }),
    {
        let w = store.width();
        let ghost n = store.spec_elems().len() as int;
        let ghost old0 = store.spec_elems();
        let ghost start = self.start();
        let d = Domain::new(self.addr, self.len);
        let fillv = if b {
            ones_word(w)
        } else {
            0u64
        };
        let full = ones_word(w);
        proof {
            assert(full & ones(w) == full) by (bit_vector)
                requires
                    full == ones(w),
                    w <= 64,
            ;
            if d.head is Some {
                let h = d.head.unwrap();
                assert(d.covers(h.elem, h.lo));
                lemma_elem_in_store(h.elem, h.lo, w, n);
            }
            if d.body_start < d.body_end {
                let last = (d.body_end - 1) as usize;
                assert(d.covers(last, 0));
                lemma_elem_in_store(last, 0, w, n);
            } else if d.tail is Some {
                let t = d.tail.unwrap();
                assert(d.covers(t.elem, t.lo));
                lemma_elem_in_store(t.elem, t.lo, w, n);
            } else if d.head is None {
                if self.len > 0 {
                    assert(abs_of(self.addr.elem, self.addr.index.spec_value(), w)
                        == self.start());
                    assert(d.covers(self.addr.elem, self.addr.index.spec_value()));
                    assert(false);
                }
                assert(self.addr.elem <= n) by (nonlinear_arith)
                    requires
                        self.addr.elem * w + self.addr.index.spec_value() <= n * w,
                        w > 0,
                        n >= 0,
                        self.addr.elem >= 0,
                ;
            }
            assert(d.body_end <= n);
        }
        let ghost hm: u64 = 0;
        if let Some(h) = d.head {
            let m = order_mask(self.order, w, h.lo, h.hi);
            proof {
                hm = m;
            }
            store.store_masked(h.elem, fillv, m);
        }
        let ghost after_head = store.spec_elems();
        let mut e = d.body_start;
        while e < d.body_end
            invariant
                store.wf(),
                store.same_shape(*old(store)),
                store.spec_width() == w,
                d.body_start <= e <= d.body_end,
                d.body_end <= n,
                store.spec_elems().len() == n,
                full == ones(w),
                full & ones(w) == full,
                forall|k: int|
                    0 <= k < n ==> store.spec_elems()[k] == (if d.body_start <= k < e {
                        merge_masked(after_head[k], fillv, full)
                    } else {
                        after_head[k]
                    }),
            decreases d.body_end - e,
        {
            proof {
                assert(d.covers_body(e));
                assert(d.covers(e, 0));
                lemma_elem_in_store(e, 0, w, n);
            }
            store.store_masked(e, fillv, full);
            e = e + 1;
        }
        let ghost after_body = store.spec_elems();
        let ghost tm: u64 = 0;
        if let Some(t) = d.tail {
            proof {
                assert(d.covers(t.elem, t.lo));
                lemma_elem_in_store(t.elem, t.lo, w, n);
            }
            let m = order_mask(self.order, w, t.lo, t.hi);
            proof {
                tm = m;
            }
            store.store_masked(t.elem, fillv, m);
        }
        proof {
            // The final shape of every element, relative to the starting store.
            assert forall|k: int| 0 <= k < n implies store.spec_elems()[k] == fill_shape(
                d,
                old0,
                k,
                fillv,
                hm,
                tm,
                full,
            ) by {}
            // And from the element shapes, the value of every bit.
            assert forall|p: int| 0 <= p < old(store).total_bits() implies store.spec_bit(
                self.order,
                p,
            ) == (if self.contains(p) {
                b
            } else {
                old(store).spec_bit(self.order, p)
            }) by {
                lemma_pos_split(p, w, n);
                let e0 = (p / (w as int)) as usize;
                let j = (p % (w as int)) as usize;
                let s = spec_to_shift(self.order, w, j);
                assert(abs_of(e0, j, w) == p);
                crate::order::lemma_order_roundtrip(self.order, w, j, j);
                assert(s < w);
                assert(spec_to_position(self.order, w, s) == j);
                assert(d.covers(e0, j) <==> self.contains(p));
                lemma_merge_masked_bit(old0[e0 as int], fillv, hm, s);
                lemma_merge_masked_bit(old0[e0 as int], fillv, tm, s);
                lemma_merge_masked_bit(old0[e0 as int], fillv, full, s);
                lemma_ones_bit(w, s);
                if b {
                    assert(bit_get(fillv, s)) by {
                        lemma_ones_bit(w, s);
                    }
                } else {
                    assert(!bit_get(fillv, s)) by (bit_vector)
                        requires
                            fillv == 0u64,
                            s < 64,
                    ;
                }
            }
        }
    }
}

/// The per-element shape that `fill` leaves behind: merged under the head
/// mask at the head element, fully written across the body, merged under
/// the tail mask at the tail element, untouched elsewhere.
spec fn fill_shape(
    d: Domain,
    old0: Seq<u64>,
    k: int,
    fillv: u64,
    hm: u64,
    tm: u64,
    full: u64,
) -> u64 {
    if d.head is Some && k == d.head.unwrap().elem {
        merge_masked(old0[k], fillv, hm)
    } else if d.body_start <= k < d.body_end {
        merge_masked(old0[k], fillv, full)
    } else if d.tail is Some && k == d.tail.unwrap().elem {
        merge_masked(old0[k], fillv, tm)
    } else {
        old0[k]
    }
}


impl BitRegion {
    /// The region's first absolute bit position, at run time.
    fn start_exec(self) -> (r: usize)
        requires
            self.addr.wf(),
            self.addr.abs_pos() <= usize::MAX,
        ensures
            r == self.start(),
    {
        let w = self.addr.index.width();
        self.addr.elem * w + self.addr.index.value()
    }

    /// Reads bit `i` of the region: one element load, one shift.
    pub fn get(self, store: &BitStore, i: usize) -> (r: bool)
        requires
            store.wf(),
            self.valid_for(*store),
            i < self.len,
        ensures
            r == store.spec_bit(self.order, self.start() + i),
    {
        let w = store.width();
        let start = self.start_exec();
        let pos = start + i;
        proof {
            lemma_pos_split(pos as int, w, store.spec_elems().len() as int);
        }
        let e = pos / w;
        let j = pos % w;
        let s = self.order.to_shift(w, j);
        read_bit(store.load_elem(e), s)
    }

    /// Writes bit `i` of the region: one masked read-modify-write on the
    /// owning element, touching no other bit of the store.
    pub fn set(self, store: &mut BitStore, i: usize, b: bool)
        requires
            old(store).wf(),
            self.valid_for(*old(store)),
            i < self.len,
        ensures
            final(store).wf(),
            final(store).same_shape(*old(store)),
            forall|p: int|
                0 <= p < old(store).total_bits() ==> final(store).spec_bit(self.order, p) == (
                if p == self.start() + i {
                    b
                } else {
                    old(store).spec_bit(self.order, p)
                }),
    {
        let w = store.width();
        let ghost n = store.spec_elems().len() as int;
        let ghost old0 = store.spec_elems();
        let start = self.start_exec();
        let pos = start + i;
        proof {
            lemma_pos_split(pos as int, w, n);
        }
        let e = pos / w;
        let j = pos % w;
        let s = self.order.to_shift(w, j);
        let m = 1u64 << (s as u64);
        proof {
            assert forall|t: usize| t < 64 implies #[trigger] bit_get(m & ones(w), t) == bit_get(
                m,
                t,
            ) by {
                lemma_single_bit(s, t);
                lemma_keep_low_bits(m, w, t);
            }
            lemma_bit_get_ext(m & ones(w), m);
        }
        let v = if b {
            m
        } else {
            0u64
        };
        store.store_masked(e, v, m);
        proof {
            assert forall|p: int|
                0 <= p < old(store).total_bits() implies store.spec_bit(self.order, p) == (if p
                == self.start() + i {
                b
            } else {
                old(store).spec_bit(self.order, p)
            }) by {
                lemma_pos_split(p, w, n);
                let e0 = (p / (w as int)) as usize;
                let j0 = (p % (w as int)) as usize;
                let s0 = spec_to_shift(self.order, w, j0);
                crate::order::lemma_order_roundtrip(self.order, w, j0, j0);
                crate::order::lemma_order_roundtrip(self.order, w, j, j);
                if e0 == e {
                    lemma_merge_masked_bit(old0[e0 as int], v, m, s0);
                    lemma_single_bit(s, s0);
                    lemma_zero_bit(s0);
                }
            }
        }
    }

    /// How many of the region's first `k` bits are set: the bit-by-bit
    /// reference that `count_ones` is proven against.
    pub open spec fn spec_count(self, s: BitStore, k: nat) -> nat {
        count_range(s, self.order, self.start(), k)
    }

    /// Counts the set bits of the region, walking it element by element:
    /// each touched element is loaded once and its covered positions are
    /// tallied from the loaded word.
    pub fn count_ones(self, store: &BitStore) -> (r: usize)
        requires
            store.wf(),
            self.valid_for(*store),
        ensures
            r == self.spec_count(*store, self.len as nat),
            r <= self.len,
    {
        let w = store.width();
        let ghost n = store.spec_elems().len() as int;
        let d = Domain::new(self.addr, self.len);
        proof {
            if d.head is Some {
                let h = d.head.unwrap();
                assert(d.covers(h.elem, h.lo));
                lemma_elem_in_store(h.elem, h.lo, w, n);
            }
            if d.body_start < d.body_end {
                let last = (d.body_end - 1) as usize;
                assert(d.covers(last, 0));
                lemma_elem_in_store(last, 0, w, n);
            } else if d.tail is Some {
                let t = d.tail.unwrap();
                assert(d.covers(t.elem, t.lo));
                lemma_elem_in_store(t.elem, t.lo, w, n);
            } else if d.head is None {
                if self.len > 0 {
                    assert(abs_of(self.addr.elem, self.addr.index.spec_value(), w)
                        == self.start());
                    assert(d.covers(self.addr.elem, self.addr.index.spec_value()));
                    assert(false);
                }
                assert(self.addr.elem <= n) by (nonlinear_arith)
                    requires
                        self.addr.elem * w + self.addr.index.spec_value() <= n * w,
                        w > 0,
                        n >= 0,
                        self.addr.elem >= 0,
                ;
            }
            assert(d.body_end <= n);
        }
        let mut cnt: usize = 0;
        let mut off: usize = 0;
        if let Some(h) = d.head {
            proof {
                assert(d.covers(h.elem, (h.hi - 1) as usize));
                lemma_span_count_is_range(*store, self.order, h.elem, h.lo, h.hi, w);
            }
            cnt = count_span(store.load_elem(h.elem), self.order, w, h.lo, h.hi);
            off = h.hi - h.lo;
            proof {
                lemma_count_range_split(*store, self.order, self.start(), 0, off as nat);
            }
        }
        let mut e = d.body_start;
        while e < d.body_end
            invariant
                store.wf(),
                self.valid_for(*store),
                store.spec_width() == w,
                d.decomposes(self.start(), self.len, w),
                self.addr.wf(),
                self.addr.spec_width() == w,
                d.body_start <= e <= d.body_end,
                d.body_end <= n,
                store.spec_elems().len() == n,
                off == spec_head_len(d) + (e - d.body_start) * w,
                d.body_start < d.body_end ==> d.body_start * w == self.start() + spec_head_len(d),
                off <= self.len,
                cnt <= off,
                cnt == count_range(*store, self.order, self.start(), off as nat),
            decreases d.body_end - e,
        {
            proof {
                assert(d.covers(e, 0));
                assert(d.covers(e, (w - 1) as usize));
                lemma_elem_in_store(e, 0, w, n);
                assert(e * w == self.start() + off) by (nonlinear_arith)
                    requires
                        off == spec_head_len(d) + (e - d.body_start) * w,
                        d.body_start * w == self.start() + spec_head_len(d),
                        e >= d.body_start,
                ;
                assert(abs_of(e, (w - 1) as usize, w) < self.start() + self.len);
                assert((e - d.body_start + 1) * w == (e - d.body_start) * w + w)
                    by (nonlinear_arith);
                lemma_span_count_is_range(*store, self.order, e, 0, w, w);
                lemma_count_range_split(
                    *store,
                    self.order,
                    self.start(),
                    off as nat,
                    w as nat,
                );
            }
            let part = count_span(store.load_elem(e), self.order, w, 0, w);
            cnt = cnt + part;
            off = off + w;
            e = e + 1;
        }
        proof {
            if d.body_start < d.body_end {
                assert(d.body_end * w == self.start() + off) by (nonlinear_arith)
                    requires
                        off == spec_head_len(d) + (d.body_end - d.body_start) * w,
                        d.body_start * w == self.start() + spec_head_len(d),
                        d.body_end >= d.body_start,
                ;
            }
        }
        if let Some(t) = d.tail {
            proof {
                lemma_elem_in_store(t.elem, t.lo, w, n);
                assert(d.covers(t.elem, t.lo));
                assert(t.elem * w == self.start() + spec_head_len(d) + (d.body_end
                    - d.body_start) * w);
                assert(abs_of(t.elem, t.lo, w) == self.start() + off);
                assert(t.elem * w + t.hi == self.start() + self.len);
                lemma_span_count_is_range(*store, self.order, t.elem, t.lo, t.hi, w);
                lemma_count_range_split(
                    *store,
                    self.order,
                    self.start(),
                    off as nat,
                    (t.hi - t.lo) as nat,
                );
            }
            let part = count_span(store.load_elem(t.elem), self.order, w, t.lo, t.hi);
            cnt = cnt + part;
            off = off + (t.hi - t.lo);
        }
        proof {
            if d.tail is None && d.body_start == d.body_end {
                assert((d.body_end - d.body_start) * w == 0) by (nonlinear_arith)
                    requires
                        d.body_end == d.body_start,
                ;
            }
            assert(off == self.len);
        }
        cnt
    }
}

/// How many of the `n` absolute bit positions starting at `from` are set
/// in `s`, read under `o`: the naive bit-by-bit count.
pub open spec fn count_range(s: BitStore, o: BitOrder, from: int, n: nat) -> nat
    decreases n,
{
    if n == 0 {
        0
    } else {
        count_range(s, o, from, (n - 1) as nat) + if s.spec_bit(o, from + n - 1) {
            1nat
        } else {
            0nat
        }
    }
}

/// A bit count over a range splits at any interior point.
pub proof fn lemma_count_range_split(s: BitStore, o: BitOrder, from: int, a: nat, b: nat)
    ensures
        count_range(s, o, from, a + b) == count_range(s, o, from, a) + count_range(
            s,
            o,
            from + a,
            b,
        ),
    decreases b,
{
    if b > 0 {
        lemma_count_range_split(s, o, from, a, (b - 1) as nat);
    }
}

/// How many positions `lo..hi` of the element word `e` hold a set bit
/// under `o`.
pub open spec fn span_count(e: u64, o: BitOrder, w: usize, lo: usize, hi: usize) -> nat
    decreases hi - lo,
{
    if hi <= lo {
        0
    } else {
        span_count(e, o, w, lo, (hi - 1) as usize) + if crate::bits::bit_get(
            e,
            spec_to_shift(o, w, (hi - 1) as usize),
        ) {
            1nat
        } else {
            0nat
        }
    }
}

/// Counting the positions of one element equals counting the same bits
/// on the absolute bit line.
proof fn lemma_span_count_is_range(s: BitStore, o: BitOrder, e: usize, lo: usize, hi: usize,
    w: usize)
    requires
        s.wf(),
        s.spec_width() == w,
        lo <= hi <= w,
        0 < w,
    ensures
        count_range(s, o, abs_of(e, lo, w), (hi - lo) as nat) == span_count(
            s.spec_elems()[e as int],
            o,
            w,
            lo,
            hi,
        ),
    decreases hi - lo,
{
    if hi > lo {
        lemma_span_count_is_range(s, o, e, lo, (hi - 1) as usize, w);
        lemma_pos_join(e, (hi - 1) as usize, w);
        assert(abs_of(e, lo, w) + ((hi - lo) as nat) - 1 == abs_of(e, (hi - 1) as usize, w));
    }
}

/// Tallies the set bits among positions `lo..hi` of a loaded element.
fn count_span(e: u64, o: BitOrder, w: usize, lo: usize, hi: usize) -> (r: usize)
    requires
        lo <= hi <= w,
        w <= 64,
    ensures
        r == span_count(e, o, w, lo, hi),
        r <= hi - lo,
{
    let mut r: usize = 0;
    let mut j: usize = lo;
    while j < hi
        invariant
            lo <= j <= hi <= w,
            w <= 64,
            r == span_count(e, o, w, lo, j),
            r <= j - lo,
        decreases hi - j,
    {
        let sh = o.to_shift(w, j);
        if read_bit(e, sh) {
            r = r + 1;
        }
        j = j + 1;
    }
    r
}


/// The per-element shape that `invert` leaves behind.
spec fn invert_shape(d: Domain, old0: Seq<u64>, k: int, hm: u64, tm: u64, full: u64) -> u64 {
    if d.head is Some && k == d.head.unwrap().elem {
        merge_masked(old0[k], !old0[k], hm)
    } else if d.body_start <= k < d.body_end {
        merge_masked(old0[k], !old0[k], full)
    } else if d.tail is Some && k == d.tail.unwrap().elem {
        merge_masked(old0[k], !old0[k], tm)
    } else {
        old0[k]
    }
}

impl BitRegion {
    /// Flips every bit the region names, touching no other bit of the
    /// store.  Like `fill`, one masked read-modify-write per partial edge
    /// element and one whole-element store per body element.
    #[verifier::rlimit(60)]
    pub fn invert(self, store: &mut BitStore)
        requires
            old(store).wf(),
            self.valid_for(*old(store)),
        ensures
            final(store).wf(),
            final(store).same_shape(*old(store)),
            forall|p: int|
                0 <= p < old(store).total_bits() ==> final(store).spec_bit(self.order, p) == (
                if self.contains(p) {
                    !old(store).spec_bit(self.order, p)
                } else {
                    old(store).spec_bit(self.order, p)
                }),
    {
        let w = store.width();
        let ghost n = store.spec_elems().len() as int;
        let ghost old0 = store.spec_elems();
        let ghost start = self.start();
        let d = Domain::new(self.addr, self.len);
        let full = ones_word(w);
        proof {
            assert(full & ones(w) == full) by (bit_vector)
                requires
                    full == ones(w),
                    w <= 64,
            ;
            if d.head is Some {
                let h = d.head.unwrap();
                assert(d.covers(h.elem, h.lo));
                lemma_elem_in_store(h.elem, h.lo, w, n);
            }
            if d.body_start < d.body_end {
                let last = (d.body_end - 1) as usize;
                assert(d.covers(last, 0));
                lemma_elem_in_store(last, 0, w, n);
            } else if d.tail is Some {
                let t = d.tail.unwrap();
                assert(d.covers(t.elem, t.lo));
                lemma_elem_in_store(t.elem, t.lo, w, n);
            } else if d.head is None {
                if self.len > 0 {
                    assert(abs_of(self.addr.elem, self.addr.index.spec_value(), w)
                        == self.start());
                    assert(d.covers(self.addr.elem, self.addr.index.spec_value()));
                    assert(false);
                }
                assert(self.addr.elem <= n) by (nonlinear_arith)
                    requires
                        self.addr.elem * w + self.addr.index.spec_value() <= n * w,
                        w > 0,
                        n >= 0,
                        self.addr.elem >= 0,
                ;
            }
            assert(d.body_end <= n);
        }
        let ghost hm: u64 = 0;
        if let Some(h) = d.head {
            let m = order_mask(self.order, w, h.lo, h.hi);
            proof {
                hm = m;
            }
            let cur = store.load_elem(h.elem);
            store.store_masked(h.elem, !cur, m);
        }
        let ghost after_head = store.spec_elems();
        let mut e = d.body_start;
        while e < d.body_end
            invariant
                store.wf(),
                store.same_shape(*old(store)),
                store.spec_width() == w,
                d.body_start <= e <= d.body_end,
                d.body_end <= n,
                store.spec_elems().len() == n,
                full == ones(w),
                full & ones(w) == full,
                forall|k: int|
                    0 <= k < n ==> store.spec_elems()[k] == (if d.body_start <= k < e {
                        merge_masked(after_head[k], !after_head[k], full)
                    } else {
                        after_head[k]
                    }),
            decreases d.body_end - e,
        {
            proof {
                assert(d.covers_body(e));
                assert(d.covers(e, 0));
                lemma_elem_in_store(e, 0, w, n);
            }
            let cur = store.load_elem(e);
            store.store_masked(e, !cur, full);
            e = e + 1;
        }
        let ghost tm: u64 = 0;
        if let Some(t) = d.tail {
            proof {
                assert(d.covers(t.elem, t.lo));
                lemma_elem_in_store(t.elem, t.lo, w, n);
            }
            let m = order_mask(self.order, w, t.lo, t.hi);
            proof {
                tm = m;
            }
            let cur = store.load_elem(t.elem);
            store.store_masked(t.elem, !cur, m);
        }
        proof {
            assert forall|k: int| 0 <= k < n implies store.spec_elems()[k] == invert_shape(
                d,
                old0,
                k,
                hm,
                tm,
                full,
            ) by {}
            assert forall|p: int| 0 <= p < old(store).total_bits() implies store.spec_bit(
                self.order,
                p,
            ) == (if self.contains(p) {
                !old(store).spec_bit(self.order, p)
            } else {
                old(store).spec_bit(self.order, p)
            }) by {
                lemma_pos_split(p, w, n);
                let e0 = (p / (w as int)) as usize;
                let j = (p % (w as int)) as usize;
                let s = spec_to_shift(self.order, w, j);
                assert(abs_of(e0, j, w) == p);
                crate::order::lemma_order_roundtrip(self.order, w, j, j);
                assert(d.covers(e0, j) <==> self.contains(p));
                let oe = old0[e0 as int];
                lemma_merge_masked_bit(oe, !oe, hm, s);
                lemma_merge_masked_bit(oe, !oe, tm, s);
                lemma_merge_masked_bit(oe, !oe, full, s);
                lemma_ones_bit(w, s);
                lemma_bit_algebra(oe, oe, s);
            }
        }
    }
}

/// The binary operation a region-to-region combine applies, bit by bit.
#[derive(Clone, Copy, Debug, PartialEq, Eq, Structural)]
pub enum BitCombine {
    /// The destination bit becomes the source bit.
    Copy,
    /// The destination bit becomes `dst & src`.
    And,
    /// The destination bit becomes `dst | src`.
    Or,
    /// The destination bit becomes `dst ^ src`.
    Xor,
}

/// How one destination bit and one source bit combine.
pub open spec fn combine_bit(op: BitCombine, d: bool, s: bool) -> bool {
    match op {
        BitCombine::Copy => s,
        BitCombine::And => d && s,
        BitCombine::Or => d || s,
        BitCombine::Xor => d != s,
    }
}

impl BitRegion {
    /// Collects `phi - plo` bits of this (source) region, starting at
    /// region offset `off`, into a word shaped for a destination element:
    /// the bit for offset `off + t` lands at the destination shift of
    /// position `plo + t` under `dorder`.
    fn gather(
        self,
        store: &BitStore,
        off: usize,
        dorder: BitOrder,
        w: usize,
        plo: usize,
        phi: usize,
    ) -> (r: u64)
        requires
            store.wf(),
            self.valid_for(*store),
            w <= 64,
            plo <= phi <= w,
            off + (phi - plo) <= self.len,
        ensures
            forall|s: usize|
                s < 64 ==> #[trigger] bit_get(r, s) == (s < w && plo <= spec_to_position(
                    dorder,
                    w,
                    s,
                ) < phi && store.spec_bit(
                    self.order,
                    self.start() + off + (spec_to_position(dorder, w, s) - plo),
                )),
    {
        let mut r: u64 = 0;
        let mut t: usize = 0;
        proof {
            assert forall|s: usize| s < 64 implies !bit_get(0u64, s) by {
                lemma_zero_bit(s);
            }
        }
        while t < phi - plo
            invariant
                store.wf(),
                self.valid_for(*store),
                w <= 64,
                plo <= phi <= w,
                off + (phi - plo) <= self.len,
                t <= phi - plo,
                forall|s: usize|
                    s < 64 ==> #[trigger] bit_get(r, s) == (s < w && plo <= spec_to_position(
                        dorder,
                        w,
                        s,
                    ) < plo + t && store.spec_bit(
                        self.order,
                        self.start() + off + (spec_to_position(dorder, w, s) - plo),
                    )),
            decreases phi - plo - t,
        {
            let b = self.get(store, off + t);
            let sh = dorder.to_shift(w, plo + t);
            let ghost r0 = r;
            r = crate::bits::write_bit(r, sh, b);
            proof {
                crate::order::lemma_order_roundtrip(dorder, w, (plo + t) as usize, sh);
                assert forall|s: usize| s < 64 implies #[trigger] bit_get(r, s) == (s < w && plo
                    <= spec_to_position(dorder, w, s) < plo + t + 1 && store.spec_bit(
                    self.order,
                    self.start() + off + (spec_to_position(dorder, w, s) - plo),
                )) by {
                    if s < w {
                        crate::order::lemma_order_roundtrip(dorder, w, spec_to_position(
                            dorder,
                            w,
                            s,
                        ), s);
                    }
                }
            }
            t = t + 1;
        }
        r
    }

    /// Combines one destination element with the matching source bits:
    /// a single masked read-modify-write against element `e`, whose
    /// positions `plo..phi` hold the region offsets `off..`.
    fn combine_elem(
        self,
        store: &mut BitStore,
        src: BitRegion,
        src_store: &BitStore,
        op: BitCombine,
        e: usize,
        plo: usize,
        phi: usize,
        off: usize,
    )
        requires
            old(store).wf(),
            src_store.wf(),
            src.valid_for(*src_store),
            self.addr.wf(),
            self.addr.spec_width() == old(store).spec_width(),
            e < old(store).spec_elems().len(),
            plo <= phi <= old(store).spec_width(),
            off + (phi - plo) <= src.len,
            abs_of(e, plo, old(store).spec_width()) == self.start() + off,
        ensures
            final(store).wf(),
            final(store).same_shape(*old(store)),
            forall|p: int|
                0 <= p < old(store).total_bits() ==> final(store).spec_bit(self.order, p) == (
                if self.start() + off <= p < self.start() + off + (phi - plo) {
                    combine_bit(
                        op,
                        old(store).spec_bit(self.order, p),
                        src_store.spec_bit(src.order, src.start() + (p - self.start())),
                    )
                } else {
                    old(store).spec_bit(self.order, p)
                }),
    {
        let w = store.width();
        let ghost n = store.spec_elems().len() as int;
        let ghost old0 = store.spec_elems();
        let m = order_mask(self.order, w, plo, phi);
        let chunk = src.gather(src_store, off, self.order, w, plo, phi);
        let old_e = store.load_elem(e);
        let v = match op {
            BitCombine::Copy => chunk,
            BitCombine::And => old_e & chunk,
            BitCombine::Or => old_e | chunk,
            BitCombine::Xor => old_e ^ chunk,
        };
        store.store_masked(e, v, m);
        proof {
            assert forall|p: int|
                0 <= p < old(store).total_bits() implies store.spec_bit(self.order, p) == (if self
                .start() + off <= p < self.start() + off + (phi - plo) {
                combine_bit(
                    op,
                    old(store).spec_bit(self.order, p),
                    src_store.spec_bit(src.order, src.start() + (p - self.start())),
                )
            } else {
                old(store).spec_bit(self.order, p)
            }) by {
                lemma_pos_split(p, w, n);
                let e0 = (p / (w as int)) as usize;
                let j0 = (p % (w as int)) as usize;
                let s0 = spec_to_shift(self.order, w, j0);
                crate::order::lemma_order_roundtrip(self.order, w, j0, j0);
                if e0 == e {
                    assert(abs_of(e0, j0, w) == p);
                    lemma_merge_masked_bit(old0[e0 as int], v, m, s0);
                    lemma_bit_algebra(old_e, chunk, s0);
                } else {
                    // Positions of the window all live in element `e`.
                    if self.start() + off <= p < self.start() + off + (phi - plo) {
                        let jw = (p - (self.start() + off) + plo) as usize;
                        lemma_pos_join(e, jw, w);
                        assert(abs_of(e, jw, w) == p);
                        assert(false);
                    }
                }
            }
        }
    }

    /// Combines this (destination) region with a source region of the
    /// same length, bit for bit, under `op`: copy, and, or, or xor.
    /// Implemented by domain decomposition over the destination — the
    /// matching source bits are gathered per element, and each touched
    /// destination element receives exactly one masked read-modify-write.
    /// The contract is the bit-by-bit reference: every named bit becomes
    /// `combine_bit` of the old destination bit and the matching source
    /// bit; every other bit of the store keeps its value.
    #[verifier::rlimit(60)]
    pub fn combine(self, store: &mut BitStore, src: BitRegion, src_store: &BitStore, op: BitCombine)
        requires
            old(store).wf(),
            self.valid_for(*old(store)),
            src_store.wf(),
            src.valid_for(*src_store),
            src.len == self.len,
        ensures
            final(store).wf(),
            final(store).same_shape(*old(store)),
            forall|p: int|
                0 <= p < old(store).total_bits() ==> final(store).spec_bit(self.order, p) == (
                if self.contains(p) {
                    combine_bit(
                        op,
                        old(store).spec_bit(self.order, p),
                        src_store.spec_bit(src.order, src.start() + (p - self.start())),
                    )
                } else {
                    old(store).spec_bit(self.order, p)
                }),
    {
        let w = store.width();
        let ghost n = store.spec_elems().len() as int;
        let ghost start = self.start();
        let d = Domain::new(self.addr, self.len);
        proof {
            if d.head is Some {
                let h = d.head.unwrap();
                assert(d.covers(h.elem, h.lo));
                lemma_elem_in_store(h.elem, h.lo, w, n);
            }
            if d.body_start < d.body_end {
                let last = (d.body_end - 1) as usize;
                assert(d.covers(last, 0));
                lemma_elem_in_store(last, 0, w, n);
            } else if d.tail is Some {
                let t = d.tail.unwrap();
                assert(d.covers(t.elem, t.lo));
                lemma_elem_in_store(t.elem, t.lo, w, n);
            } else if d.head is None {
                if self.len > 0 {
                    assert(abs_of(self.addr.elem, self.addr.index.spec_value(), w)
                        == self.start());
                    assert(d.covers(self.addr.elem, self.addr.index.spec_value()));
                    assert(false);
                }
                assert(self.addr.elem <= n) by (nonlinear_arith)
                    requires
                        self.addr.elem * w + self.addr.index.spec_value() <= n * w,
                        w > 0,
                        n >= 0,
                        self.addr.elem >= 0,
                ;
            }
            assert(d.body_end <= n);
        }
        let mut off: usize = 0;
        if let Some(h) = d.head {
            proof {
                assert(d.covers(h.elem, (h.hi - 1) as usize));
                assert(abs_of(h.elem, (h.hi - 1) as usize, w) == self.start() + (h.hi - h.lo)
                    - 1);
            }
            let ghost store_before = *store;
            self.combine_elem(store, src, src_store, op, h.elem, h.lo, h.hi, off);
            proof {
                lemma_combine_prefix_extend(
                    self,
                    src,
                    *src_store,
                    *old(store),
                    store_before,
                    *store,
                    op,
                    0,
                    (h.hi - h.lo) as int,
                );
            }
            off = h.hi - h.lo;
        }
        proof {
            assert((d.body_start - d.body_start) * w == 0) by (nonlinear_arith);
            assert(off == spec_head_len(d) + (d.body_start - d.body_start) * w);
        }
        let mut e = d.body_start;
        while e < d.body_end
            invariant
                store.wf(),
                store.same_shape(*old(store)),
                store.spec_width() == w,
                self.valid_for(*old(store)),
                src_store.wf(),
                src.valid_for(*src_store),
                src.len == self.len,
                d.decomposes(self.start(), self.len, w),
                self.addr.wf(),
                self.addr.spec_width() == w,
                d.body_start <= e <= d.body_end,
                d.body_end <= n,
                store.spec_elems().len() == n,
                off == spec_head_len(d) + (e - d.body_start) * w,
                d.body_start < d.body_end ==> d.body_start * w == self.start() + spec_head_len(d),
                off <= usize::MAX,
                forall|p: int|
                    0 <= p < old(store).total_bits() ==> store.spec_bit(self.order, p) == (
                    if self.start() <= p < self.start() + off {
                        combine_bit(
                            op,
                            old(store).spec_bit(self.order, p),
                            src_store.spec_bit(src.order, src.start() + (p - self.start())),
                        )
                    } else {
                        old(store).spec_bit(self.order, p)
                    }),
            decreases d.body_end - e,
        {
            proof {
                assert(d.covers(e, 0));
                assert(d.covers(e, (w - 1) as usize));
                lemma_elem_in_store(e, 0, w, n);
                assert(e * w == self.start() + off) by (nonlinear_arith)
                    requires
                        off == spec_head_len(d) + (e - d.body_start) * w,
                        d.body_start * w == self.start() + spec_head_len(d),
                        e >= d.body_start,
                ;
                // The whole element is inside the region, so the offset
                // budget allows one more element.
                assert(abs_of(e, (w - 1) as usize, w) < self.start() + self.len);
                assert((e - d.body_start + 1) * w == (e - d.body_start) * w + w)
                    by (nonlinear_arith);
            }
            let ghost store_before = *store;
            self.combine_elem(store, src, src_store, op, e, 0, w, off);
            proof {
                lemma_combine_prefix_extend(
                    self,
                    src,
                    *src_store,
                    *old(store),
                    store_before,
                    *store,
                    op,
                    off as int,
                    w as int,
                );
            }
            off = off + w;
            e = e + 1;
        }
        proof {
            if d.body_start < d.body_end {
                assert(d.body_end * w == self.start() + off) by (nonlinear_arith)
                    requires
                        off == spec_head_len(d) + (d.body_end - d.body_start) * w,
                        d.body_start * w == self.start() + spec_head_len(d),
                        d.body_end >= d.body_start,
                ;
            }
        }
        if let Some(t) = d.tail {
            proof {
                lemma_elem_in_store(t.elem, t.lo, w, n);
                assert(d.covers(t.elem, t.lo));
                assert(t.elem * w == self.start() + spec_head_len(d) + (d.body_end
                    - d.body_start) * w);
                assert(abs_of(t.elem, t.lo, w) == self.start() + off);
                assert(t.elem * w + t.hi == self.start() + self.len);
            }
            let ghost store_before = *store;
            self.combine_elem(store, src, src_store, op, t.elem, t.lo, t.hi, off);
            proof {
                lemma_combine_prefix_extend(
                    self,
                    src,
                    *src_store,
                    *old(store),
                    store_before,
                    *store,
                    op,
                    off as int,
                    (t.hi - t.lo) as int,
                );
            }
            off = off + (t.hi - t.lo);
        }
        proof {
            if d.tail is None && d.body_start == d.body_end {
                assert((d.body_end - d.body_start) * w == 0) by (nonlinear_arith)
                    requires
                        d.body_end == d.body_start,
                ;
            }
            assert(off == self.len);
        }
    }
}

impl BitRegion {
    /// Copies a source region of the same length into this one, bit for
    /// bit: `combine` under the copy operation.
    pub fn copy_from(self, store: &mut BitStore, src: BitRegion, src_store: &BitStore)
        requires
            old(store).wf(),
            self.valid_for(*old(store)),
            src_store.wf(),
            src.valid_for(*src_store),
            src.len == self.len,
        ensures
            final(store).wf(),
            final(store).same_shape(*old(store)),
            forall|p: int|
                0 <= p < old(store).total_bits() ==> final(store).spec_bit(self.order, p) == (
                if self.contains(p) {
                    src_store.spec_bit(src.order, src.start() + (p - self.start()))
                } else {
                    old(store).spec_bit(self.order, p)
                }),
    {
        self.combine(store, src, src_store, BitCombine::Copy)
    }
}

/// Extending an already-combined prefix of `cnt` more bits keeps the
/// prefix shape: positions below the new boundary carry the combined
/// value, positions at or above it still carry the starting one.
proof fn lemma_combine_prefix_extend(
    dst: BitRegion,
    src: BitRegion,
    src_store: BitStore,
    orig: BitStore,
    before: BitStore,
    after: BitStore,
    op: BitCombine,
    off: int,
    cnt: int,
)
    requires
        off >= 0,
        cnt >= 0,
        orig.same_shape(before),
        before.same_shape(after),
        forall|p: int|
            0 <= p < orig.total_bits() ==> before.spec_bit(dst.order, p) == (if dst.start() <= p
                < dst.start() + off {
                combine_bit(
                    op,
                    orig.spec_bit(dst.order, p),
                    src_store.spec_bit(src.order, src.start() + (p - dst.start())),
                )
            } else {
                orig.spec_bit(dst.order, p)
            }),
        forall|p: int|
            0 <= p < before.total_bits() ==> after.spec_bit(dst.order, p) == (if dst.start() + off
                <= p < dst.start() + off + cnt {
                combine_bit(
                    op,
                    before.spec_bit(dst.order, p),
                    src_store.spec_bit(src.order, src.start() + (p - dst.start())),
                )
            } else {
                before.spec_bit(dst.order, p)
            }),
    ensures
        forall|p: int|
            0 <= p < orig.total_bits() ==> after.spec_bit(dst.order, p) == (if dst.start() <= p
                < dst.start() + off + cnt {
                combine_bit(
                    op,
                    orig.spec_bit(dst.order, p),
                    src_store.spec_bit(src.order, src.start() + (p - dst.start())),
                )
            } else {
                orig.spec_bit(dst.order, p)
            }),
{
    assert forall|p: int|
        0 <= p < orig.total_bits() implies after.spec_bit(dst.order, p) == (if dst.start() <= p
        < dst.start() + off + cnt {
        combine_bit(
            op,
            orig.spec_bit(dst.order, p),
            src_store.spec_bit(src.order, src.start() + (p - dst.start())),
        )
    } else {
        orig.spec_bit(dst.order, p)
    }) by {
        assert(orig.spec_elems().len() == before.spec_elems().len());
        assert(orig.total_bits() == before.total_bits());
        assert(before.spec_bit(dst.order, p) == (if dst.start() <= p < dst.start() + off {
            combine_bit(
                op,
                orig.spec_bit(dst.order, p),
                src_store.spec_bit(src.order, src.start() + (p - dst.start())),
            )
        } else {
            orig.spec_bit(dst.order, p)
        }));
        assert(after.spec_bit(dst.order, p) == (if dst.start() + off <= p < dst.start() + off
            + cnt {
            combine_bit(
                op,
                before.spec_bit(dst.order, p),
                src_store.spec_bit(src.order, src.start() + (p - dst.start())),
            )
        } else {
            before.spec_bit(dst.order, p)
        }));
    }
}

} // verus!
