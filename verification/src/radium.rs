//! The storage capability: shared-mutable cells with load / store /
//! fetch-and / fetch-or / fetch-xor, uniformly for hardware-atomic cells
//! and plain unsynchronised ones.
//!
//! [`Atom`] is backed by a real atomic from the `portable_atomic` crate,
//! reached through trusted wrappers; [`Isotope`] is the unsynchronised
//! fallback, verified end to end.  Both implement [`Radium`], whose
//! contracts describe every operation under exclusive access — which is
//! the only access the verifier reasons about.  Under cross-thread
//! sharing, `Atom`'s operations stay atomic at the hardware level, which
//! is what the masked read-modify-write protocol of the region engine
//! relies on at shared elements.

use crate::widths::Sealed;
use core::sync::atomic::Ordering;
use vstd::prelude::*;

verus! {

/// Declares `portable_atomic`'s 64-bit atomic integer to the verifier.
#[verifier::external_type_specification]
#[verifier::external_body]
pub struct ExAtomicU64(portable_atomic::AtomicU64);

/// The value a `portable_atomic::AtomicU64` cell holds.
pub uninterp spec fn atom_contents(a: portable_atomic::AtomicU64) -> u64;

/// Relies on `portable_atomic::AtomicU64::new`: the cell starts out
/// holding `v`.
#[verifier::external_body]
fn atomic_new(v: u64) -> (a: portable_atomic::AtomicU64)
    ensures
        atom_contents(a) == v,
{
    portable_atomic::AtomicU64::new(v)
}

/// Relies on `portable_atomic::AtomicU64::into_inner`: consuming the cell
/// returns the value it held.
#[verifier::external_body]
fn atomic_into_inner(a: portable_atomic::AtomicU64) -> (v: u64)
    ensures
        v == atom_contents(a),
{
    a.into_inner()
}

/// Relies on `portable_atomic::AtomicU64::load`: returns the stored
/// value; under the exclusive borrow no other writer exists, so the read
/// is the cell's one value.  `Release` and `AcqRel` panic there and are
/// excluded.
#[verifier::external_body]
fn atomic_load(a: &mut portable_atomic::AtomicU64, order: Ordering) -> (v: u64)
    requires
        order != Ordering::Release,
        order != Ordering::AcqRel,
    ensures
        v == atom_contents(*old(a)),
        atom_contents(*final(a)) == atom_contents(*old(a)),
{
    a.load(order)
}

/// Relies on `portable_atomic::AtomicU64::store`: the cell holds `v`
/// afterwards.  `Acquire` and `AcqRel` panic there and are excluded.
#[verifier::external_body]
fn atomic_store(a: &mut portable_atomic::AtomicU64, v: u64, order: Ordering)
    requires
        order != Ordering::Acquire,
        order != Ordering::AcqRel,
    ensures
        atom_contents(*final(a)) == v,
{
    a.store(v, order)
}

/// Relies on `portable_atomic::AtomicU64::swap`: stores `v` and returns
/// the previous value, as one atomic step.
#[verifier::external_body]
fn atomic_swap(a: &mut portable_atomic::AtomicU64, v: u64, order: Ordering) -> (r: u64)
    ensures
        r == atom_contents(*old(a)),
        atom_contents(*final(a)) == v,
{
    a.swap(v, order)
}

/// Relies on `portable_atomic::AtomicU64::fetch_and`: stores `old & v`
/// and returns the previous value, as one atomic step.
#[verifier::external_body]
fn atomic_fetch_and(a: &mut portable_atomic::AtomicU64, v: u64, order: Ordering) -> (r: u64)
    ensures
        r == atom_contents(*old(a)),
        atom_contents(*final(a)) == (atom_contents(*old(a)) & v),
{
    a.fetch_and(v, order)
}

/// Relies on `portable_atomic::AtomicU64::fetch_or`: stores `old | v`
/// and returns the previous value, as one atomic step.
#[verifier::external_body]
fn atomic_fetch_or(a: &mut portable_atomic::AtomicU64, v: u64, order: Ordering) -> (r: u64)
    ensures
        r == atom_contents(*old(a)),
        atom_contents(*final(a)) == (atom_contents(*old(a)) | v),
{
    a.fetch_or(v, order)
}

/// Relies on `portable_atomic::AtomicU64::fetch_xor`: stores `old ^ v`
/// and returns the previous value, as one atomic step.
#[verifier::external_body]
fn atomic_fetch_xor(a: &mut portable_atomic::AtomicU64, v: u64, order: Ordering) -> (r: u64)
    ensures
        r == atom_contents(*old(a)),
        atom_contents(*final(a)) == (atom_contents(*old(a)) ^ v),
{
    a.fetch_xor(v, order)
}

/// Relies on `portable_atomic::fence`: an atomic memory fence.  A
/// `Relaxed` fence panics there and is excluded.
#[verifier::external_body]
fn atomic_fence(order: Ordering)
    requires
        order != Ordering::Relaxed,
{
    portable_atomic::fence(order)
}

/// Marks a type that supports the bitwise operations a storage element
/// needs.
pub trait BitOps {}

/// Marks a type that also supports integer arithmetic and comparison.
pub trait NumericOps: BitOps {}

/// Marks a primitive whose width has a hardware-atomic cell on this
/// target.
pub trait Atomic {}

/// Marks a primitive whose width has a best-effort shared-mutable cell:
/// atomic where the target offers one, unsynchronised otherwise.
pub trait Nuclear {}

impl BitOps for bool {}

impl BitOps for u8 {}

impl BitOps for u16 {}

impl BitOps for u32 {}

impl BitOps for u64 {}

impl BitOps for usize {}

impl BitOps for i8 {}

impl BitOps for i16 {}

impl BitOps for i32 {}

impl BitOps for i64 {}

impl BitOps for isize {}

impl NumericOps for u8 {}

impl NumericOps for u16 {}

impl NumericOps for u32 {}

impl NumericOps for u64 {}

impl NumericOps for usize {}

impl NumericOps for i8 {}

impl NumericOps for i16 {}

impl NumericOps for i32 {}

impl NumericOps for i64 {}

impl NumericOps for isize {}

impl Atomic for u8 {}

impl Atomic for u16 {}

impl Atomic for u32 {}

impl Atomic for u64 {}

impl Nuclear for u8 {}

impl Nuclear for u16 {}

impl Nuclear for u32 {}

impl Nuclear for u64 {}

impl Nuclear for usize {}

/// A shared-mutable storage cell for one element value.
///
/// Every contract speaks of `contents()`, the value the cell holds, and
/// describes the operation under exclusive access; an implementation
/// backed by hardware atomics additionally keeps each operation a single
/// atomic step under cross-thread sharing.
pub trait Radium: Sized {
    /// The value the cell currently holds.
    spec fn contents(&self) -> u64;

    /// Builds a cell holding `v`.
    fn new(v: u64) -> (r: Self)
        ensures
            r.contents() == v,
    ;

    /// A memory fence of the implementation's strength.  `Relaxed` is not
    /// a meaningful fence ordering and is excluded.
    fn fence(order: Ordering)
        requires
            order != Ordering::Relaxed,
    ;

    /// Consumes the cell and returns the value it held.
    fn into_inner(self) -> (r: u64)
        ensures
            r == self.contents(),
    ;

    /// Loads the stored value.  The orderings that panic on loads are
    /// excluded.
    fn load(&mut self, order: Ordering) -> (r: u64)
        requires
            order != Ordering::Release,
            order != Ordering::AcqRel,
        ensures
            r == old(self).contents(),
            final(self).contents() == old(self).contents(),
    ;

    /// Stores `v`.  The orderings that panic on stores are excluded.
    fn store(&mut self, v: u64, order: Ordering)
        requires
            order != Ordering::Acquire,
            order != Ordering::AcqRel,
        ensures
            final(self).contents() == v,
    ;

    /// Stores `v` and returns the previous value, as one step.
    fn swap(&mut self, v: u64, order: Ordering) -> (r: u64)
        ensures
            r == old(self).contents(),
            final(self).contents() == v,
    ;

    /// Stores `old & v` and returns the previous value, as one step.
    fn fetch_and(&mut self, v: u64, order: Ordering) -> (r: u64)
        ensures
            r == old(self).contents(),
            final(self).contents() == (old(self).contents() & v),
    ;

    /// Stores `old | v` and returns the previous value, as one step.
    fn fetch_or(&mut self, v: u64, order: Ordering) -> (r: u64)
        ensures
            r == old(self).contents(),
            final(self).contents() == (old(self).contents() | v),
    ;

    /// Stores `old ^ v` and returns the previous value, as one step.
    fn fetch_xor(&mut self, v: u64, order: Ordering) -> (r: u64)
        ensures
            r == old(self).contents(),
            final(self).contents() == (old(self).contents() ^ v),
    ;
}

/// An element cell backed by a hardware atomic: every operation is a
/// single atomic instruction (or an equivalent), so two regions sharing
/// the element may mutate their disjoint bits concurrently without lost
/// updates, provided both go through the masked read-modify-write
/// protocol.
pub struct Atom {
    inner: portable_atomic::AtomicU64,
}

impl Sealed for Atom {}

impl Radium for Atom {
    closed spec fn contents(&self) -> u64 {
        atom_contents(self.inner)
    }

    fn new(v: u64) -> (r: Self) {
        Atom { inner: atomic_new(v) }
    }

    fn fence(order: Ordering) {
        atomic_fence(order);
    }

    fn into_inner(self) -> (r: u64) {
        atomic_into_inner(self.inner)
    }

    fn load(&mut self, order: Ordering) -> (r: u64) {
        atomic_load(&mut self.inner, order)
    }

    fn store(&mut self, v: u64, order: Ordering) {
        atomic_store(&mut self.inner, v, order);
    }

    fn swap(&mut self, v: u64, order: Ordering) -> (r: u64) {
        atomic_swap(&mut self.inner, v, order)
    }

    fn fetch_and(&mut self, v: u64, order: Ordering) -> (r: u64) {
        atomic_fetch_and(&mut self.inner, v, order)
    }

    fn fetch_or(&mut self, v: u64, order: Ordering) -> (r: u64) {
        atomic_fetch_or(&mut self.inner, v, order)
    }

    fn fetch_xor(&mut self, v: u64, order: Ordering) -> (r: u64) {
        atomic_fetch_xor(&mut self.inner, v, order)
    }
}

/// The unsynchronised fallback cell: plain storage with the same
/// interface and the same verified contracts, but no atomicity — a store
/// whose cells are `Isotope`s reports no atomic capability, and building
/// a mutable region with a shared edge over it fails fast.
pub struct Isotope {
    inner: u64,
}

impl Sealed for Isotope {}

impl Radium for Isotope {
    closed spec fn contents(&self) -> u64 {
        self.inner
    }

    fn new(v: u64) -> (r: Self) {
        Isotope { inner: v }
    }

    fn fence(order: Ordering) {
    }

    fn into_inner(self) -> (r: u64) {
        self.inner
    }

    fn load(&mut self, order: Ordering) -> (r: u64) {
        self.inner
    }

    fn store(&mut self, v: u64, order: Ordering) {
        self.inner = v;
    }

    fn swap(&mut self, v: u64, order: Ordering) -> (r: u64) {
        let prev = self.inner;
        self.inner = v;
        prev
    }

    fn fetch_and(&mut self, v: u64, order: Ordering) -> (r: u64) {
        let prev = self.inner;
        self.inner = prev & v;
        prev
    }

    fn fetch_or(&mut self, v: u64, order: Ordering) -> (r: u64) {
        let prev = self.inner;
        self.inner = prev | v;
        prev
    }

    fn fetch_xor(&mut self, v: u64, order: Ordering) -> (r: u64) {
        let prev = self.inner;
        self.inner = prev ^ v;
        prev
    }
}

/// The shared-edge mutation protocol from the region engine, expressed on
/// one cell: setting or clearing exactly the bits of `mask` is one
/// fetch-or or fetch-and — a single read-modify-write — so a concurrent
/// mutation of the element's other bits through another region is never
/// lost and never corrupted.
pub fn fill_masked<R: Radium>(cell: &mut R, mask: u64, b: bool, order: Ordering)
    ensures
        final(cell).contents() == if b {
            old(cell).contents() | mask
        } else {
            old(cell).contents() & !mask
        },
{
    if b {
        cell.fetch_or(mask, order);
    } else {
        cell.fetch_and(!mask, order);
    }
}

} // verus!
