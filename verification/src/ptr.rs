//! A verified model of permissioned pointers: location handles with
//! address arithmetic and a write-permission history.
//!
//! A [`Pointer`] is a coordinate — an address, the slice-length metadata
//! word, and a permission recorded in the type — never a dereferenceable
//! machine pointer; the engine's storage lives behind [`crate::region`].
//! `Shared` permissions can be stacked on a base permission and popped
//! again, and only a stack whose base is `Unique` can yield a writable
//! handle back.

use core::hash::Hasher;
use core::marker::PhantomData;
use vstd::layout::{align_of, layout_for_type_is_valid, size_of};
use vstd::prelude::*;

verus! {

/// Implementation detail carrier of the permission system.
pub trait Impl {}

/// A pointer permission: either [`Shared`], [`Unique`], or a `Shared`
/// overlay `(Shared, P)` pushed onto a base permission `P`.
pub trait Permission: Impl + Sized {
    /// Whether the stack bottoms out in write capability.
    spec fn writable() -> bool;

    /// Runtime test of [`Permission::writable`].
    fn is_writable() -> (b: bool)
        ensures
            b == Self::writable(),
    ;
}

/// The read-only permission, equivalent to a `&`/`*const` grant.
#[derive(Clone, Copy, Debug, PartialEq, Eq, Structural)]
pub struct Shared;

/// The exclusive permission, equivalent to a `&mut`/`*mut` grant.
#[derive(Clone, Copy, Debug, PartialEq, Eq, Structural)]
pub struct Unique;

impl Impl for Shared {

}

impl Impl for Unique {

}

impl<P: Permission> Impl for (Shared, P) {

}

impl Permission for Shared {
    open spec fn writable() -> bool {
        false
    }

    fn is_writable() -> (b: bool) {
        false
    }
}

impl Permission for Unique {
    open spec fn writable() -> bool {
        true
    }

    fn is_writable() -> (b: bool) {
        true
    }
}

impl<P: Permission> Permission for (Shared, P) {
    open spec fn writable() -> bool {
        P::writable()
    }

    fn is_writable() -> (b: bool) {
        P::is_writable()
    }
}

/// Marks the crate's model of a raw pointer.
pub trait RawPtr {}

/// Marks the reference shapes a permission can re-expose.
pub trait RawRef {}

impl<T> RawRef for &T {

}

impl<T> RawRef for &mut T {

}

/// The error for an address that fails an alignment demand.
#[derive(Clone, Copy, Debug, PartialEq, Eq, Structural)]
pub struct MisalignedError {
    /// The offending address.
    pub addr: usize,
}

impl MisalignedError {
    /// Records the misaligned address.
    pub fn new(addr: usize) -> (r: MisalignedError)
        ensures
            r.addr == addr,
    {
        MisalignedError { addr }
    }
}

/// The error for a null handle offered where only non-null ones serve.
#[derive(Clone, Copy, Debug, PartialEq, Eq, Structural)]
pub struct NonNullError;

impl NonNullError {
    /// Builds the error value.
    pub fn new() -> (r: NonNullError)
        ensures
            r == NonNullError,
    {
        NonNullError
    }

    /// Discards any permission context the error was raised under.
    pub fn make_const(self) -> (r: NonNullError)
        ensures
            r == NonNullError,
    {
        NonNullError
    }
}

/// The error for a read-only handle asked to become writable.
#[derive(Clone, Copy, Debug, PartialEq, Eq, Structural)]
pub struct NonUniqueError;

impl NonUniqueError {
    /// Builds the error value.
    pub fn new() -> (r: NonUniqueError)
        ensures
            r == NonUniqueError,
    {
        NonUniqueError
    }
}

/// The error for a null handle handed to a non-null constructor.
#[derive(Clone, Copy, Debug, PartialEq, Eq, Structural)]
pub struct NullPointerError;

impl NullPointerError {
    /// Builds the error value.
    pub fn new() -> (r: NullPointerError)
        ensures
            r == NullPointerError,
    {
        NullPointerError
    }
}

/// A location handle: an address in the model address space, the
/// slice-length metadata word (zero for ordinary handles), and a
/// permission carried in the type.  It does not own what it points at
/// and cannot be dereferenced; it only names a place.
pub struct Pointer<T, P: Permission> {
    addr: usize,
    meta: usize,
    _ty: PhantomData<T>,
    _perm: PhantomData<P>,
}

impl<T, P: Permission> Clone for Pointer<T, P> {
    fn clone(&self) -> (r: Self)
        ensures
            r.spec_addr() == self.spec_addr(),
            r.spec_meta() == self.spec_meta(),
    {
        Pointer { addr: self.addr, meta: self.meta, _ty: PhantomData, _perm: PhantomData }
    }
}

impl<T, P: Permission> Copy for Pointer<T, P> {

}

impl<T, P: Permission> RawPtr for Pointer<T, P> {

}

impl<T, P: Permission> PartialEq for Pointer<T, P> {
    fn eq(&self, other: &Self) -> (r: bool) {
        self.addr == other.addr && self.meta == other.meta
    }
}

impl<T, P: Permission> vstd::std_specs::cmp::PartialEqSpecImpl for Pointer<T, P> {
    open spec fn obeys_eq_spec() -> bool {
        true
    }

    open spec fn eq_spec(&self, other: &Self) -> bool {
        self.spec_addr() == other.spec_addr() && self.spec_meta() == other.spec_meta()
    }
}

/// Whether stepping `k` strides of `stride` bytes from `addr` lands on a
/// multiple of `align`.
pub open spec fn aligned_at(addr: int, stride: int, align: int, k: int) -> bool {
    (addr + k * stride) % align == 0
}

/// The size of the model address space: one past the largest address.
pub open spec fn addr_space() -> int {
    usize::MAX + 1
}

/// Adds modulo the address space.
fn wrap_add(a: usize, b: usize) -> (r: usize)
    ensures
        r == (a + b) % addr_space(),
{
    let m: u128 = (usize::MAX as u128) + 1;
    let v: u128 = ((a as u128) + (b as u128)) % m;
    proof {
        lemma_small_mod_cast(v as int, m as int);
    }
    v as usize
}

/// Subtracts modulo the address space.
fn wrap_sub(a: usize, b: usize) -> (r: usize)
    ensures
        r == (a - b) % addr_space(),
{
    let m: u128 = (usize::MAX as u128) + 1;
    if b == 0 {
        proof {
            vstd::arithmetic::div_mod::lemma_small_mod(a as nat, m as nat);
        }
        return a;
    }
    let v: u128 = ((a as u128) + (m - (b as u128))) % m;
    proof {
        lemma_small_mod_cast(v as int, m as int);
        vstd::arithmetic::div_mod::lemma_add_mod_noop_right(
            a as int,
            (m - b) as int,
            m as int,
        );
        vstd::arithmetic::div_mod::lemma_mod_add_multiples_vanish((a - b) as int, m as int);
        vstd::arithmetic::div_mod::lemma_small_mod(((m as int) - b) as nat, m as nat);
    }
    v as usize
}

/// Multiplies modulo the address space.
fn wrap_mul(a: usize, b: usize) -> (r: usize)
    ensures
        r == (a * b) % addr_space(),
{
    let m: u128 = (usize::MAX as u128) + 1;
    proof {
        lemma_mul_fits_u128(a as int, b as int);
    }
    let v: u128 = ((a as u128) * (b as u128)) % m;
    proof {
        lemma_small_mod_cast(v as int, m as int);
    }
    v as usize
}

/// A value reduced modulo the address space casts back to `usize` intact.
proof fn lemma_small_mod_cast(v: int, m: int)
    requires
        m == usize::MAX + 1,
        0 <= v < m,
    ensures
        v as usize == v,
{
}

/// The product of two addresses fits the doubled-width integer.
proof fn lemma_mul_fits_u128(a: int, b: int)
    by (nonlinear_arith)
    requires
        0 <= a <= usize::MAX,
        0 <= b <= usize::MAX,
        usize::MAX <= u64::MAX,
    ensures
        a * b <= u128::MAX,
{
}

impl<T, P: Permission> Pointer<T, P> {
    /// The handle's address.
    pub closed spec fn spec_addr(self) -> usize {
        self.addr
    }

    /// The handle's metadata word: the length for slice handles, zero
    /// otherwise.
    pub closed spec fn spec_meta(self) -> usize {
        self.meta
    }

    /// Builds a handle from its parts; the seam every conversion in this
    /// module goes through.
    fn assemble(addr: usize, meta: usize) -> (r: Self)
        ensures
            r.spec_addr() == addr,
            r.spec_meta() == meta,
    {
        Pointer { addr, meta, _ty: PhantomData, _perm: PhantomData }
    }

    /// The null handle.
    pub fn null() -> (r: Self)
        ensures
            r.spec_addr() == 0,
            r.spec_meta() == 0,
    {
        Self::assemble(0, 0)
    }

    /// A well-aligned handle that points at nothing: its address is the
    /// pointee's alignment.
    pub fn dangling() -> (r: Self)
        ensures
            r.spec_addr() == align_of::<T>(),
            r.spec_addr() != 0,
            r.spec_meta() == 0,
    {
        layout_for_type_is_valid::<T>();
        Self::assemble(core::mem::align_of::<T>(), 0)
    }

    /// Rebuilds a handle from an address previously exposed with
    /// [`Pointer::expose_provenance`].
    pub fn with_exposed_provenance(addr: usize) -> (r: Self)
        ensures
            r.spec_addr() == addr,
            r.spec_meta() == 0,
    {
        Self::assemble(addr, 0)
    }

    /// A handle carrying only an address and no provenance: valid to
    /// compare and offset, never to turn back into live storage.
    pub fn without_provenance(addr: usize) -> (r: Self)
        ensures
            r.spec_addr() == addr,
            r.spec_meta() == 0,
    {
        Self::assemble(addr, 0)
    }

    /// Tests if the handle is null.
    pub fn is_null(self) -> (r: bool)
        ensures
            r == (self.spec_addr() == 0),
    {
        self.addr == 0
    }

    /// Repoints the handle at another pointee type, discarding slice
    /// metadata (metadata can be discarded, never conjured).
    pub fn cast<U>(self) -> (r: Pointer<U, P>)
        ensures
            r.spec_addr() == self.spec_addr(),
            r.spec_meta() == 0,
    {
        Pointer::<U, P>::assemble(self.addr, 0)
    }

    /// Reversibly blunts the handle by pushing a `Shared` overlay onto
    /// its permission stack.
    pub fn make_shared(self) -> (r: Pointer<T, (Shared, P)>)
        ensures
            r.spec_addr() == self.spec_addr(),
            r.spec_meta() == self.spec_meta(),
    {
        Pointer::assemble(self.addr, self.meta)
    }

    /// Pushes a `Shared` overlay; the irreversible spelling kept beside
    /// [`Pointer::make_shared`].
    pub fn cast_shared(self) -> (r: Pointer<T, (Shared, P)>)
        ensures
            r.spec_addr() == self.spec_addr(),
            r.spec_meta() == self.spec_meta(),
    {
        Pointer::assemble(self.addr, self.meta)
    }

    /// Discards the permission stack for a plain read-only handle.
    pub fn make_const(self) -> (r: Pointer<T, Shared>)
        ensures
            r.spec_addr() == self.spec_addr(),
            r.spec_meta() == self.spec_meta(),
    {
        Pointer::assemble(self.addr, self.meta)
    }

    /// Changes constness without changing the pointee: the read-only
    /// spelling of the handle.
    pub fn cast_const(self) -> (r: Pointer<T, Shared>)
        ensures
            r.spec_addr() == self.spec_addr(),
            r.spec_meta() == self.spec_meta(),
    {
        Pointer::assemble(self.addr, self.meta)
    }

    /// Recovers a writable handle, exactly when the permission stack
    /// bottoms out in `Unique`; a stack rooted in `Shared` is refused —
    /// uniqueness is never conjured.
    pub fn make_mut(self) -> (r: Result<Pointer<T, Unique>, NonUniqueError>)
        ensures
            r is Ok <==> P::writable(),
            r matches Ok(p) ==> p.spec_addr() == self.spec_addr() && p.spec_meta()
                == self.spec_meta(),
    {
        if P::is_writable() {
            Ok(Pointer::assemble(self.addr, self.meta))
        } else {
            Err(NonUniqueError::new())
        }
    }

    /// Like [`Pointer::make_mut`], under the name the permission-cast
    /// family uses.
    pub fn try_cast_unique(self) -> (r: Result<Pointer<T, Unique>, NonUniqueError>)
        ensures
            r is Ok <==> P::writable(),
            r matches Ok(p) ==> p.spec_addr() == self.spec_addr() && p.spec_meta()
                == self.spec_meta(),
    {
        self.make_mut()
    }

    /// The writable spelling of the handle.  Only a stack rooted in
    /// `Unique` may ask; anything else is a structural misuse that the
    /// caller must rule out beforehand.
    pub fn cast_mut(self) -> (r: Pointer<T, Unique>)
        requires
            P::writable(),
        ensures
            r.spec_addr() == self.spec_addr(),
            r.spec_meta() == self.spec_meta(),
    {
        Pointer::assemble(self.addr, self.meta)
    }

    /// The address portion of the handle, without exposing provenance.
    pub fn addr(self) -> (r: usize)
        ensures
            r == self.spec_addr(),
    {
        self.addr
    }

    /// The address portion, marking the provenance as exposed so that
    /// [`Pointer::with_exposed_provenance`] may rebuild the handle.
    pub fn expose_provenance(self) -> (r: usize)
        ensures
            r == self.spec_addr(),
    {
        self.addr
    }

    /// A handle at the given address with this handle's provenance.
    pub fn with_addr(self, addr: usize) -> (r: Self)
        ensures
            r.spec_addr() == addr,
            r.spec_meta() == self.spec_meta(),
    {
        Self::assemble(addr, self.meta)
    }

    /// A handle whose address is `func` of this one's, keeping the
    /// provenance.
    pub fn map_addr<F: FnOnce(usize) -> usize>(self, func: F) -> (r: Self)
        requires
            func.requires((self.spec_addr(),)),
        ensures
            func.ensures((self.spec_addr(),), r.spec_addr()),
            r.spec_meta() == self.spec_meta(),
    {
        let a = func(self.addr);
        Self::assemble(a, self.meta)
    }

    /// Moves the handle forward `count` pointees, wrapping around the
    /// address space.
    pub fn wrapping_add(self, count: usize) -> (r: Self)
        ensures
            r.spec_addr() == (self.spec_addr() + count * size_of::<T>()) % addr_space(),
            r.spec_meta() == self.spec_meta(),
    {
        let step = wrap_mul(count, core::mem::size_of::<T>());
        let a = wrap_add(self.addr, step);
        proof {
            vstd::arithmetic::div_mod::lemma_add_mod_noop_right(
                self.spec_addr() as int,
                (count * size_of::<T>()) as int,
                addr_space(),
            );
        }
        Self::assemble(a, self.meta)
    }

    /// Moves the handle back `count` pointees, wrapping around the
    /// address space.
    pub fn wrapping_sub(self, count: usize) -> (r: Self)
        ensures
            r.spec_addr() == (self.spec_addr() - count * size_of::<T>()) % addr_space(),
            r.spec_meta() == self.spec_meta(),
    {
        let step = wrap_mul(count, core::mem::size_of::<T>());
        let a = wrap_sub(self.addr, step);
        proof {
            lemma_sub_mod_noop_right(
                self.spec_addr() as int,
                step as int,
                (count * size_of::<T>()) as int,
                addr_space(),
            );
        }
        Self::assemble(a, self.meta)
    }

    /// Moves the handle forward `count` bytes, wrapping around.
    pub fn wrapping_byte_add(self, count: usize) -> (r: Self)
        ensures
            r.spec_addr() == (self.spec_addr() + count) % addr_space(),
            r.spec_meta() == self.spec_meta(),
    {
        Self::assemble(wrap_add(self.addr, count), self.meta)
    }

    /// Moves the handle back `count` bytes, wrapping around.
    pub fn wrapping_byte_sub(self, count: usize) -> (r: Self)
        ensures
            r.spec_addr() == (self.spec_addr() - count) % addr_space(),
            r.spec_meta() == self.spec_meta(),
    {
        Self::assemble(wrap_sub(self.addr, count), self.meta)
    }

    /// Moves the handle by a signed count of pointees, wrapping around.
    pub fn wrapping_offset(self, count: isize) -> (r: Self)
        ensures
            r.spec_addr() == (self.spec_addr() + count * size_of::<T>()) % addr_space(),
            r.spec_meta() == self.spec_meta(),
    {
        if count >= 0 {
            self.wrapping_add(count as usize)
        } else {
            let mag = (-(count as i128)) as usize;
            let r = self.wrapping_sub(mag);
            proof {
                assert((count as int) * size_of::<T>() == -((mag as int) * size_of::<T>()))
                    by (nonlinear_arith)
                    requires
                        count < 0,
                        mag == -(count as int),
                ;
            }
            r
        }
    }

    /// Moves the handle by a signed count of bytes, wrapping around.
    pub fn wrapping_byte_offset(self, count: isize) -> (r: Self)
        ensures
            r.spec_addr() == (self.spec_addr() + count) % addr_space(),
            r.spec_meta() == self.spec_meta(),
    {
        if count >= 0 {
            self.wrapping_byte_add(count as usize)
        } else {
            self.wrapping_byte_sub((-(count as i128)) as usize)
        }
    }

    /// The least number of pointee-sized steps that brings the address
    /// onto a multiple of `align`, or `usize::MAX` if no step below
    /// `align` does.  `align` must be a power of two, as for machine
    /// pointers.
    pub fn align_offset(self, align: usize) -> (r: usize)
        requires
            align >= 1,
        ensures
            r != usize::MAX ==> r < align && aligned_at(
                self.spec_addr() as int,
                size_of::<T>() as int,
                align as int,
                r as int,
            ) && forall|k: int|
                0 <= k < r ==> !aligned_at(
                    self.spec_addr() as int,
                    size_of::<T>() as int,
                    align as int,
                    k,
                ),
            r == usize::MAX ==> forall|k: int|
                0 <= k < align ==> !aligned_at(
                    self.spec_addr() as int,
                    size_of::<T>() as int,
                    align as int,
                    k,
                ),
    {
        let stride = core::mem::size_of::<T>();
        let a = self.addr % align;
        let s = stride % align;
        let m: u128 = align as u128;
        let mut k: usize = 0;
        while k < align
            invariant
                align >= 1,
                a == self.spec_addr() as int % (align as int),
                s == size_of::<T>() as int % (align as int),
                m == align,
                k <= align,
                forall|j: int|
                    0 <= j < k ==> !aligned_at(
                        self.spec_addr() as int,
                        size_of::<T>() as int,
                        align as int,
                        j,
                    ),
            decreases align - k,
        {
            proof {
                lemma_probe_fits(a as int, k as int, s as int);
            }
            let v: u128 = ((a as u128) + (k as u128) * (s as u128)) % m;
            proof {
                lemma_align_probe(
                    self.spec_addr() as int,
                    size_of::<T>() as int,
                    align as int,
                    k as int,
                );
            }
            if v == 0 {
                return k;
            }
            k = k + 1;
        }
        usize::MAX
    }

    /// Whether the address is aligned for the pointee type.
    pub fn is_aligned(self) -> (r: bool)
        ensures
            r == (self.spec_addr() as int % align_of::<T>() as int == 0),
    {
        layout_for_type_is_valid::<T>();
        self.addr % core::mem::align_of::<T>() == 0
    }

    /// Attaches slice-length metadata to an element handle.
    pub fn slice_from_raw_parts(ptr: Pointer<T, P>, len: usize) -> (r: Self)
        ensures
            r.spec_addr() == ptr.spec_addr(),
            r.spec_meta() == len,
    {
        Self::assemble(ptr.addr, len)
    }

    /// Attaches slice-length metadata, method spelling.
    pub fn make_slice(self, len: usize) -> (r: Self)
        ensures
            r.spec_addr() == self.spec_addr(),
            r.spec_meta() == len,
    {
        Self::assemble(self.addr, len)
    }

    /// The slice length recorded in the metadata word.
    pub fn len(self) -> (r: usize)
        ensures
            r == self.spec_meta(),
    {
        self.meta
    }

    /// Whether the recorded slice length is zero.
    pub fn is_empty(self) -> (r: bool)
        ensures
            r == (self.spec_meta() == 0),
    {
        self.meta == 0
    }

    /// Narrows a slice handle to an array handle of length `N`, exactly
    /// when the recorded length is `N`.
    pub fn as_array<const N: usize>(self) -> (r: Option<Self>)
        ensures
            r is Some <==> self.spec_meta() == N,
            r matches Some(p) ==> p.spec_addr() == self.spec_addr() && p.spec_meta() == N,
    {
        if self.meta == N {
            Some(Self::assemble(self.addr, self.meta))
        } else {
            None
        }
    }
}

impl<T, P: Permission> Pointer<T, (Shared, P)> {
    /// Pops the most recent `Shared` overlay, restoring the permission
    /// underneath.
    pub fn make_unshared(self) -> (r: Pointer<T, P>)
        ensures
            r.spec_addr() == self.spec_addr(),
            r.spec_meta() == self.spec_meta(),
    {
        Pointer::assemble(self.addr, self.meta)
    }
}

impl<T> Pointer<T, Shared> {
    /// Wraps a read-only address.
    pub fn from_const(addr: usize) -> (r: Self)
        ensures
            r.spec_addr() == addr,
            r.spec_meta() == 0,
    {
        Self::assemble(addr, 0)
    }

    /// Wraps a read-only address, under the raw-constructor name.
    pub fn from_raw_const(addr: usize) -> (r: Self)
        ensures
            r.spec_addr() == addr,
            r.spec_meta() == 0,
    {
        Self::assemble(addr, 0)
    }

    /// Unwraps the handle into its address.
    pub fn into_raw(self) -> (r: usize)
        ensures
            r == self.spec_addr(),
    {
        self.addr
    }

    /// Opens the interior-mutability door: a cell's read-only handle
    /// re-permissions to a writable handle on its contents.
    pub fn raw_get(self) -> (r: Pointer<T, Unique>)
        ensures
            r.spec_addr() == self.spec_addr(),
            r.spec_meta() == self.spec_meta(),
    {
        Pointer::assemble(self.addr, self.meta)
    }
}

impl<T> Pointer<T, Unique> {
    /// Wraps a writable address.
    pub fn from_mut(addr: usize) -> (r: Self)
        ensures
            r.spec_addr() == addr,
            r.spec_meta() == 0,
    {
        Self::assemble(addr, 0)
    }

    /// Wraps a writable address, under the raw-constructor name.
    pub fn from_raw_mut(addr: usize) -> (r: Self)
        ensures
            r.spec_addr() == addr,
            r.spec_meta() == 0,
    {
        Self::assemble(addr, 0)
    }

    /// Unwraps the handle into its address.
    pub fn into_raw_mut(self) -> (r: usize)
        ensures
            r == self.spec_addr(),
    {
        self.addr
    }
}

impl<T, P: Permission> Pointer<T, P> {
    /// Unwraps the handle into its address, read-only spelling.
    pub fn into_raw_const(self) -> (r: usize)
        ensures
            r == self.spec_addr(),
    {
        self.addr
    }
}

/// The residue probe stays inside the doubled-width integer.
proof fn lemma_probe_fits(a: int, k: int, s: int)
    by (nonlinear_arith)
    requires
        0 <= a <= u64::MAX,
        0 <= k <= u64::MAX,
        0 <= s <= u64::MAX,
    ensures
        a + k * s <= u128::MAX,
{
}

/// One probe of the alignment search: the residue arithmetic the loop
/// computes equals the absolute test.
proof fn lemma_align_probe(addr: int, stride: int, align: int, k: int)
    requires
        align >= 1,
        addr >= 0,
        stride >= 0,
        k >= 0,
    ensures
        ((addr % align) + k * (stride % align)) % align == (addr + k * stride) % align,
{
    vstd::arithmetic::div_mod::lemma_mul_mod_noop_right(k, stride, align);
    vstd::arithmetic::div_mod::lemma_add_mod_noop_right(
        addr % align,
        k * (stride % align),
        align,
    );
    vstd::arithmetic::div_mod::lemma_add_mod_noop(addr, k * stride, align);
    vstd::arithmetic::div_mod::lemma_add_mod_noop_right(addr % align, k * stride, align);
}

/// Subtracting a residue-equal value gives the same remainder.
proof fn lemma_sub_mod_noop_right(a: int, s: int, full: int, m: int)
    requires
        0 < m,
        0 <= s,
        s == full % m,
        0 <= full,
    ensures
        (a - s) % m == (a - full) % m,
{
    vstd::arithmetic::div_mod::lemma_fundamental_div_mod(full, m);
    let q = full / m;
    assert(full == q * m + s) by {
        assert(m * q == q * m) by (nonlinear_arith);
    }
    assert(a - s == (a - full) + q * m);
    vstd::arithmetic::div_mod::lemma_mod_multiples_vanish(q, a - full, m);
}

/// The model null handle, as a free constructor.
pub fn null<T, P: Permission>() -> (r: Pointer<T, P>)
    ensures
        r.spec_addr() == 0,
        r.spec_meta() == 0,
{
    Pointer::null()
}

/// The model dangling handle, as a free constructor.
pub fn dangling<T, P: Permission>() -> (r: Pointer<T, P>)
    ensures
        r.spec_addr() == align_of::<T>(),
        r.spec_meta() == 0,
{
    Pointer::dangling()
}

/// Rebuilds a handle from an exposed address, as a free constructor.
pub fn with_exposed_provenance<T, P: Permission>(addr: usize) -> (r: Pointer<T, P>)
    ensures
        r.spec_addr() == addr,
        r.spec_meta() == 0,
{
    Pointer::with_exposed_provenance(addr)
}

/// Builds a provenance-free handle, as a free constructor.
pub fn without_provenance<T, P: Permission>(addr: usize) -> (r: Pointer<T, P>)
    ensures
        r.spec_addr() == addr,
        r.spec_meta() == 0,
{
    Pointer::without_provenance(addr)
}

/// Attaches slice-length metadata, as a free constructor.
pub fn slice_from_raw_parts<T, P: Permission>(ptr: Pointer<T, P>, len: usize) -> (r: Pointer<T, P>)
    ensures
        r.spec_addr() == ptr.spec_addr(),
        r.spec_meta() == len,
{
    Pointer::slice_from_raw_parts(ptr, len)
}

/// Whether two handles, of any pointee types and permissions, share an
/// address; metadata is ignored.
pub fn addr_eq<T, U, P: Permission, Q: Permission>(p: Pointer<T, P>, q: Pointer<U, Q>) -> (r: bool)
    ensures
        r == (p.spec_addr() == q.spec_addr()),
{
    p.addr() == q.addr()
}

/// Whether two handles to the same pointee type are equal: same address
/// and same metadata.
pub fn eq<T, P: Permission, Q: Permission>(a: Pointer<T, P>, b: Pointer<T, Q>) -> (r: bool)
    ensures
        r == (a.spec_addr() == b.spec_addr() && a.spec_meta() == b.spec_meta()),
{
    a.addr() == b.addr() && a.make_const().len() == b.make_const().len()
}

/// Relies on `core::ptr::from_mut` and the pointer-to-address cast: the
/// address of a live `&mut` referent, which is never null.
#[verifier::external_body]
pub fn from_mut<T>(r: &mut T) -> (p: Pointer<T, Unique>)
    ensures
        p.spec_addr() != 0,
        p.spec_meta() == 0,
{
    Pointer { addr: core::ptr::from_mut(r) as usize, meta: 0, _ty: PhantomData, _perm: PhantomData }
}

/// Relies on `core::ptr::from_ref` and the pointer-to-address cast: the
/// address of a live `&` referent, which is never null.
#[verifier::external_body]
pub fn from_ref<T>(r: &T) -> (p: Pointer<T, Shared>)
    ensures
        p.spec_addr() != 0,
        p.spec_meta() == 0,
{
    Pointer { addr: core::ptr::from_ref(r) as usize, meta: 0, _ty: PhantomData, _perm: PhantomData }
}

/// Feeds a handle's address into a hasher, the way a raw pointer hashes:
/// the hasher absorbs the address's little-endian bytes.
pub fn hash<T, P: Permission>(
    hashee: Pointer<T, P>,
    into: &mut std::collections::hash_map::DefaultHasher,
)
    ensures
        final(into)@ == old(into)@.push(
            vstd::bytes::spec_u64_to_le_bytes(hashee.spec_addr() as u64),
        ),
{
    let bytes = vstd::bytes::u64_to_le_bytes(hashee.addr() as u64);
    into.write(bytes.as_slice());
}

/// A location handle that is known not to be null.
pub struct NonNullPointer<T, P: Permission> {
    addr: usize,
    meta: usize,
    _ty: PhantomData<T>,
    _perm: PhantomData<P>,
}

impl<T, P: Permission> Clone for NonNullPointer<T, P> {
    fn clone(&self) -> (r: Self)
        ensures
            r.spec_addr() == self.spec_addr(),
            r.spec_meta() == self.spec_meta(),
    {
        NonNullPointer { addr: self.addr, meta: self.meta, _ty: PhantomData, _perm: PhantomData }
    }
}

impl<T, P: Permission> Copy for NonNullPointer<T, P> {

}

impl<T, P: Permission> RawPtr for NonNullPointer<T, P> {

}

impl<T, P: Permission> NonNullPointer<T, P> {
    /// The handle's address.
    pub closed spec fn spec_addr(self) -> usize {
        self.addr
    }

    /// The handle's metadata word.
    pub closed spec fn spec_meta(self) -> usize {
        self.meta
    }

    /// The invariant: the address is never zero.
    pub open spec fn wf(self) -> bool {
        self.spec_addr() != 0
    }

    /// Builds a handle from its parts.
    fn assemble(addr: usize, meta: usize) -> (r: Self)
        requires
            addr != 0,
        ensures
            r.wf(),
            r.spec_addr() == addr,
            r.spec_meta() == meta,
    {
        NonNullPointer { addr, meta, _ty: PhantomData, _perm: PhantomData }
    }

    /// Accepts a handle exactly when it is not null.
    pub fn new(ptr: Pointer<T, P>) -> (r: Result<Self, NonNullError>)
        ensures
            r is Ok <==> ptr.spec_addr() != 0,
            r matches Ok(p) ==> p.wf() && p.spec_addr() == ptr.spec_addr() && p.spec_meta()
                == ptr.spec_meta(),
    {
        let a = ptr.addr();
        if a != 0 {
            Ok(Self::assemble(a, ptr.make_const().len()))
        } else {
            Err(NonNullError::new())
        }
    }

    /// Wraps an address already known not to be zero, as handed back by
    /// the address accessor of another non-null handle.
    pub fn from_nonnull(addr: usize) -> (r: Self)
        requires
            addr != 0,
        ensures
            r.wf(),
            r.spec_addr() == addr,
            r.spec_meta() == 0,
    {
        Self::assemble(addr, 0)
    }

    /// The address, never zero.
    pub fn addr(self) -> (r: usize)
        requires
            self.wf(),
        ensures
            r == self.spec_addr(),
            r != 0,
    {
        self.addr
    }

    /// The address, marking the provenance as exposed.
    pub fn expose_provenance(self) -> (r: usize)
        requires
            self.wf(),
        ensures
            r == self.spec_addr(),
            r != 0,
    {
        self.addr
    }

    /// A handle at the given non-zero address with this provenance.
    pub fn with_addr(self, addr: usize) -> (r: Self)
        requires
            addr != 0,
        ensures
            r.wf(),
            r.spec_addr() == addr,
            r.spec_meta() == self.spec_meta(),
    {
        Self::assemble(addr, self.meta)
    }

    /// A handle whose address is `func` of this one's.  The function must
    /// only produce non-zero addresses.
    pub fn map_addr<F: FnOnce(usize) -> usize>(self, func: F) -> (r: Self)
        requires
            self.wf(),
            func.requires((self.spec_addr(),)),
            forall|x: usize, y: usize| #[trigger] func.ensures((x,), y) ==> y != 0,
        ensures
            r.wf(),
            func.ensures((self.spec_addr(),), r.spec_addr()),
            r.spec_meta() == self.spec_meta(),
    {
        let a = func(self.addr);
        Self::assemble(a, self.meta)
    }

    /// Widens back to an ordinary handle.
    pub fn as_pointer(self) -> (r: Pointer<T, P>)
        ensures
            r.spec_addr() == self.spec_addr(),
            r.spec_meta() == self.spec_meta(),
    {
        Pointer::slice_from_raw_parts(Pointer::with_exposed_provenance(self.addr), self.meta)
    }

    /// The address as the model's raw-pointer value.
    pub fn as_ptr(self) -> (r: usize)
        ensures
            r == self.spec_addr(),
    {
        self.addr
    }

    /// Repoints the handle at another pointee type, keeping non-nullness
    /// and discarding slice metadata.
    pub fn cast<U>(self) -> (r: NonNullPointer<U, P>)
        requires
            self.wf(),
        ensures
            r.wf(),
            r.spec_addr() == self.spec_addr(),
            r.spec_meta() == 0,
    {
        NonNullPointer::<U, P>::assemble(self.addr, 0)
    }

    /// A non-null handle carrying only an address and no provenance.
    pub fn without_provenance(addr: usize) -> (r: Self)
        requires
            addr != 0,
        ensures
            r.wf(),
            r.spec_addr() == addr,
            r.spec_meta() == 0,
    {
        Self::assemble(addr, 0)
    }

    /// A well-aligned non-null handle that points at nothing.
    pub fn dangling() -> (r: Self)
        ensures
            r.wf(),
            r.spec_addr() == align_of::<T>(),
            r.spec_meta() == 0,
    {
        layout_for_type_is_valid::<T>();
        Self::assemble(core::mem::align_of::<T>(), 0)
    }

    /// Rebuilds a non-null handle from an exposed address.
    pub fn with_exposed_provenance(addr: usize) -> (r: Self)
        requires
            addr != 0,
        ensures
            r.wf(),
            r.spec_addr() == addr,
            r.spec_meta() == 0,
    {
        Self::assemble(addr, 0)
    }

    /// The least number of pointee-sized steps to a multiple of `align`,
    /// or `usize::MAX`; see [`Pointer::align_offset`].
    pub fn align_offset(self, align: usize) -> (r: usize)
        requires
            align >= 1,
        ensures
            r != usize::MAX ==> r < align && aligned_at(
                self.spec_addr() as int,
                size_of::<T>() as int,
                align as int,
                r as int,
            ),
            r == usize::MAX ==> forall|k: int|
                0 <= k < align ==> !aligned_at(
                    self.spec_addr() as int,
                    size_of::<T>() as int,
                    align as int,
                    k,
                ),
    {
        self.as_pointer().align_offset(align)
    }

    /// Whether the address is aligned for the pointee type.
    pub fn is_aligned(self) -> (r: bool)
        ensures
            r == (self.spec_addr() as int % align_of::<T>() as int == 0),
    {
        self.as_pointer().is_aligned()
    }

    /// Attaches slice-length metadata to a non-null element handle.
    pub fn slice_from_raw_parts(ptr: NonNullPointer<T, P>, len: usize) -> (r: Self)
        requires
            ptr.wf(),
        ensures
            r.wf(),
            r.spec_addr() == ptr.spec_addr(),
            r.spec_meta() == len,
    {
        Self::assemble(ptr.addr, len)
    }

    /// Attaches slice-length metadata, method spelling.
    pub fn make_slice(self, len: usize) -> (r: Self)
        requires
            self.wf(),
        ensures
            r.wf(),
            r.spec_addr() == self.spec_addr(),
            r.spec_meta() == len,
    {
        Self::assemble(self.addr, len)
    }

    /// The slice length recorded in the metadata word.
    pub fn len(self) -> (r: usize)
        ensures
            r == self.spec_meta(),
    {
        self.meta
    }

    /// Whether the recorded slice length is zero.
    pub fn is_empty(self) -> (r: bool)
        ensures
            r == (self.spec_meta() == 0),
    {
        self.meta == 0
    }
}

impl<T> NonNullPointer<T, Shared> {
    /// Relies on `core::ptr::from_ref` and the pointer-to-address cast:
    /// the address of a live `&` referent, which is never null.
    #[verifier::external_body]
    pub fn from_ref(r: &T) -> (p: Self)
        ensures
            p.wf(),
            p.spec_meta() == 0,
    {
        NonNullPointer {
            addr: core::ptr::from_ref(r) as usize,
            meta: 0,
            _ty: PhantomData,
            _perm: PhantomData,
        }
    }
}

impl<T> NonNullPointer<T, Unique> {
    /// Relies on `core::ptr::from_mut` and the pointer-to-address cast:
    /// the address of a live `&mut` referent, which is never null.
    #[verifier::external_body]
    pub fn from_mut(r: &mut T) -> (p: Self)
        ensures
            p.wf(),
            p.spec_meta() == 0,
    {
        NonNullPointer {
            addr: core::ptr::from_mut(r) as usize,
            meta: 0,
            _ty: PhantomData,
            _perm: PhantomData,
        }
    }
}

} // verus!
