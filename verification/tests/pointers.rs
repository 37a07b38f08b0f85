use bitgrain::ptr::{
    addr_eq, eq, from_mut, from_ref, MisalignedError, NonNullError, NonNullPointer,
    NonUniqueError, NullPointerError, Pointer, Shared, Unique,
};
use bitgrain::widths::layout_equal;

#[test]
fn permission_stack() {
    let mut data = 0usize;
    let base: Pointer<usize, Unique> = from_mut(&mut data);
    let one: Pointer<usize, (Shared, Unique)> = base.make_shared();
    let two: Pointer<usize, (Shared, (Shared, Unique))> = one.make_shared();
    assert!(matches!(two.make_mut(), Ok(p) if p == base));
    assert!(eq(one.make_unshared(), base));
}

#[test]
fn shared_base_never_yields_unique() {
    let data = 5u8;
    let ptr: Pointer<u8, Shared> = from_ref(&data);
    assert!(ptr.make_mut().is_err());
    assert!(ptr.make_shared().make_mut().is_err());
    assert!(ptr.try_cast_unique().is_err());
    assert!(!ptr.is_null());
}

#[test]
fn null_and_dangling() {
    let p: Pointer<u32, Shared> = Pointer::null();
    assert!(p.is_null());
    assert_eq!(p.addr(), 0);
    let d: Pointer<u32, Shared> = Pointer::dangling();
    assert!(!d.is_null());
    assert_eq!(d.addr(), core::mem::align_of::<u32>());
    assert!(d.is_aligned());
    let f: Pointer<u64, Unique> = bitgrain::ptr::dangling();
    assert_eq!(f.addr(), 8);
}

#[test]
fn address_arithmetic() {
    let p: Pointer<u32, Shared> = Pointer::without_provenance(100);
    assert_eq!(p.wrapping_add(3).addr(), 112);
    assert_eq!(p.wrapping_sub(2).addr(), 92);
    assert_eq!(p.wrapping_byte_add(5).addr(), 105);
    assert_eq!(p.wrapping_byte_sub(5).addr(), 95);
    assert_eq!(p.wrapping_offset(-2).addr(), 92);
    assert_eq!(p.wrapping_byte_offset(-100).addr(), 0);
    let top: Pointer<u8, Shared> = Pointer::without_provenance(usize::MAX);
    assert_eq!(top.wrapping_add(1).addr(), 0);
    assert_eq!(top.wrapping_byte_add(3).addr(), 2);
    let zero: Pointer<u8, Shared> = Pointer::null();
    assert_eq!(zero.wrapping_sub(1).addr(), usize::MAX);
}

#[test]
fn provenance_round_trips() {
    let p: Pointer<u16, Unique> = Pointer::without_provenance(64);
    let a = p.expose_provenance();
    let q: Pointer<u16, Unique> = Pointer::with_exposed_provenance(a);
    assert!(eq(p, q));
    assert_eq!(p.with_addr(80).addr(), 80);
    assert_eq!(p.map_addr(|x| x + 2).addr(), 66);
    let free: Pointer<u16, Shared> = bitgrain::ptr::with_exposed_provenance(64);
    assert!(addr_eq(free, p));
    let bare: Pointer<u16, Shared> = bitgrain::ptr::without_provenance(7);
    assert_eq!(bare.addr(), 7);
    let n: Pointer<u16, Shared> = bitgrain::ptr::null();
    assert!(n.is_null());
}

#[test]
fn casting_keeps_address() {
    let p: Pointer<u32, Unique> = Pointer::from_raw_mut(48);
    let q: Pointer<u8, Unique> = p.cast();
    assert_eq!(q.addr(), 48);
    assert_eq!(p.make_const().addr(), 48);
    assert_eq!(p.cast_const().addr(), 48);
    assert_eq!(p.cast_mut().addr(), 48);
    assert_eq!(p.into_raw_mut(), 48);
    let c: Pointer<u32, Shared> = Pointer::from_raw_const(32);
    assert_eq!(c.into_raw_const(), 32);
    assert_eq!(Pointer::<u32, Shared>::from_const(9).into_raw(), 9);
    assert_eq!(Pointer::<u32, Unique>::from_mut(10).into_raw_const(), 10);
    let cell: Pointer<u8, Shared> = Pointer::from_raw_const(24);
    assert_eq!(cell.raw_get().addr(), 24);
}

#[test]
fn slices_carry_length() {
    let p: Pointer<u8, Shared> = Pointer::from_raw_const(4096);
    let s = Pointer::slice_from_raw_parts(p, 10);
    assert_eq!(s.len(), 10);
    assert!(!s.is_empty());
    assert!(s.as_array::<10>().is_some());
    assert!(s.as_array::<9>().is_none());
    let s2 = bitgrain::ptr::slice_from_raw_parts(p, 0);
    assert!(s2.is_empty());
    assert_eq!(p.make_slice(3).len(), 3);
}

#[test]
fn alignment_probing() {
    let p: Pointer<u8, Shared> = Pointer::without_provenance(13);
    assert_eq!(p.align_offset(4), 3);
    assert_eq!(p.align_offset(1), 0);
    let q: Pointer<u32, Shared> = Pointer::without_provenance(13);
    // Stepping in four-byte strides from 13 never reaches a multiple of 4.
    assert_eq!(q.align_offset(4), usize::MAX);
    let r: Pointer<u32, Shared> = Pointer::without_provenance(12);
    assert_eq!(r.align_offset(4), 0);
    assert!(r.is_aligned());
    assert!(!q.is_aligned());
}

#[test]
fn non_null_pointers() {
    let p: Pointer<u32, Unique> = Pointer::from_raw_mut(40);
    let nn = NonNullPointer::new(p).unwrap();
    assert_eq!(nn.addr(), 40);
    assert_eq!(nn.expose_provenance(), 40);
    assert_eq!(nn.as_ptr(), 40);
    assert!(eq(nn.as_pointer(), p));
    assert_eq!(nn.with_addr(8).addr(), 8);
    assert_eq!(nn.map_addr(|a| a + 4).addr(), 44);
    assert_eq!(nn.cast::<u8>().addr(), 40);
    let nil: Pointer<u32, Unique> = Pointer::null();
    assert!(NonNullPointer::new(nil).is_err());
    let d: NonNullPointer<u64, Shared> = NonNullPointer::dangling();
    assert_eq!(d.addr(), 8);
    assert!(d.is_aligned());
    assert_eq!(d.align_offset(16), 1);
    let w: NonNullPointer<u8, Shared> = NonNullPointer::without_provenance(3);
    assert_eq!(w.addr(), 3);
    let x: NonNullPointer<u8, Shared> = NonNullPointer::with_exposed_provenance(5);
    assert_eq!(x.addr(), 5);
    let f: NonNullPointer<u8, Shared> = NonNullPointer::from_nonnull(x.addr());
    assert_eq!(f.addr(), 5);
    let s = NonNullPointer::slice_from_raw_parts(f, 6);
    assert_eq!(s.len(), 6);
    assert!(!s.is_empty());
    assert_eq!(f.make_slice(2).len(), 2);
    let mut v = 1u8;
    assert!(NonNullPointer::from_mut(&mut v).addr() != 0);
    assert!(NonNullPointer::from_ref(&v).addr() != 0);
}

#[test]
fn pointer_errors() {
    assert_eq!(MisalignedError::new(13).addr, 13);
    assert_eq!(NonNullError::new().make_const(), NonNullError::new());
    assert_eq!(NonUniqueError::new(), NonUniqueError);
    assert_eq!(NullPointerError::new(), NullPointerError);
}

#[test]
fn layouts_compare() {
    assert!(layout_equal::<u32, u32>());
    assert!(layout_equal::<u32, i32>());
    assert!(!layout_equal::<u32, u64>());
    assert!(!layout_equal::<u8, u16>());
}
