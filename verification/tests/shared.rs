use bitgrain::radium::{fill_masked, Atom, Isotope, Radium};
use core::sync::atomic::Ordering;

#[test]
fn shared_element_masked_rmw_is_deterministic() {
    // One 8-bit element, region A = bits [0,3) and region B = bits [3,8)
    // under Lsb0, sharing the element.  Filling both with ones through
    // the atomic masked read-modify-write protocol leaves every bit set,
    // whichever side goes first.
    let mask_a: u64 = 0b0000_0111;
    let mask_b: u64 = 0b1111_1000;

    let mut cell = Atom::new(0b0000_0000);
    fill_masked(&mut cell, mask_a, true, Ordering::SeqCst);
    fill_masked(&mut cell, mask_b, true, Ordering::SeqCst);
    assert_eq!(cell.load(Ordering::SeqCst), 0b1111_1111);

    let mut cell = Atom::new(0b0000_0000);
    fill_masked(&mut cell, mask_b, true, Ordering::SeqCst);
    fill_masked(&mut cell, mask_a, true, Ordering::SeqCst);
    assert_eq!(cell.load(Ordering::SeqCst), 0b1111_1111);

    // A non-atomic read-modify-write is outside the correctness
    // contract: if both sides read before either writes, the element
    // ends as whichever side wrote last, losing the other's bits.
    let stale_read: u64 = 0b0000_0000;
    let write_a = stale_read | mask_a;
    let write_b = stale_read | mask_b;
    assert_eq!(write_a, 0b0000_0111);
    assert_eq!(write_b, 0b1111_1000);
}

#[test]
fn atom_operations() {
    let mut a = Atom::new(0b1100);
    assert_eq!(a.load(Ordering::Acquire), 0b1100);
    a.store(0b1010, Ordering::Release);
    assert_eq!(a.swap(0b0001, Ordering::SeqCst), 0b1010);
    assert_eq!(a.fetch_or(0b0110, Ordering::SeqCst), 0b0001);
    assert_eq!(a.fetch_and(0b0011, Ordering::SeqCst), 0b0111);
    assert_eq!(a.fetch_xor(0b0101, Ordering::SeqCst), 0b0011);
    assert_eq!(a.into_inner(), 0b0110);
    Atom::fence(Ordering::SeqCst);
}

#[test]
fn isotope_operations() {
    let mut c = Isotope::new(7);
    assert_eq!(c.load(Ordering::Relaxed), 7);
    c.store(9, Ordering::Relaxed);
    assert_eq!(c.swap(12, Ordering::Relaxed), 9);
    assert_eq!(c.fetch_or(1, Ordering::Relaxed), 12);
    assert_eq!(c.fetch_and(5, Ordering::Relaxed), 13);
    assert_eq!(c.fetch_xor(0b11, Ordering::Relaxed), 5);
    assert_eq!(c.into_inner(), 6);
    Isotope::fence(Ordering::SeqCst);
}

#[test]
fn fill_masked_clears_too() {
    let mut cell = Isotope::new(0b1111_1111);
    fill_masked(&mut cell, 0b0011_1100, false, Ordering::Relaxed);
    assert_eq!(cell.load(Ordering::Relaxed), 0b1100_0011);
    fill_masked(&mut cell, 0b0000_1100, true, Ordering::Relaxed);
    assert_eq!(cell.load(Ordering::Relaxed), 0b1100_1111);
}
