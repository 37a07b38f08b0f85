use bitgrain::addr::BitAddress;
use bitgrain::domain::Domain;
use bitgrain::index::BitIndex;
use bitgrain::order::BitOrder;
use bitgrain::region::{AliasClass, BitCombine, BitStore, RegionError};

#[test]
fn order_roundtrip_all_widths() {
    for &w in &[8usize, 16, 32, 64] {
        for pos in 0..w {
            for &o in &[BitOrder::Lsb0, BitOrder::Msb0] {
                let sh = o.to_shift(w, pos);
                assert!(sh < w);
                assert_eq!(o.to_position(w, sh), pos);
            }
        }
    }
    assert_eq!(BitOrder::Lsb0.to_shift(8, 3), 3);
    assert_eq!(BitOrder::Msb0.to_shift(8, 3), 4);
    assert_eq!(BitOrder::Msb0.to_position(8, 0), 7);
}

#[test]
fn bit_index_rejects_out_of_range() {
    assert!(BitIndex::new(8, 7).is_ok());
    let e = BitIndex::new(8, 8).unwrap_err();
    assert_eq!(e.value, 8);
    assert_eq!(e.width, 8);
    assert!(BitIndex::new(64, 64).is_err());
}

#[test]
fn address_arithmetic_rolls_over() {
    let ix = BitIndex::new(8, 6).unwrap();
    let a = BitAddress::new(1, ix);
    let b = a.advance(5);
    assert_eq!(b.elem, 2);
    assert_eq!(b.index.value(), 3);
    let c = b.retreat(5);
    assert_eq!(c.elem, 1);
    assert_eq!(c.index.value(), 6);
    let back = b.advance(-9);
    assert_eq!(back.elem, 1);
    assert_eq!(back.index.value(), 2);
    assert_eq!(b.distance_in_bits(a), 5);
    assert_eq!(a.distance_in_bits(b), -5);
}

#[test]
fn domain_shapes() {
    // Entirely inside one element: a lone partial head.
    let a = BitAddress::from_abs(8, 2);
    let d = Domain::new(a, 4);
    let h = d.head.unwrap();
    assert_eq!((h.elem, h.lo, h.hi), (0, 2, 6));
    assert_eq!(d.body_start, d.body_end);
    assert!(d.tail.is_none());

    // A full element folds into the body.
    let d = Domain::new(BitAddress::from_abs(8, 8), 8);
    assert!(d.head.is_none());
    assert_eq!((d.body_start, d.body_end), (1, 2));
    assert!(d.tail.is_none());

    // Head, body and tail.
    let d = Domain::new(BitAddress::from_abs(8, 5), 14);
    let h = d.head.unwrap();
    assert_eq!((h.elem, h.lo, h.hi), (0, 5, 8));
    assert_eq!((d.body_start, d.body_end), (1, 2));
    let t = d.tail.unwrap();
    assert_eq!((t.elem, t.lo, t.hi), (2, 0, 3));

    // The remainder after the head is an exact element multiple: no tail.
    let d = Domain::new(BitAddress::from_abs(8, 5), 11);
    assert!(d.head.is_some());
    assert_eq!((d.body_start, d.body_end), (1, 2));
    assert!(d.tail.is_none());

    // Empty range: nothing at all.
    let d = Domain::new(BitAddress::from_abs(8, 5), 0);
    assert!(d.head.is_none() && d.tail.is_none());
    assert_eq!(d.body_start, d.body_end);
}

#[test]
fn classifier_marks_partial_edges_shared() {
    assert_eq!(bitgrain::region::classify_edge(0, 8, 8), AliasClass::Exclusive);
    assert_eq!(bitgrain::region::classify_edge(0, 7, 8), AliasClass::Shared);
    assert_eq!(bitgrain::region::classify_edge(1, 8, 8), AliasClass::Shared);
}

#[test]
fn fill_lsb0_sets_exact_bits() {
    let mut store = BitStore::new(8, 3, true);
    let reg = store.region_mut(5, 14, BitOrder::Lsb0).unwrap();
    reg.fill(&mut store, true);
    assert_eq!(store.load_elem(0), 0b1110_0000);
    assert_eq!(store.load_elem(1), 0b1111_1111);
    assert_eq!(store.load_elem(2), 0b0000_0111);
    // Clearing the middle leaves the edges alone.
    let mid = store.region_mut(8, 8, BitOrder::Lsb0).unwrap();
    mid.fill(&mut store, false);
    assert_eq!(store.load_elem(0), 0b1110_0000);
    assert_eq!(store.load_elem(1), 0);
    assert_eq!(store.load_elem(2), 0b0000_0111);
}

#[test]
fn fill_msb0_sets_exact_bits() {
    let mut store = BitStore::new(8, 1, true);
    let reg = store.region_mut(0, 3, BitOrder::Msb0).unwrap();
    reg.fill(&mut store, true);
    assert_eq!(store.load_elem(0), 0b1110_0000);
}

#[test]
fn get_and_set_single_bits() {
    let mut store = BitStore::new(16, 2, true);
    let reg = store.region_mut(10, 12, BitOrder::Lsb0).unwrap();
    assert!(!reg.get(&store, 0));
    reg.set(&mut store, 0, true);
    reg.set(&mut store, 11, true);
    assert!(reg.get(&store, 0));
    assert!(reg.get(&store, 11));
    assert!(!reg.get(&store, 5));
    assert_eq!(store.load_elem(0), 1 << 10);
    assert_eq!(store.load_elem(1), 1 << 5);
    reg.set(&mut store, 0, false);
    assert_eq!(store.load_elem(0), 0);
}

#[test]
fn count_ones_matches_filled_pattern() {
    let mut store = BitStore::new(8, 4, true);
    let reg = store.region_mut(3, 20, BitOrder::Lsb0).unwrap();
    assert_eq!(reg.count_ones(&store), 0);
    reg.fill(&mut store, true);
    assert_eq!(reg.count_ones(&store), 20);
    // A wider view sees the same set bits.
    let whole = store.region(0, 32, BitOrder::Lsb0).unwrap();
    assert_eq!(whole.count_ones(&store), 20);
    reg.set(&mut store, 4, false);
    assert_eq!(reg.count_ones(&store), 19);
}

#[test]
fn invert_flips_only_the_region() {
    let mut store = BitStore::new(8, 2, true);
    let reg = store.region_mut(6, 4, BitOrder::Lsb0).unwrap();
    reg.invert(&mut store);
    assert_eq!(store.load_elem(0), 0b1100_0000);
    assert_eq!(store.load_elem(1), 0b0000_0011);
    reg.invert(&mut store);
    assert_eq!(store.load_elem(0), 0);
    assert_eq!(store.load_elem(1), 0);
}

#[test]
fn combine_applies_bitwise_ops() {
    let mut dst = BitStore::new(8, 1, true);
    let mut src = BitStore::new(8, 1, true);
    let dreg = dst.region_mut(0, 8, BitOrder::Lsb0).unwrap();
    let sreg = src.region_mut(0, 8, BitOrder::Lsb0).unwrap();
    // dst = 0b1010_1010, src = 0b1100_1100
    for i in 0..8 {
        dreg.set(&mut dst, i, i % 2 == 1);
        sreg.set(&mut src, i, (i / 2) % 2 == 1);
    }
    assert_eq!(dst.load_elem(0), 0b1010_1010);
    assert_eq!(src.load_elem(0), 0b1100_1100);

    let mut d2 = BitStore::new(8, 1, true);
    let r2 = d2.region_mut(0, 8, BitOrder::Lsb0).unwrap();
    r2.combine(&mut d2, sreg, &src, BitCombine::Copy);
    assert_eq!(d2.load_elem(0), 0b1100_1100);

    r2.combine(&mut d2, dreg, &dst, BitCombine::And);
    assert_eq!(d2.load_elem(0), 0b1000_1000);
    r2.combine(&mut d2, dreg, &dst, BitCombine::Or);
    assert_eq!(d2.load_elem(0), 0b1010_1010);
    r2.combine(&mut d2, sreg, &src, BitCombine::Xor);
    assert_eq!(d2.load_elem(0), 0b0110_0110);
}

#[test]
fn combine_misaligned_copy() {
    // Copying between regions with different in-element offsets and
    // different orderings still moves the bits one for one.
    let mut src = BitStore::new(8, 2, true);
    let sreg = src.region_mut(3, 9, BitOrder::Lsb0).unwrap();
    for i in 0..9 {
        sreg.set(&mut src, i, i % 3 == 0);
    }
    let mut dst = BitStore::new(8, 2, true);
    let dreg = dst.region_mut(6, 9, BitOrder::Msb0).unwrap();
    dreg.copy_from(&mut dst, sreg, &src);
    for i in 0..9 {
        assert_eq!(dreg.get(&dst, i), i % 3 == 0);
        assert_eq!(dreg.get(&dst, i), sreg.get(&src, i));
    }
}

#[test]
fn region_out_of_bounds_is_refused() {
    let store = BitStore::new(8, 2, true);
    assert!(store.region(0, 16, BitOrder::Lsb0).is_ok());
    let e = store.region(1, 16, BitOrder::Lsb0).unwrap_err();
    assert_eq!(e.total_bits, 16);
    assert!(store.region(17, 0, BitOrder::Lsb0).is_err());
    match store.region_mut(9, 8, BitOrder::Lsb0) {
        Err(RegionError::Bounds(_)) => {}
        _ => panic!("expected a bounds error"),
    }
}

#[test]
fn shared_edge_without_atomics_is_refused() {
    let plain = BitStore::new(8, 2, false);
    // Element-aligned ranges stay exclusive and are fine.
    assert!(plain.region_mut(0, 8, BitOrder::Lsb0).is_ok());
    assert!(plain.region_mut(0, 16, BitOrder::Lsb0).is_ok());
    assert!(plain.region_mut(0, 0, BitOrder::Lsb0).is_ok());
    // A partial edge needs the shared protocol: refused without atomics.
    match plain.region_mut(0, 3, BitOrder::Lsb0) {
        Err(RegionError::Aliasing(_)) => {}
        _ => panic!("expected an aliasing error"),
    }
    assert!(plain.region_mut(4, 12, BitOrder::Lsb0).is_err());
    // The same ranges are accepted when the cells are atomic.
    let atomic = BitStore::new(8, 2, true);
    assert!(atomic.region_mut(0, 3, BitOrder::Lsb0).is_ok());
    assert!(atomic.region_mut(4, 12, BitOrder::Lsb0).is_ok());
}
