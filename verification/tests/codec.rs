use bitgrain::codec::{FieldCodec, FieldOrder};
use bitgrain::order::BitOrder;
use bitgrain::region::BitStore;

#[test]
fn roundtrip_all_configurations() {
    for &order in &[BitOrder::Lsb0, BitOrder::Msb0] {
        for &endian in &[FieldOrder::LsbFirst, FieldOrder::MsbFirst] {
            let codec = FieldCodec::new(order, endian);
            let mut store = BitStore::new(8, 4, true);
            let reg = store.region_mut(5, 17, order).unwrap();
            for value in [0u64, 1, 0b1_0101_0101_0101_0101, 0x1FFFF, 0x0F0F0] {
                codec.encode(&mut store, reg, value).unwrap();
                assert_eq!(codec.decode(&store, reg), value);
            }
        }
    }
}

#[test]
fn msb0_cross_element_field() {
    // A region spanning the last three bits of one 8-bit element and the
    // first two of the next, under Msb0: the value survives the crossing.
    let codec = FieldCodec::new(BitOrder::Msb0, FieldOrder::LsbFirst);
    let mut store = BitStore::new(8, 2, true);
    let reg = store.region_mut(5, 5, BitOrder::Msb0).unwrap();
    codec.encode(&mut store, reg, 0b101).unwrap();
    assert_eq!(codec.decode(&store, reg), 0b101);
    // Value bit i sits at region position i; Msb0 maps positions 5..8 of
    // element 0 to shifts 2, 1, 0.
    assert_eq!(store.load_elem(0), 0b0000_0101);
    assert_eq!(store.load_elem(1), 0);
}

#[test]
fn msb_first_reverses_significance() {
    let codec = FieldCodec::new(BitOrder::Lsb0, FieldOrder::MsbFirst);
    let mut store = BitStore::new(8, 1, true);
    let reg = store.region_mut(0, 4, BitOrder::Lsb0).unwrap();
    codec.encode(&mut store, reg, 0b0001).unwrap();
    // The most significant in-range bit comes first: region position 3
    // carries value bit 0, so element bit 3 is set under Lsb0.
    assert_eq!(store.load_elem(0), 0b0000_1000);
    assert_eq!(codec.decode(&store, reg), 0b0001);
}

#[test]
fn too_wide_value_is_refused_whole() {
    let codec = FieldCodec::new(BitOrder::Lsb0, FieldOrder::LsbFirst);
    let mut store = BitStore::new(8, 1, true);
    let reg = store.region_mut(2, 3, BitOrder::Lsb0).unwrap();
    codec.encode(&mut store, reg, 0b101).unwrap();
    assert_eq!(store.load_elem(0), 0b0001_0100);
    // Four significant bits cannot enter a three-bit region, and the
    // store keeps its previous contents.
    let e = codec.encode(&mut store, reg, 0b1000).unwrap_err();
    assert_eq!(e.len, 3);
    assert_eq!(store.load_elem(0), 0b0001_0100);
    assert_eq!(codec.decode(&store, reg), 0b101);
}

#[test]
fn full_width_field() {
    let codec = FieldCodec::new(BitOrder::Lsb0, FieldOrder::LsbFirst);
    let mut store = BitStore::new(64, 1, true);
    let reg = store.region_mut(0, 64, BitOrder::Lsb0).unwrap();
    codec.encode(&mut store, reg, u64::MAX).unwrap();
    assert_eq!(codec.decode(&store, reg), u64::MAX);
    assert_eq!(store.load_elem(0), u64::MAX);
}
