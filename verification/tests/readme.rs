use bitgrain::bits::mask_word;

#[test]
fn readme_1() {
    fn invert_middle_bits(num: u8) -> u8 {
        let mask = mask_word(2, 6) as u8;
        num ^ mask
    }
    assert_eq!(invert_middle_bits(0xAAu8), 0b1001_0110u8);
}
