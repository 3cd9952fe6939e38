use phys_mem::bits::{get_range, get_single, set_range, set_single};

#[test]
fn get_bits() {
    let num: u64 = 0b10101010;

    assert_eq!(0b010, get_range(num, 0..3));
    assert_eq!(0b101, get_range(num, 1..4));
    assert_eq!(0b1010101, get_range(num, 1..64));
    assert_eq!(1, get_single(num, 5));
    assert_eq!(0, get_single(num, 6));
}

#[test]
fn set_bits() {
    let num: u64 = 0b10101010;

    assert_eq!(0b11001100, set_range(num, 0..16, 0b11001100));
    assert_eq!(0b10101011, set_range(num, 0..3, 0b011));
    assert_eq!(0b10100110, set_range(num, 1..4, 0b011));
    assert_eq!(0b10100110, set_range(num, 2..6, 0b1001));
    assert_eq!(0b10111010, set_single(num, 4, 1));
}

#[test]
fn bits_walkthrough_runs() {
    phys_mem::bits::tests();
}
