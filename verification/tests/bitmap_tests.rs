use phys_mem::bitmap::Bitmap;

#[test]
fn clear_leaves_every_bit_unset() {
    let array: Vec<u64> = vec![0];
    let mut bitmap = Bitmap::new(array, 16);
    bitmap.clear();
    for i in 0..16 {
        assert!(!bitmap.is_bit_set(i));
    }
    assert_eq!(0, bitmap.storage_word(0));
}

#[test]
fn set_bits_store_expected_pattern() {
    let array: Vec<u64> = vec![0];
    let mut bitmap = Bitmap::new(array, 16);
    bitmap.clear();
    bitmap.set_bit(1);
    bitmap.set_bit(3);
    bitmap.set_bit(5);
    bitmap.set_bit(7);
    bitmap.set_bit(11);
    bitmap.set_bit(13);
    assert_eq!(0b0010100010101010, bitmap.storage_word(0));
}

#[test]
fn clear_bits_store_expected_pattern() {
    let array: Vec<u64> = vec![0];
    let mut bitmap = Bitmap::new(array, 16);
    bitmap.clear();
    bitmap.set_bit(1);
    bitmap.set_bit(3);
    bitmap.set_bit(5);
    bitmap.set_bit(7);
    bitmap.set_bit(11);
    bitmap.set_bit(13);
    bitmap.clear_bit(5);
    bitmap.clear_bit(11);
    assert_eq!(0b0010000010001010, bitmap.storage_word(0));
}

#[test]
fn find_first_zero_finds_lowest_zero_bit() {
    let array: Vec<u64> = vec![0b0011110111111111];
    let bitmap = Bitmap::new(array, 16);
    assert_eq!(Some(9), bitmap.find_first_zero());
}

#[test]
fn find_first_zero_on_full_bitmap_finds_nothing() {
    let array: Vec<u64> = vec![0b1111111111111111];
    let bitmap = Bitmap::new(array, 16);
    assert_eq!(None, bitmap.find_first_zero());
}

#[test]
fn find_first_zero_ignores_unused_tail_bits() {
    /* All sixteen logical bits are set; the zero bits beyond them live in the
     * unused tail of the word and must not be reported. */
    let array: Vec<u64> = vec![0x0000_0000_0000_ffff];
    let bitmap = Bitmap::new(array, 16);
    assert_eq!(None, bitmap.find_first_zero());
}

#[test]
fn reads_reflect_most_recent_write() {
    let array: Vec<u64> = vec![0, 0];
    let mut bitmap = Bitmap::new(array, 100);
    bitmap.clear();
    bitmap.set_bit(42);
    bitmap.set_bit(99);
    bitmap.clear_bit(42);
    bitmap.set_bit(42);
    assert!(bitmap.is_bit_set(42));
    assert!(bitmap.is_bit_set(99));
    assert!(!bitmap.is_bit_set(41));
    bitmap.clear();
    for i in 0..100 {
        assert!(!bitmap.is_bit_set(i));
    }
}

#[test]
fn set_then_clear_restores_the_bit() {
    let array: Vec<u64> = vec![0];
    let mut bitmap = Bitmap::new(array, 64);
    bitmap.clear();
    bitmap.set_bit(17);
    bitmap.clear_bit(17);
    assert!(!bitmap.is_bit_set(17));
    bitmap.clear_bit(23);
    bitmap.set_bit(23);
    assert!(bitmap.is_bit_set(23));
}

#[test]
fn clear_spans_full_and_partial_words() {
    let array: Vec<u64> = vec![u64::MAX, u64::MAX, u64::MAX];
    let mut bitmap = Bitmap::new(array, 130);
    bitmap.clear();
    for i in 0..130 {
        assert!(!bitmap.is_bit_set(i));
    }
    assert_eq!(0, bitmap.storage_word(0));
    assert_eq!(0, bitmap.storage_word(1));
    /* The two logical bits of the last word are cleared, the tail is kept. */
    assert_eq!(u64::MAX & !0b11, bitmap.storage_word(2));
}

#[test]
fn bitmap_walkthrough_runs() {
    phys_mem::bitmap::bitmap_test();
}
