use columnar::bitmap::{Bitmap, MutableBitmap};
use columnar::error::Error;

#[test]
fn push_then_read_back() {
    let mut mask = MutableBitmap::new();
    let bits = [true, false, false, true, true, true, false, true, false, true];
    for bit in bits {
        mask.push(bit);
    }
    assert_eq!(mask.len(), 10);
    let frozen = mask.freeze();
    assert_eq!(frozen.len(), 10);
    for (i, bit) in bits.iter().enumerate() {
        assert_eq!(frozen.get_bit(i), *bit);
    }
    assert_eq!(frozen.unset_bits(), 4);
}

#[test]
fn bits_are_packed_least_significant_first() {
    let mask = Bitmap::try_new(vec![0b0000_0101, 0b0000_0010], 10).unwrap();
    let expected = [true, false, true, false, false, false, false, false, false, true];
    for (i, bit) in expected.iter().enumerate() {
        assert_eq!(mask.get_bit(i), *bit);
    }
    assert_eq!(mask.unset_bits(), 7);
}

#[test]
fn a_buffer_with_too_few_bits_is_refused() {
    assert_eq!(Bitmap::try_new(vec![0xff], 9).err(), Some(Error::InvalidBitmap));
    assert!(Bitmap::try_new(vec![0xff], 8).is_ok());
    assert!(Bitmap::try_new(vec![], 0).is_ok());
}

#[test]
fn extend_constant_appends_a_run() {
    let mut mask = MutableBitmap::with_capacity(3);
    mask.extend_constant(3, true);
    mask.extend_constant(7, false);
    mask.extend_constant(2, true);
    let frozen = mask.freeze();
    assert_eq!(frozen.len(), 12);
    for i in 0..12 {
        assert_eq!(frozen.get_bit(i), i < 3 || i >= 10);
    }
    assert_eq!(frozen.unset_bits(), 7);
}

#[test]
fn extend_from_bitmap_copies_a_range() {
    let source = Bitmap::try_new(vec![0b1011_0110, 0b0000_0001], 9).unwrap();
    let mut mask = MutableBitmap::new();
    mask.push(false);
    mask.extend_from_bitmap(&source, 2, 6);
    let frozen = mask.freeze();
    assert_eq!(frozen.len(), 7);
    let expected = [false, true, false, true, true, false, true];
    for (i, bit) in expected.iter().enumerate() {
        assert_eq!(frozen.get_bit(i), *bit);
    }
}
