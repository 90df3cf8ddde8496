use columnar::array::{Array, FixedSizeBinaryArray, FixedSizeListArray};
use columnar::bitmap::{Bitmap, MutableBitmap};
use columnar::datatypes::DataType;
use columnar::error::Error;

fn mask(bits: &[bool]) -> Bitmap {
    let mut m = MutableBitmap::new();
    for bit in bits {
        m.push(*bit);
    }
    m.freeze()
}

fn list_of_pairs() -> DataType {
    DataType::FixedSizeList(Box::new(DataType::FixedSizeBinary(1)), 2)
}

#[test]
fn fixed_size_binary_holds_its_parts() {
    let a = FixedSizeBinaryArray::try_new(
        DataType::FixedSizeBinary(2),
        vec![1, 2, 3, 4, 5, 6],
        Some(mask(&[true, false, true])),
    )
    .unwrap();
    assert_eq!(a.len(), 3);
    assert_eq!(a.size(), 2);
    assert_eq!(a.values(), &vec![1u8, 2, 3, 4, 5, 6]);
    assert_eq!(*a.data_type(), DataType::FixedSizeBinary(2));
    assert_eq!(a.null_count(), 1);
    let v = a.validity().unwrap();
    assert_eq!(v.len(), 3);
    assert!(v.get_bit(0));
    assert!(!v.get_bit(1));
    assert!(v.get_bit(2));
}

#[test]
fn fixed_size_binary_without_mask_has_no_nulls() {
    let a = FixedSizeBinaryArray::try_new(DataType::FixedSizeBinary(3), vec![0; 9], None).unwrap();
    assert_eq!(a.len(), 3);
    assert_eq!(a.null_count(), 0);
    assert!(a.validity().is_none());
}

#[test]
fn empty_fixed_size_binary_is_accepted() {
    let a = FixedSizeBinaryArray::try_new(DataType::FixedSizeBinary(4), vec![], None).unwrap();
    assert_eq!(a.len(), 0);
}

#[test]
fn fixed_size_binary_refuses_parts_that_do_not_fit() {
    let bad = Some(Error::ArrayConstructionInvariantViolation);
    // the width does not divide the number of bytes
    assert_eq!(
        FixedSizeBinaryArray::try_new(DataType::FixedSizeBinary(2), vec![1, 2, 3], None).err(),
        bad
    );
    // a width of zero
    assert_eq!(
        FixedSizeBinaryArray::try_new(DataType::FixedSizeBinary(0), vec![], None).err(),
        bad
    );
    // not a fixed-size binary type
    assert_eq!(FixedSizeBinaryArray::try_new(list_of_pairs(), vec![1, 2], None).err(), bad);
    // a mask of another length
    assert_eq!(
        FixedSizeBinaryArray::try_new(
            DataType::FixedSizeBinary(2),
            vec![1, 2, 3, 4],
            Some(mask(&[true, true, true]))
        )
        .err(),
        bad
    );
}

#[test]
fn maybe_get_size_reads_the_width() {
    assert_eq!(FixedSizeBinaryArray::maybe_get_size(&DataType::FixedSizeBinary(7)), Ok(7));
    assert_eq!(
        FixedSizeBinaryArray::maybe_get_size(&DataType::FixedSizeBinary(0)),
        Err(Error::ArrayConstructionInvariantViolation)
    );
    assert_eq!(
        FixedSizeBinaryArray::maybe_get_size(&list_of_pairs()),
        Err(Error::ArrayConstructionInvariantViolation)
    );
}

#[test]
fn fixed_size_list_holds_its_parts() {
    let child =
        FixedSizeBinaryArray::try_new(DataType::FixedSizeBinary(1), vec![1, 2, 3, 4, 5, 6], None)
            .unwrap();
    let a = FixedSizeListArray::try_new(
        list_of_pairs(),
        Box::new(Array::FixedSizeBinary(child)),
        Some(mask(&[false, true, true])),
    )
    .unwrap();
    assert_eq!(a.len(), 3);
    assert_eq!(a.size(), 2);
    assert_eq!(*a.data_type(), list_of_pairs());
    assert_eq!(a.null_count(), 1);
    assert_eq!(a.values().len(), 6);
    assert_eq!(*a.values().data_type(), DataType::FixedSizeBinary(1));
    match a.values() {
        Array::FixedSizeBinary(c) => assert_eq!(c.values(), &vec![1u8, 2, 3, 4, 5, 6]),
        Array::FixedSizeList(_) => panic!("the child is a fixed-size binary array"),
    }
    let whole = Array::FixedSizeList(a);
    assert_eq!(whole.len(), 3);
    assert_eq!(whole.null_count(), 1);
    assert!(whole.validity().is_some());
}

#[test]
fn fixed_size_list_refuses_parts_that_do_not_fit() {
    let bad = Some(Error::ArrayConstructionInvariantViolation);
    let child = |bytes: Vec<u8>| {
        Box::new(Array::FixedSizeBinary(
            FixedSizeBinaryArray::try_new(DataType::FixedSizeBinary(1), bytes, None).unwrap(),
        ))
    };
    // the size does not divide the number of child slots
    assert_eq!(FixedSizeListArray::try_new(list_of_pairs(), child(vec![1, 2, 3]), None).err(), bad);
    // a size of zero
    assert_eq!(
        FixedSizeListArray::try_new(
            DataType::FixedSizeList(Box::new(DataType::FixedSizeBinary(1)), 0),
            child(vec![]),
            None
        )
        .err(),
        bad
    );
    // not a list type
    assert_eq!(
        FixedSizeListArray::try_new(DataType::FixedSizeBinary(1), child(vec![1, 2]), None).err(),
        bad
    );
    // the child is of another type than the list names
    assert_eq!(
        FixedSizeListArray::try_new(
            DataType::FixedSizeList(Box::new(DataType::FixedSizeBinary(2)), 2),
            child(vec![1, 2, 3, 4]),
            None
        )
        .err(),
        bad
    );
    // a mask of another length
    assert_eq!(
        FixedSizeListArray::try_new(
            list_of_pairs(),
            child(vec![1, 2, 3, 4]),
            Some(mask(&[true]))
        )
        .err(),
        bad
    );
}

#[test]
fn try_child_and_size_reads_the_type() {
    let t = list_of_pairs();
    let (child, size) = FixedSizeListArray::try_child_and_size(&t).unwrap();
    assert_eq!(*child, DataType::FixedSizeBinary(1));
    assert_eq!(size, 2);
    assert_eq!(
        FixedSizeListArray::try_child_and_size(&DataType::FixedSizeBinary(1)).err(),
        Some(Error::ArrayConstructionInvariantViolation)
    );
}

#[test]
fn new_takes_parts_that_fit() {
    let child = FixedSizeBinaryArray::new(DataType::FixedSizeBinary(1), vec![9, 8, 7, 6], None);
    let a = FixedSizeListArray::new(list_of_pairs(), Box::new(Array::FixedSizeBinary(child)), None);
    assert_eq!(a.len(), 2);
    assert_eq!(a.size(), 2);
}

#[test]
fn data_types_compare_at_every_level() {
    let a = DataType::FixedSizeList(Box::new(list_of_pairs()), 3);
    let b = DataType::FixedSizeList(Box::new(list_of_pairs()), 3);
    let c = DataType::FixedSizeList(
        Box::new(DataType::FixedSizeList(Box::new(DataType::FixedSizeBinary(2)), 2)),
        3,
    );
    assert!(a.same(&b));
    assert!(a == b);
    assert!(!a.same(&c));
    assert!(a != c);
    assert!(!a.same(&DataType::FixedSizeBinary(3)));
    assert_eq!(a.clone(), a);
}

#[test]
fn checked_width_multiplies_the_sizes() {
    assert_eq!(DataType::FixedSizeBinary(5).checked_width(), Some(5));
    assert_eq!(list_of_pairs().checked_width(), Some(2));
    assert_eq!(DataType::FixedSizeList(Box::new(list_of_pairs()), 3).checked_width(), Some(6));
    assert_eq!(
        DataType::FixedSizeList(Box::new(DataType::FixedSizeBinary(usize::MAX)), 2)
            .checked_width(),
        None
    );
    assert_eq!(
        DataType::FixedSizeList(
            Box::new(DataType::FixedSizeList(Box::new(DataType::FixedSizeBinary(usize::MAX)), 2)),
            0
        )
        .checked_width(),
        Some(0)
    );
}
