use columnar::array::growable::utils::room_for;
use columnar::array::growable::{
    make_growable, Growable, GrowableFixedSizeBinary, GrowableFixedSizeList,
};
use columnar::array::{Array, FixedSizeBinaryArray, FixedSizeListArray};
use columnar::bitmap::{Bitmap, MutableBitmap};
use columnar::datatypes::DataType;

fn mask(bits: &[bool]) -> Bitmap {
    let mut m = MutableBitmap::new();
    for bit in bits {
        m.push(*bit);
    }
    m.freeze()
}

fn bits(a: Option<&Bitmap>) -> Option<Vec<bool>> {
    a.map(|b| (0..b.len()).map(|i| b.get_bit(i)).collect())
}

fn bytes_of(a: &Array) -> Vec<u8> {
    match a {
        Array::FixedSizeBinary(b) => b.values().clone(),
        Array::FixedSizeList(l) => bytes_of(l.values()),
    }
}

fn pairs() -> DataType {
    DataType::FixedSizeList(Box::new(DataType::FixedSizeBinary(1)), 2)
}

/// A list array with two one-byte elements in each slot.
fn list(bytes: Vec<u8>, validity: Option<&[bool]>) -> FixedSizeListArray {
    let child = FixedSizeBinaryArray::try_new(DataType::FixedSizeBinary(1), bytes, None).unwrap();
    let child = Box::new(Array::FixedSizeBinary(child));
    FixedSizeListArray::try_new(pairs(), child, validity.map(mask)).unwrap()
}

#[test]
fn one_call_for_each_source_gives_the_concatenation() {
    let a = list(vec![1, 2, 3, 4], None);
    let b = list(vec![5, 6], None);
    let c = list(vec![7, 8, 9, 10, 11, 12], None);
    let mut g = GrowableFixedSizeList::new(vec![&a, &b, &c], false, 0);
    assert_eq!(g.len(), 0);
    g.extend(0, 0, 2);
    g.extend(1, 0, 1);
    g.extend(2, 0, 3);
    assert_eq!(g.len(), 6);
    let out = g.to();
    assert_eq!(out.len(), 6);
    assert_eq!(*out.data_type(), pairs());
    assert!(out.validity().is_none());
    assert_eq!(bytes_of(out.values()), (1..=12).collect::<Vec<u8>>());
    assert_eq!(out.values().len(), 12);
}

#[test]
fn calls_in_pieces_give_the_same_concatenation() {
    let a = list(vec![1, 2, 3, 4, 5, 6], Some(&[true, false, true]));
    let b = list(vec![7, 8, 9, 10], Some(&[false, true]));
    let mut whole = GrowableFixedSizeList::new(vec![&a, &b], false, 0);
    whole.extend(0, 0, 3);
    whole.extend(1, 0, 2);
    let whole = whole.to();

    let mut pieces = GrowableFixedSizeList::new(vec![&a, &b], false, 5);
    pieces.extend(0, 0, 1);
    pieces.extend(0, 1, 2);
    pieces.extend(1, 0, 0);
    pieces.extend(1, 0, 1);
    pieces.extend(1, 1, 1);
    let pieces = pieces.to();

    assert_eq!(whole.len(), 5);
    assert_eq!(pieces.len(), 5);
    let expected = Some(vec![true, false, true, false, true]);
    assert_eq!(bits(whole.validity()), expected);
    assert_eq!(bits(pieces.validity()), expected);
    assert_eq!(bytes_of(whole.values()), (1..=10).collect::<Vec<u8>>());
    assert_eq!(bytes_of(pieces.values()), (1..=10).collect::<Vec<u8>>());
}

#[test]
fn a_range_is_scaled_by_the_size() {
    let a = list(vec![1, 2, 3, 4, 5, 6, 7, 8], None);
    let mut g = GrowableFixedSizeList::new(vec![&a], false, 0);
    g.extend(0, 1, 2);
    g.extend(0, 3, 1);
    g.extend(0, 0, 1);
    let out = g.to();
    assert_eq!(out.len(), 4);
    assert_eq!(bytes_of(out.values()), vec![3, 4, 5, 6, 7, 8, 1, 2]);
}

#[test]
fn a_source_with_a_null_forces_a_mask() {
    let a = list(vec![1, 2, 3, 4], None);
    let b = list(vec![5, 6, 7, 8], Some(&[true, false]));
    let mut g = GrowableFixedSizeList::new(vec![&a, &b], false, 0);
    // only valid slots are copied
    g.extend(0, 0, 2);
    g.extend(1, 0, 1);
    let out = g.to();
    assert_eq!(bits(out.validity()), Some(vec![true, true, true]));
    assert_eq!(out.null_count(), 0);
}

#[test]
fn a_builder_without_a_call_still_has_the_forced_mask() {
    let b = list(vec![5, 6, 7, 8], Some(&[true, false]));
    let mut g = GrowableFixedSizeList::new(vec![&b], false, 0);
    let out = g.to();
    assert_eq!(out.len(), 0);
    assert_eq!(bits(out.validity()), Some(vec![]));
}

#[test]
fn the_caller_can_ask_for_a_mask() {
    let a = list(vec![1, 2, 3, 4], None);
    let mut g = GrowableFixedSizeList::new(vec![&a], true, 2);
    g.extend(0, 0, 2);
    let out = g.to();
    assert_eq!(bits(out.validity()), Some(vec![true, true]));
}

#[test]
fn without_nulls_and_without_asking_there_is_no_mask() {
    let a = list(vec![1, 2, 3, 4], None);
    let b = list(vec![5, 6], None);
    let mut g = GrowableFixedSizeList::new(vec![&a, &b], false, 0);
    g.extend(1, 0, 1);
    g.extend(0, 0, 2);
    let out = g.to();
    assert!(out.validity().is_none());
    assert_eq!(bytes_of(out.values()), vec![5, 6, 1, 2, 3, 4]);
}

#[test]
fn a_mask_without_nulls_brings_the_mask_into_being() {
    let a = list(vec![1, 2, 3, 4], None);
    let b = list(vec![5, 6], Some(&[true]));
    let mut g = GrowableFixedSizeList::new(vec![&a, &b], false, 0);
    g.extend(0, 0, 2);
    g.extend(1, 0, 1);
    g.extend(0, 1, 1);
    let out = g.to();
    assert_eq!(out.len(), 4);
    assert_eq!(bits(out.validity()), Some(vec![true, true, true, true]));
    assert_eq!(bytes_of(out.values()), vec![1, 2, 3, 4, 5, 6, 3, 4]);
}

#[test]
fn nulls_are_appended_with_their_child_slots() {
    let a = list(vec![1, 2, 3, 4], Some(&[true, false]));
    let mut g = GrowableFixedSizeList::new(vec![&a], false, 0);
    g.extend(0, 0, 2);
    g.extend_validity(3);
    assert_eq!(g.len(), 5);
    let out = g.to();
    assert_eq!(out.len(), 5);
    assert_eq!(out.null_count(), 4);
    assert_eq!(bits(out.validity()), Some(vec![true, false, false, false, false]));
    // the child has grown by 3 * 2 slots
    assert_eq!(out.values().len(), 10);
    assert_eq!(bytes_of(out.values()), vec![1, 2, 3, 4, 0, 0, 0, 0, 0, 0]);
    // and those child slots are null in the child
    assert_eq!(
        bits(out.values().validity()),
        Some(vec![true, true, true, true, false, false, false, false, false, false])
    );
}

#[test]
fn nulls_bring_a_missing_mask_into_being() {
    let a = list(vec![1, 2, 3, 4], None);
    let mut g = GrowableFixedSizeList::new(vec![&a], false, 0);
    g.extend(0, 0, 2);
    g.extend_validity(1);
    g.extend(0, 1, 1);
    let out = g.to();
    assert_eq!(out.len(), 4);
    assert_eq!(bits(out.validity()), Some(vec![true, true, false, true]));
    assert_eq!(out.null_count(), 1);
    assert_eq!(bytes_of(out.values()), vec![1, 2, 3, 4, 0, 0, 3, 4]);
}

#[test]
fn no_nulls_appended_changes_no_slot() {
    let a = list(vec![1, 2], None);
    let mut g = GrowableFixedSizeList::new(vec![&a], true, 0);
    g.extend(0, 0, 1);
    g.extend_validity(0);
    let out = g.to();
    assert_eq!(out.len(), 1);
    assert_eq!(bits(out.validity()), Some(vec![true]));
    assert_eq!(out.values().len(), 2);
}

#[test]
fn the_child_builder_tracks_the_nulls_of_the_children() {
    let child = |bytes: Vec<u8>, validity: Option<&[bool]>| {
        Box::new(Array::FixedSizeBinary(
            FixedSizeBinaryArray::try_new(DataType::FixedSizeBinary(1), bytes, validity.map(mask))
                .unwrap(),
        ))
    };
    let a = FixedSizeListArray::try_new(pairs(), child(vec![1, 2, 3, 4], None), None).unwrap();
    let b = FixedSizeListArray::try_new(
        pairs(),
        child(vec![5, 6], Some(&[false, true])),
        None,
    )
    .unwrap();
    // the caller asks for a mask on the list; the child is not asked, and
    // has one because a child has a null
    let mut g = GrowableFixedSizeList::new(vec![&a, &b], true, 0);
    g.extend(0, 0, 2);
    g.extend(1, 0, 1);
    let out = g.to();
    assert_eq!(bits(out.validity()), Some(vec![true, true, true]));
    assert_eq!(
        bits(out.values().validity()),
        Some(vec![true, true, true, true, false, true])
    );

    // without a null in any child, the child has no mask although the list has one
    let c = FixedSizeListArray::try_new(pairs(), child(vec![7, 8], None), None).unwrap();
    let mut g = GrowableFixedSizeList::new(vec![&a, &c], true, 0);
    g.extend(1, 0, 1);
    let out = g.to();
    assert_eq!(bits(out.validity()), Some(vec![true]));
    assert!(out.values().validity().is_none());
}

#[test]
fn the_builder_is_empty_after_its_array_was_taken() {
    let a = list(vec![1, 2, 3, 4], Some(&[true, false]));
    let mut g = GrowableFixedSizeList::new(vec![&a], false, 0);
    g.extend(0, 0, 2);
    let first = g.to();
    assert_eq!(first.len(), 2);
    assert_eq!(g.len(), 0);
    let second = g.to();
    assert_eq!(second.len(), 0);
    assert!(second.validity().is_none());
    assert_eq!(second.values().len(), 0);
    assert_eq!(*second.data_type(), pairs());
    // it is still bound to its sources
    g.extend(0, 1, 1);
    let third = g.to();
    assert_eq!(bits(third.validity()), Some(vec![false]));
    assert_eq!(bytes_of(third.values()), vec![3, 4]);
}

#[test]
fn boxed_and_shared_arrays_hold_the_same() {
    let a = list(vec![1, 2, 3, 4], Some(&[true, false]));
    let mut g = GrowableFixedSizeList::new(vec![&a], false, 0);
    g.extend(0, 0, 2);
    let boxed = g.as_box();
    g.extend(0, 0, 2);
    let shared = g.as_arc();
    g.extend(0, 0, 2);
    let plain = g.to();
    for array in [&*boxed, &*shared] {
        assert_eq!(array.len(), plain.len());
        assert_eq!(*array.data_type(), *plain.data_type());
        assert_eq!(bits(array.validity()), bits(plain.validity()));
        assert_eq!(bytes_of(array), bytes_of(plain.values()));
    }
    assert_eq!(boxed.len(), 2);
    assert_eq!(bits(boxed.validity()), Some(vec![true, false]));
}

#[test]
fn an_array_can_be_made_from_a_builder() {
    let a = list(vec![1, 2, 3, 4], Some(&[true, false]));
    let b = list(vec![5, 6], None);
    let mut g = GrowableFixedSizeList::new(vec![&a, &b], false, 0);
    g.extend(1, 0, 1);
    g.extend(0, 1, 1);
    let out = FixedSizeListArray::from(g);
    assert_eq!(out.len(), 2);
    assert_eq!(bits(out.validity()), Some(vec![true, false]));
    assert_eq!(bytes_of(out.values()), vec![5, 6, 3, 4]);
    assert_eq!(*out.data_type(), pairs());
}

#[test]
fn lists_of_lists_are_built_level_by_level() {
    let outer = DataType::FixedSizeList(Box::new(pairs()), 3);
    let make = |bytes: Vec<u8>, inner: Option<&[bool]>, top: Option<&[bool]>| {
        let mid = Box::new(Array::FixedSizeList(list(bytes, inner)));
        FixedSizeListArray::try_new(outer.clone(), mid, top.map(mask)).unwrap()
    };
    // each slot holds 3 pairs, that is 6 bytes
    let a = make((0..12).collect(), None, None);
    let b = make(
        (100..106).collect(),
        Some(&[true, false, true]),
        None,
    );
    let mut g = GrowableFixedSizeList::new(vec![&a, &b], false, 0);
    g.extend(0, 1, 1);
    g.extend(1, 0, 1);
    g.extend_validity(1);
    assert_eq!(g.len(), 3);
    let out = g.to();
    assert_eq!(out.len(), 3);
    assert_eq!(*out.data_type(), outer);
    assert_eq!(bits(out.validity()), Some(vec![true, true, false]));
    let mid = out.values();
    assert_eq!(mid.len(), 9);
    assert_eq!(
        bits(mid.validity()),
        Some(vec![true, true, true, true, false, true, false, false, false])
    );
    assert_eq!(
        bytes_of(mid),
        vec![6, 7, 8, 9, 10, 11, 100, 101, 102, 103, 104, 105, 0, 0, 0, 0, 0, 0]
    );
}

#[test]
fn the_factory_picks_the_builder_by_encoding() {
    let x = Array::FixedSizeBinary(
        FixedSizeBinaryArray::try_new(DataType::FixedSizeBinary(2), vec![1, 2, 3, 4], None)
            .unwrap(),
    );
    let y = Array::FixedSizeBinary(
        FixedSizeBinaryArray::try_new(
            DataType::FixedSizeBinary(2),
            vec![5, 6],
            Some(mask(&[false])),
        )
        .unwrap(),
    );
    let mut g = make_growable(&[&x, &y], false, 0);
    assert!(matches!(g, Growable::FixedSizeBinary(_)));
    g.extend(0, 1, 1);
    g.extend(1, 0, 1);
    g.extend_validity(2);
    assert_eq!(g.len(), 4);
    let out = g.as_box();
    assert_eq!(out.len(), 4);
    assert_eq!(bits(out.validity()), Some(vec![true, false, false, false]));
    assert_eq!(bytes_of(&out), vec![3, 4, 5, 6, 0, 0, 0, 0]);

    let l = Array::FixedSizeList(list(vec![1, 2], None));
    let mut g = make_growable(&[&l], false, 0);
    assert!(matches!(g, Growable::FixedSizeList(_)));
    g.extend(0, 0, 1);
    let shared = g.as_arc();
    assert_eq!(shared.len(), 1);
    assert_eq!(bytes_of(&shared), vec![1, 2]);
}

#[test]
fn the_binary_builder_copies_bytes_and_bits() {
    let x = FixedSizeBinaryArray::try_new(
        DataType::FixedSizeBinary(3),
        vec![1, 2, 3, 4, 5, 6, 7, 8, 9],
        Some(mask(&[true, false, true])),
    )
    .unwrap();
    let mut g = GrowableFixedSizeBinary::new(vec![&x], false, 0);
    g.extend(0, 1, 2);
    g.extend(0, 0, 1);
    assert_eq!(g.len(), 3);
    let out = g.to();
    assert_eq!(out.values(), &vec![4u8, 5, 6, 7, 8, 9, 1, 2, 3]);
    assert_eq!(bits(out.validity()), Some(vec![false, true, true]));
    assert_eq!(g.len(), 0);
}

#[test]
fn room_is_counted_in_bytes() {
    let a = list(vec![1, 2, 3, 4], None);
    let mut g = GrowableFixedSizeList::new(vec![&a], false, 0);
    assert!(g.has_room(0));
    assert!(g.has_room(1000));
    assert!(g.has_room(usize::MAX / 2));
    assert!(!g.has_room(usize::MAX / 2 + 1));
    assert!(!g.has_room(usize::MAX));
    g.extend(0, 0, 2);
    assert!(g.has_room(usize::MAX / 2 - 2));
    assert!(!g.has_room(usize::MAX / 2 - 1));
}

#[test]
fn no_nulls_appended_leaves_a_builder_without_a_mask_without_one() {
    let a = list(vec![1, 2, 3, 4], None);
    let mut g = GrowableFixedSizeList::new(vec![&a], false, 0);
    g.extend(0, 0, 2);
    g.extend_validity(0);
    assert_eq!(g.len(), 2);
    let out = g.to();
    assert_eq!(out.len(), 2);
    assert!(out.validity().is_none());
    assert_eq!(out.values().len(), 4);
    assert!(out.values().validity().is_none());
    assert_eq!(bytes_of(out.values()), vec![1, 2, 3, 4]);

    // the same on a builder that has been driven by nothing else
    let mut g = GrowableFixedSizeList::new(vec![&a], false, 0);
    g.extend_validity(0);
    let out = g.to();
    assert_eq!(out.len(), 0);
    assert!(out.validity().is_none());
    assert!(out.values().validity().is_none());

    // and on the builder of a fixed-size binary array
    let x = FixedSizeBinaryArray::try_new(DataType::FixedSizeBinary(2), vec![1, 2], None).unwrap();
    let mut g = GrowableFixedSizeBinary::new(vec![&x], false, 0);
    g.extend(0, 0, 1);
    g.extend_validity(0);
    let out = g.to();
    assert_eq!(out.len(), 1);
    assert!(out.validity().is_none());
    assert_eq!(out.values(), &vec![1u8, 2]);
}

#[test]
fn nulls_appended_in_two_calls_are_nulls_appended_in_one() {
    let a = list(vec![1, 2, 3, 4], None);
    let mut twice = GrowableFixedSizeList::new(vec![&a], false, 0);
    twice.extend(0, 0, 2);
    twice.extend_validity(2);
    twice.extend_validity(0);
    twice.extend_validity(3);
    let twice = twice.to();
    let mut once = GrowableFixedSizeList::new(vec![&a], false, 0);
    once.extend(0, 0, 2);
    once.extend_validity(5);
    let once = once.to();
    assert_eq!(twice.len(), 7);
    assert_eq!(once.len(), 7);
    assert_eq!(twice.null_count(), 5);
    assert_eq!(once.null_count(), 5);
    assert_eq!(bits(twice.validity()), bits(once.validity()));
    assert_eq!(
        bits(once.validity()),
        Some(vec![true, true, false, false, false, false, false])
    );
    assert_eq!(bytes_of(twice.values()), bytes_of(once.values()));
    assert_eq!(twice.values().len(), 14);
    assert_eq!(bits(twice.values().validity()), bits(once.values().validity()));
}

#[test]
fn finished_arrays_are_of_the_encoding_of_their_builder() {
    let a = list(vec![1, 2], None);
    let mut g = GrowableFixedSizeList::new(vec![&a], false, 0);
    assert!(matches!(*g.as_box(), Array::FixedSizeList(_)));
    assert!(matches!(*g.as_arc(), Array::FixedSizeList(_)));
    let x = FixedSizeBinaryArray::try_new(DataType::FixedSizeBinary(2), vec![1, 2], None).unwrap();
    let mut g = GrowableFixedSizeBinary::new(vec![&x], false, 0);
    assert!(matches!(*g.as_box(), Array::FixedSizeBinary(_)));
    assert!(matches!(*g.as_arc(), Array::FixedSizeBinary(_)));
    let any = Array::FixedSizeBinary(x);
    let mut g = make_growable(&[&any], false, 0);
    assert!(matches!(*g.as_box(), Array::FixedSizeBinary(_)));
    assert!(matches!(*g.as_arc(), Array::FixedSizeBinary(_)));
}

#[test]
fn room_is_the_product_of_slots_and_width() {
    let t = DataType::FixedSizeList(Box::new(pairs()), 3);
    assert!(room_for(0, &t, 0));
    assert!(room_for(10, &t, 5));
    assert!(room_for(usize::MAX / 6 - 1, &t, 1));
    assert!(!room_for(usize::MAX / 6, &t, 1));
    assert!(!room_for(usize::MAX, &t, 1));
    assert!(room_for(0, &DataType::FixedSizeBinary(usize::MAX), 1));
    assert!(!room_for(1, &DataType::FixedSizeBinary(usize::MAX), 1));
    let wide = DataType::FixedSizeList(Box::new(DataType::FixedSizeBinary(usize::MAX)), 2);
    assert!(room_for(0, &wide, 0));
    assert!(!room_for(0, &wide, 1));
}
