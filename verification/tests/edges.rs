use bitmap::Bitmap;

#[test]
fn new_is_empty() {
    let bitmap = Bitmap::new();
    assert_eq!(bitmap.len(), 0);
    assert!(bitmap.is_empty());
    assert!(!bitmap.contains(0));
    assert!(!bitmap.contains(65535));
    assert_eq!(bitmap.to_vec(), Vec::<u16>::new());
    assert!(bitmap.internal_store().iter().all(|word| *word == 0));
}

#[test]
fn default_is_new() {
    assert!(Bitmap::default() == Bitmap::new());
}

#[test]
fn full_holds_the_universe() {
    let bitmap = Bitmap::full();
    assert_eq!(bitmap.len(), 65536);
    assert!(!bitmap.is_empty());
    assert!(bitmap.contains(0));
    assert!(bitmap.contains(12345));
    assert!(bitmap.contains(65535));
    assert_eq!(bitmap.to_vec(), (0..=u16::MAX).collect::<Vec<u16>>());
    assert!(bitmap.internal_store().iter().all(|word| *word == u64::MAX));
}

#[test]
fn store_has_one_bit_per_value() {
    let mut bitmap = Bitmap::new();
    bitmap.insert(69);
    assert_eq!(bitmap.internal_store().len(), 1024);
    assert_eq!(bitmap.internal_store()[1], 1 << 5);
    bitmap.insert(0);
    assert_eq!(bitmap.internal_store()[0], 1);
    bitmap.insert(63);
    assert_eq!(bitmap.internal_store()[0], 1 | 1 << 63);
    bitmap.insert(65535);
    assert_eq!(bitmap.internal_store()[1023], 1 << 63);
    bitmap.remove(63);
    assert_eq!(bitmap.internal_store()[0], 1);
    assert_eq!(bitmap.len(), 3);
}

#[test]
fn insert_says_whether_the_value_was_there() {
    let mut bitmap = Bitmap::new();
    assert_eq!(bitmap.insert(9), false);
    assert_eq!(bitmap.insert(9), true);
    assert_eq!(bitmap.len(), 1);
}

#[test]
fn remove_says_whether_the_value_was_there() {
    let mut bitmap = Bitmap::from_iter(&[9]);
    assert_eq!(bitmap.remove(10), false);
    assert_eq!(bitmap.len(), 1);
    assert_eq!(bitmap.remove(9), true);
    assert_eq!(bitmap.remove(9), false);
    assert_eq!(bitmap.len(), 0);
    assert!(bitmap.is_empty());
}

#[test]
fn boundary_values_behave_like_any_other() {
    let mut bitmap = Bitmap::new();
    assert_eq!(bitmap.insert(0), false);
    assert_eq!(bitmap.insert(65535), false);
    assert_eq!(bitmap.insert(30000), false);
    assert_eq!(bitmap.len(), 3);
    assert_eq!(bitmap.to_vec(), vec![0, 30000, 65535]);
    assert_eq!(bitmap.remove(0), true);
    assert_eq!(bitmap.remove(65535), true);
    assert_eq!(bitmap.to_vec(), vec![30000]);
    assert_eq!(bitmap.len(), 1);
}

#[test]
fn to_vec_reaches_the_last_word() {
    let bitmap = Bitmap::from_iter(&[65472, 65535]);
    assert_eq!(bitmap.to_vec(), vec![65472, 65535]);

    let mut only_last = Bitmap::new();
    only_last.insert(65535);
    assert_eq!(only_last.to_vec(), vec![65535]);
}

#[test]
fn to_vec_skips_empty_words() {
    let bitmap = Bitmap::from_iter(&[1, 64 * 500 + 3, 64 * 1022 + 63]);
    assert_eq!(bitmap.to_vec(), vec![1, 32003, 65471]);
}

#[test]
fn intersection_in_place() {
    let mut left = Bitmap::from_iter(&[1, 2, 3, 700, 65535]);
    let right = Bitmap::from_iter(&[2, 3, 4, 65535]);
    left.intersection(&right);
    assert_eq!(left.to_vec(), vec![2, 3, 65535]);
    assert_eq!(left.len(), 3);
    assert_eq!(right.to_vec(), vec![2, 3, 4, 65535]);
}

#[test]
fn intersection_counts_bits_and_not_words() {
    // the word that holds 3 is 8: a count that took the word for its
    // number of bits would say 8
    let mut left = Bitmap::from_iter(&[3]);
    left.intersection(&Bitmap::from_iter(&[3]));
    assert_eq!(left.len(), 1);
}

#[test]
fn union_in_place() {
    let mut left = Bitmap::from_iter(&[1, 2, 3]);
    let right = Bitmap::from_iter(&[3, 4, 65535]);
    left.union(&right);
    assert_eq!(left.to_vec(), vec![1, 2, 3, 4, 65535]);
    assert_eq!(left.len(), 5);
}

#[test]
fn operators_take_the_right_operand_by_value_or_by_reference() {
    let left = Bitmap::from_iter(&[1, 2, 3]);
    let right = Bitmap::from_iter(&[3, 4]);
    assert_eq!((left.clone() & &right).to_vec(), vec![3]);
    assert_eq!((left.clone() & right.clone()).to_vec(), vec![3]);
    assert_eq!((left.clone() | &right).to_vec(), vec![1, 2, 3, 4]);
    assert_eq!((left | right).to_vec(), vec![1, 2, 3, 4]);
}

#[test]
fn equality_looks_at_the_members() {
    let a = Bitmap::from_iter(&[1, 2]);
    let mut b = Bitmap::from_iter(&[2, 1, 9]);
    assert!(a != b);
    b.remove(9);
    assert!(a == b);
    // same cardinality, other members
    assert!(Bitmap::from_iter(&[1, 2]) != Bitmap::from_iter(&[1, 3]));
}

#[test]
fn clone_is_equal_and_apart() {
    let a = Bitmap::from_iter(&[1, 2]);
    let mut b = a.clone();
    assert!(a == b);
    b.insert(3);
    assert_eq!(a.to_vec(), vec![1, 2]);
    assert_eq!(b.to_vec(), vec![1, 2, 3]);
}

#[test]
fn text_on_one_line() {
    assert_eq!(Bitmap::new().fmt(false), "{}");
    assert_eq!(Bitmap::from_iter(&[7]).fmt(false), "{7}");
    assert_eq!(Bitmap::from_iter(&[36, 32, 33]).fmt(false), "{32, 33, 36}");
}

#[test]
fn text_with_a_line_for_each_member() {
    assert_eq!(Bitmap::new().fmt(true), "{}");
    assert_eq!(Bitmap::from_iter(&[7]).fmt(true), "{\n    7,\n}");
    assert_eq!(Bitmap::from_iter(&[36, 32, 33]).fmt(true), "{\n    32,\n    33,\n    36,\n}");
}

#[test]
fn text_is_what_a_set_shows() {
    let values = [0u16, 9, 10, 99, 100, 101, 999, 1000, 9999, 10000, 10001, 60000, 65535];
    let bitmap = Bitmap::from_iter(&values);
    let set: std::collections::BTreeSet<u16> = values.iter().copied().collect();
    assert_eq!(bitmap.fmt(false), format!("{:?}", set));
    assert_eq!(bitmap.fmt(true), format!("{:#?}", set));
    assert_eq!(
        bitmap.fmt(false),
        "{0, 9, 10, 99, 100, 101, 999, 1000, 9999, 10000, 10001, 60000, 65535}"
    );
}
