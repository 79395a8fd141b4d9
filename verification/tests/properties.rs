use bitmap::Bitmap;
use std::collections::BTreeSet;

/// A fixed stream of 16-bit values that looks random.
struct Stream(u64);

impl Stream {
    fn next(&mut self) -> u16 {
        self.0 = self.0.wrapping_mul(6364136223846793005).wrapping_add(1442695040888963407);
        (self.0 >> 40) as u16
    }

    fn values(&mut self, count: usize) -> Vec<u16> {
        (0..count).map(|_| self.next()).collect()
    }
}

fn sorted(set: &BTreeSet<u16>) -> Vec<u16> {
    set.iter().copied().collect()
}

#[test]
fn insert_remove_round_trip() {
    for value in [4242u16, 0, 63, 64, 65535] {
        let mut bitmap = Bitmap::from_iter(&[7, 640, 40000]);
        let before = bitmap.clone();

        assert_eq!(bitmap.insert(value), false);
        assert!(bitmap.contains(value));
        assert_eq!(bitmap.len(), 4);

        assert_eq!(bitmap.insert(value), true);
        assert_eq!(bitmap.len(), 4);

        assert_eq!(bitmap.remove(value), true);
        assert!(!bitmap.contains(value));
        assert_eq!(bitmap.len(), 3);

        assert_eq!(bitmap.remove(value), false);
        assert_eq!(bitmap.len(), 3);
        assert!(bitmap == before);
    }
}

#[test]
fn from_iter_and_insert_are_equivalent() {
    let mut stream = Stream(1);
    for count in [1usize, 2, 17, 149, 700] {
        let indexes = stream.values(count);
        let mut left = Bitmap::new();
        for i in &indexes {
            left.insert(*i);
        }
        let right = Bitmap::from_iter(&indexes);
        assert!(left == right);
        assert_eq!(left.len(), right.len());
        assert_eq!(left.internal_store(), right.internal_store());
    }
}

#[test]
fn from_iter_ignores_order_and_repeats() {
    let a = Bitmap::from_iter(&[5, 1, 5, 65535, 1, 0]);
    let b = Bitmap::from_iter(&[0, 1, 5, 65535]);
    assert!(a == b);
    assert_eq!(a.len(), 4);
    assert_eq!(a.to_vec(), vec![0, 1, 5, 65535]);
}

#[test]
fn prop_and() {
    let mut stream = Stream(2);
    for (count_left, count_right) in [(1usize, 1usize), (149, 149), (300, 40), (5000, 9000)] {
        let left = stream.values(count_left);
        let right = stream.values(count_right);
        let bitmap = Bitmap::from_iter(&left) & Bitmap::from_iter(&right);

        let hleft: BTreeSet<u16> = left.iter().copied().collect();
        let hright: BTreeSet<u16> = right.iter().copied().collect();
        let expected: BTreeSet<u16> = hleft.intersection(&hright).copied().collect();

        assert_eq!(bitmap.to_vec(), sorted(&expected));
        assert_eq!(bitmap.len(), expected.len());
    }
}

#[test]
fn prop_or() {
    let mut stream = Stream(3);
    for (count_left, count_right) in [(1usize, 1usize), (149, 149), (300, 40), (5000, 9000)] {
        let left = stream.values(count_left);
        let right = stream.values(count_right);
        let bitmap = Bitmap::from_iter(&left) | Bitmap::from_iter(&right);

        let hleft: BTreeSet<u16> = left.iter().copied().collect();
        let hright: BTreeSet<u16> = right.iter().copied().collect();
        let expected: BTreeSet<u16> = hleft.union(&hright).copied().collect();

        assert_eq!(bitmap.to_vec(), sorted(&expected));
        assert_eq!(bitmap.len(), expected.len());
    }
}

#[test]
fn prop_simd_and() {
    let mut stream = Stream(4);
    for (count_left, count_right) in [(1usize, 1usize), (149, 149), (300, 400), (20000, 30000)] {
        let bleft = Bitmap::from_iter(&stream.values(count_left));
        let bright = Bitmap::from_iter(&stream.values(count_right));
        let classic = bleft.clone() & &bright;
        let mut simd = bleft.clone();
        simd.intersection_simd(&bright);

        assert_eq!(classic.len(), simd.len());
        assert_eq!(classic.internal_store(), simd.internal_store());
        assert!(classic == simd, "\nclassic:\n{}\nsimd:\n{}", classic.fmt(true), simd.fmt(true));
    }
}

#[test]
fn simd_and_of_empty_operands() {
    let mut simd = Bitmap::new();
    simd.intersection_simd(&Bitmap::new());
    let mut classic = Bitmap::new();
    classic.intersection(&Bitmap::new());
    assert!(simd == classic);
    assert_eq!(simd.len(), 0);
    assert!(simd.internal_store().iter().all(|word| *word == 0));
}

#[test]
fn simd_and_of_full_operands() {
    let mut simd = Bitmap::full();
    simd.intersection_simd(&Bitmap::full());
    assert_eq!(simd.len(), 65536);
    assert!(simd.internal_store().iter().all(|word| *word == u64::MAX));
    assert!(simd == Bitmap::full());
}

#[test]
fn simd_and_of_full_and_empty() {
    let mut simd = Bitmap::full();
    simd.intersection_simd(&Bitmap::new());
    assert_eq!(simd.len(), 0);
    assert!(simd == Bitmap::new());

    let mut other = Bitmap::new();
    other.intersection_simd(&Bitmap::full());
    assert_eq!(other.len(), 0);
    assert!(other == Bitmap::new());
}

#[test]
fn simd_and_keeps_both_words_of_a_lane_apart() {
    // 63 and 64 are neighbours in the universe, in the two words of one lane
    let left = Bitmap::from_iter(&[0, 63, 64, 127, 128, 65535]);
    let right = Bitmap::from_iter(&[63, 64, 65, 127, 129, 65535]);
    let mut simd = left.clone();
    simd.intersection_simd(&right);
    assert_eq!(simd.to_vec(), vec![63, 64, 127, 65535]);
    assert_eq!(simd.len(), 4);
    assert_eq!(simd.internal_store()[0], 1 << 63);
    assert_eq!(simd.internal_store()[1], 1 | 1 << 63);
    assert_eq!(simd.internal_store()[1023], 1 << 63);
}

#[test]
fn simd_and_counts_every_byte_of_a_lane() {
    // one lane with a different number of bits in each of its sixteen bytes' neighbourhoods
    let mut values = Vec::new();
    for byte in 0..16u16 {
        for bit in 0..=(byte % 8) {
            values.push(256 + byte * 8 + bit);
        }
    }
    let left = Bitmap::from_iter(&values);
    let mut simd = left.clone();
    simd.intersection_simd(&Bitmap::full());
    assert_eq!(simd.len(), 2 * (1 + 2 + 3 + 4 + 5 + 6 + 7 + 8));
    assert!(simd == left);
}

#[test]
fn insert_contains_delete() {
    let mut stream = Stream(5);
    let mut indexes = stream.values(149);
    let mut bitmap = Bitmap::new();
    for i in &indexes {
        bitmap.insert(*i);
    }
    indexes.sort_unstable();
    indexes.dedup();
    assert_eq!(bitmap.len(), indexes.len());
    for i in 0..indexes.len() as u16 {
        let contain = bitmap.contains(i);
        assert_eq!(contain, indexes.contains(&i));
        assert_eq!(bitmap.remove(i), contain);
    }
}

#[test]
fn to_vec_is_strictly_ascending_and_as_long_as_len() {
    let mut stream = Stream(6);
    for count in [0usize, 1, 64, 1000, 40000] {
        let bitmap = Bitmap::from_iter(&stream.values(count));
        let list = bitmap.to_vec();
        assert_eq!(list.len(), bitmap.len());
        assert!(list.windows(2).all(|pair| pair[0] < pair[1]));
        assert!(list.iter().all(|value| bitmap.contains(*value)));
    }
}

#[test]
fn len_is_the_number_of_set_bits() {
    let mut stream = Stream(7);
    let mut bitmap = Bitmap::from_iter(&stream.values(3000));
    for value in stream.values(2000) {
        bitmap.remove(value);
    }
    bitmap.intersection(&Bitmap::from_iter(&stream.values(30000)));
    let bits: u32 = bitmap.internal_store().iter().map(|word| word.count_ones()).sum();
    assert_eq!(bitmap.len(), bits as usize);
}
