//! The store taken two words at a time, as 128-bit lanes: the even word in
//! the low half of the lane, the odd word in the high half.
//!
//! A lane is ANDed in one operation. Its set bits are counted the way vector
//! units count them: within every byte at once, then across the sixteen
//! bytes.

use vstd::prelude::*;
use crate::bits::{
    bit_is_set, lemma_popcount_below_bound, lemma_popcount_below_step, lemma_popcount_bound,
    popcount, popcount_below,
};
use crate::model::{
    and_words, lemma_cardinality, lemma_popcount_words_agree, members, popcount_words,
    BITMAP_SIZE,
};

verus! {

/// Number of store words in a lane.
pub const LANE_WORDS: usize = 2;

/// Number of lanes in a store.
pub const LANES: usize = BITMAP_SIZE / LANE_WORDS;

/// The lane made of two adjacent words.
pub open spec fn lane_of(low: u64, high: u64) -> u128 {
    (low as u128) | ((high as u128) << 64)
}

/// The word in the low half of a lane.
pub open spec fn low_word(lane: u128) -> u64 {
    (lane & 0xffff_ffff_ffff_ffff) as u64
}

/// The word in the high half of a lane.
pub open spec fn high_word(lane: u128) -> u64 {
    (lane >> 64) as u64
}

/// In every two bits of the result, the number of set bits among the same
/// two bits of `lane`.
pub open spec fn pair_counts(lane: u128) -> u128 {
    (lane - ((lane >> 1) & 0x5555_5555_5555_5555_5555_5555_5555_5555)) as u128
}

/// In every four bits of the result, the number of set bits among the same
/// four bits of `lane`.
pub open spec fn nibble_counts(lane: u128) -> u128 {
    ((pair_counts(lane) & 0x3333_3333_3333_3333_3333_3333_3333_3333) + ((pair_counts(lane) >> 2)
        & 0x3333_3333_3333_3333_3333_3333_3333_3333)) as u128
}

/// In every byte of the result, the number of set bits in the same byte of
/// `lane`.
pub open spec fn byte_counts(lane: u128) -> u128 {
    ((nibble_counts(lane) + (nibble_counts(lane) >> 4)) as u128)
        & 0x0f0f_0f0f_0f0f_0f0f_0f0f_0f0f_0f0f_0f0f
}

/// The number of set bits among the eight bits of `w` that start at `at`.
pub open spec fn bits_in_byte(w: u64, at: u64) -> nat {
    (if bit_is_set(w, at) { 1nat } else { 0nat })
    + (if bit_is_set(w, (at + 1) as u64) { 1nat } else { 0nat })
    + (if bit_is_set(w, (at + 2) as u64) { 1nat } else { 0nat })
    + (if bit_is_set(w, (at + 3) as u64) { 1nat } else { 0nat })
    + (if bit_is_set(w, (at + 4) as u64) { 1nat } else { 0nat })
    + (if bit_is_set(w, (at + 5) as u64) { 1nat } else { 0nat })
    + (if bit_is_set(w, (at + 6) as u64) { 1nat } else { 0nat })
    + (if bit_is_set(w, (at + 7) as u64) { 1nat } else { 0nat })
}

/// A lane is made of its two halves, and each half is a word.
proof fn lemma_lane_of_halves(lane: u128)
    by (bit_vector)
    ensures
        lane & 0xffff_ffff_ffff_ffff <= 0xffff_ffff_ffff_ffff,
        lane >> 64 <= 0xffff_ffff_ffff_ffff,
        lane_of(low_word(lane), high_word(lane)) == lane,
{
}

/// ANDing two lanes ANDs their low words and their high words.
proof fn lemma_lane_and(a: u64, b: u64, c: u64, d: u64)
    by (bit_vector)
    ensures
        low_word(lane_of(a, b) & lane_of(c, d)) == a & c,
        high_word(lane_of(a, b) & lane_of(c, d)) == b & d,
{
}

/// None of the three counting steps leaves the range of a lane.
proof fn lemma_counting_steps(lane: u128)
    by (bit_vector)
    ensures
        (lane >> 1) & 0x5555_5555_5555_5555_5555_5555_5555_5555 <= lane,
        (pair_counts(lane) & 0x3333_3333_3333_3333_3333_3333_3333_3333) + ((pair_counts(lane) >> 2)
            & 0x3333_3333_3333_3333_3333_3333_3333_3333)
            <= 0xffff_ffff_ffff_ffff_ffff_ffff_ffff_ffff,
        nibble_counts(lane) + (nibble_counts(lane) >> 4)
            <= 0xffff_ffff_ffff_ffff_ffff_ffff_ffff_ffff,
{
}

/// The byte of the counts at bit `at` of either half holds the number of
/// set bits of the byte of that half that starts at `at`.
proof fn lemma_byte_counts(low: u64, high: u64, at: u64)
    by (bit_vector)
    requires
        at < 64,
        at % 8 == 0,
    ensures
        (byte_counts(lane_of(low, high)) >> at) & 0xff == bits_in_byte(low, at),
        (byte_counts(lane_of(low, high)) >> ((at + 64) as u64)) & 0xff == bits_in_byte(high, at),
{
}

/// Eight more bits add their own number to the count.
proof fn lemma_popcount_below_byte(w: u64, at: u64)
    requires
        at <= 56,
    ensures
        popcount_below(w, (at + 8) as nat) == popcount_below(w, at as nat) + bits_in_byte(w, at),
{
    let n = at as nat;
    lemma_popcount_below_step(w, n);
    lemma_popcount_below_step(w, n + 1);
    lemma_popcount_below_step(w, n + 2);
    lemma_popcount_below_step(w, n + 3);
    lemma_popcount_below_step(w, n + 4);
    lemma_popcount_below_step(w, n + 5);
    lemma_popcount_below_step(w, n + 6);
    lemma_popcount_below_step(w, n + 7);
}

/// The lane that starts at word `2 * lane` of the store.
fn load_lane(store: &[u64; BITMAP_SIZE], lane: usize) -> (value: u128)
    requires
        lane < LANES,
    ensures
        value == lane_of(store@[2 * lane], store@[2 * lane + 1]),
    no_unwind
{
    let low = store[LANE_WORDS * lane];
    let high = store[LANE_WORDS * lane + 1];
    (low as u128) | ((high as u128) << 64)
}

/// Writes a lane back over words `2 * lane` and `2 * lane + 1` of the store.
fn store_lane(store: &mut [u64; BITMAP_SIZE], lane: usize, value: u128)
    requires
        lane < LANES,
    ensures
        final(store)@ == old(store)@.update(2 * lane, low_word(value)).update(
            2 * lane + 1,
            high_word(value),
        ),
    no_unwind
{
    proof {
        lemma_lane_of_halves(value);
    }
    store[LANE_WORDS * lane] = (value & 0xffff_ffff_ffff_ffff) as u64;
    store[LANE_WORDS * lane + 1] = (value >> 64) as u64;
}

/// The number of set bits of a lane: counted within every byte at once, then
/// added up across the sixteen bytes.
fn count_lane(lane: u128) -> (ones: u8)
    ensures
        ones == popcount(low_word(lane)) + popcount(high_word(lane)),
    no_unwind
{
    proof {
        lemma_counting_steps(lane);
    }
    let pairs = lane - ((lane >> 1) & 0x5555_5555_5555_5555_5555_5555_5555_5555);
    let nibbles = (pairs & 0x3333_3333_3333_3333_3333_3333_3333_3333) + ((pairs >> 2)
        & 0x3333_3333_3333_3333_3333_3333_3333_3333);
    let bytes = (nibbles + (nibbles >> 4)) & 0x0f0f_0f0f_0f0f_0f0f_0f0f_0f0f_0f0f_0f0f;
    let ghost low = low_word(lane);
    let ghost high = high_word(lane);
    proof {
        lemma_lane_of_halves(lane);
    }
    let mut ones: u8 = 0;
    let mut byte: usize = 0;
    while byte < 16
        invariant
            byte <= 16,
            bytes == byte_counts(lane_of(low, high)),
            byte <= 8 ==> ones == popcount_below(low, (8 * byte) as nat),
            byte > 8 ==> ones == popcount(low) + popcount_below(
                high,
                (8 * (byte - 8)) as nat,
            ),
        decreases 16 - byte,
    {
        proof {
            if byte < 8 {
                lemma_byte_counts(low, high, (8 * byte) as u64);
                lemma_popcount_below_byte(low, (8 * byte) as u64);
                lemma_popcount_below_bound(low, (8 * byte + 8) as nat);
            } else {
                lemma_byte_counts(low, high, (8 * (byte - 8)) as u64);
                lemma_popcount_below_byte(high, (8 * (byte - 8)) as u64);
                lemma_popcount_below_bound(low, 64);
                lemma_popcount_below_bound(high, (8 * (byte - 8) + 8) as nat);
            }
        }
        ones += ((bytes >> (8 * byte)) & 0xff) as u8;
        byte += 1;
    }
    ones
}

/// ANDs `other` into `store`, a lane at a time, counting the set bits of
/// each result lane in the same pass; leaves the total in `len`.
pub(crate) fn intersect_lanes(
    store: &mut [u64; BITMAP_SIZE],
    len: &mut usize,
    other: &[u64; BITMAP_SIZE],
)
    ensures
        final(store)@ == and_words(old(store)@, other@),
        *final(len) == members(final(store)@).len(),
    no_unwind
{
    let mut count: usize = 0;
    let mut lane: usize = 0;
    while lane < LANES
        invariant
            lane <= 512,
            forall|k: int| 0 <= k < 2 * lane ==> store@[k] == old(store)@[k] & other@[k],
            forall|k: int| 2 * lane <= k < 1024 ==> store@[k] == old(store)@[k],
            count == popcount_words(store@, (2 * lane) as nat),
            count <= 128 * lane,
        decreases 512 - lane,
    {
        let ghost before = store@;
        let left_lane = load_lane(store, lane);
        let right_lane = load_lane(other, lane);
        let ret = left_lane & right_lane;
        store_lane(store, lane, ret);
        proof {
            lemma_lane_and(
                before[2 * lane],
                before[2 * lane + 1],
                other@[2 * lane],
                other@[2 * lane + 1],
            );
            lemma_popcount_words_agree(before, store@, (2 * lane) as nat);
            lemma_popcount_bound(low_word(ret));
            lemma_popcount_bound(high_word(ret));
            assert(popcount_words(store@, (2 * lane + 2) as nat) == popcount_words(
                store@,
                (2 * lane) as nat,
            ) + popcount(store@[2 * lane]) + popcount(store@[2 * lane + 1])) by {
                reveal_with_fuel(popcount_words, 3);
            }
        }
        count += count_lane(ret) as usize;
        lane += 1;
    }
    proof {
        lemma_cardinality(store@);
        assert(store@ =~= and_words(old(store)@, other@));
    }
    *len = count;
}

} // verus!
