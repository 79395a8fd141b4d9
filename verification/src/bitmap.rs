//! The bitmap itself: a fixed store of words and the count of its set bits.

use vstd::prelude::*;
use crate::bits::{
    bit_is_set, count_ones, lemma_bit_of_extremes, lemma_bit_of_mask_test, lemma_delta_of_clear,
    lemma_delta_of_set, lemma_popcount_bound, lemma_shift_step,
};
use crate::lanes::intersect_lanes;
use crate::model::{
    and_words, ascending, insert_each, lemma_ascending_complete, lemma_ascending_gap,
    lemma_cardinality, lemma_decoding, lemma_finite, lemma_insert_each,
    lemma_members_after_clear, lemma_members_after_set, lemma_members_determine_words,
    lemma_members_of_and, lemma_members_of_ones, lemma_members_of_or, lemma_members_of_zeros,
    lemma_popcount_words_agree, members, or_words, popcount_words, strictly_ascending,
    BITMAP_SIZE, UNIVERSE, WORD_BITS,
};

verus! {

/// A set of 16-bit values.
///
/// Bit `v % 64` of word `v / 64` of the store says whether `v` is a member;
/// the number of members is kept beside the store, so that asking for it
/// costs nothing.
pub struct Bitmap {
    len: usize,
    store: [u64; BITMAP_SIZE],
}

impl View for Bitmap {
    type V = Set<u16>;

    /// The members.
    open spec fn view(&self) -> Set<u16> {
        members(self.words())
    }
}

impl Bitmap {
    /// The words of the store, first word first.
    pub closed spec fn words(&self) -> Seq<u64> {
        self.store@
    }

    /// The cardinality that is kept beside the store.
    pub closed spec fn spec_len(&self) -> usize {
        self.len
    }

    /// The kept cardinality is the number of members.
    #[verifier::type_invariant]
    pub closed spec fn wf(self) -> bool {
        self.len == members(self.store@).len()
    }

    /// What the invariant says, in public terms.
    pub proof fn lemma_wf(self)
        requires
            self.wf(),
        ensures
            self.words().len() == 1024,
            self@.finite(),
            self.spec_len() == self@.len(),
            self.spec_len() <= 65536,
    {
        lemma_finite(self@);
    }

    /// A bitmap that keeps its invariant is known by its members.
    pub proof fn lemma_same_members(self, other: Self)
        requires
            self.wf(),
            other.wf(),
            self@ == other@,
        ensures
            self == other,
    {
        lemma_members_determine_words(self.store@, other.store@);
        self.lemma_equal(other);
    }

    /// A bitmap is its store and its kept cardinality, and nothing more.
    pub proof fn lemma_equal(self, other: Self)
        requires
            self.words() == other.words(),
            self.spec_len() == other.spec_len(),
        ensures
            self == other,
    {
        assert(self.store =~= other.store);
    }

    /// The empty set.
    #[inline]
    pub fn new() -> (bitmap: Self)
        ensures
            bitmap@ == Set::<u16>::empty(),
            bitmap.spec_len() == 0,
            bitmap.words() == Seq::new(1024, |k: int| 0u64),
    {
        let store = [0u64; BITMAP_SIZE];
        proof {
            lemma_members_of_zeros(store@);
            assert(store@ =~= Seq::new(1024, |k: int| 0u64));
        }
        Bitmap { len: 0, store }
    }

    /// The whole universe, 0 through 65535.
    #[inline]
    pub fn full() -> (bitmap: Self)
        ensures
            bitmap@ == Set::<u16>::full(),
            bitmap.spec_len() == 65536,
            bitmap.words() == Seq::new(1024, |k: int| u64::MAX),
    {
        let store = [u64::MAX; BITMAP_SIZE];
        proof {
            lemma_members_of_ones(store@);
            assert(store@ =~= Seq::new(1024, |k: int| u64::MAX));
        }
        Bitmap { len: UNIVERSE, store }
    }

    /// The store as it is held.
    #[inline]
    pub fn internal_store(&self) -> (store: &[u64; BITMAP_SIZE])
        ensures
            store@ == self.words(),
    {
        &self.store
    }

    /// The number of members.
    #[inline]
    #[verifier::when_used_as_spec(spec_len)]
    pub fn len(&self) -> (n: usize)
        ensures
            n == self.spec_len(),
            n == self@.len(),
    {
        proof {
            use_type_invariant(self);
        }
        self.len
    }

    /// Whether there is no member.
    #[inline]
    pub fn is_empty(&self) -> (empty: bool)
        ensures
            empty == (self@ == Set::<u16>::empty()),
            empty == (self.spec_len() == 0),
    {
        proof {
            use_type_invariant(self);
            lemma_finite(self@);
            if self@.len() == 0 {
                self@.lemma_len0_is_empty();
                assert(self@ =~= Set::<u16>::empty());
            }
        }
        self.len() == 0
    }

    /// The index of the word that holds the bit of `index`.
    #[inline]
    fn key(index: u16) -> (key: usize)
        ensures
            key == index / 64,
            key < BITMAP_SIZE,
    {
        index as usize / WORD_BITS
    }

    /// The position, within its word, of the bit of `index`.
    #[inline]
    fn bit(index: u16) -> (bit: usize)
        ensures
            bit == index % 64,
            bit < WORD_BITS,
    {
        index as usize % WORD_BITS
    }

    /// Whether `self` and `present` are what adding `value` to `before`
    /// leaves and returns: `value` is a member, `present` says whether it
    /// was one before, and the cardinality is one more if it was not.
    pub open spec fn is_insertion_into(&self, before: &Self, value: u16, present: bool) -> bool {
        &&& self@ == before@.insert(value)
        &&& present == before@.contains(value)
        &&& self.spec_len() == before.spec_len() + if present { 0int } else { 1int }
    }

    /// Whether `self` and `present` are what taking `value` out of `before`
    /// leaves and returns: `value` is no member, `present` says whether it
    /// was one before, and the cardinality is one less if it was.
    pub open spec fn is_removal_from(&self, before: &Self, value: u16, present: bool) -> bool {
        &&& self@ == before@.remove(value)
        &&& present == before@.contains(value)
        &&& self.spec_len() == before.spec_len() - if present { 1int } else { 0int }
    }

    /// Adds `value`. Returns `true` if the value was already present.
    #[inline]
    pub fn insert(&mut self, value: u16) -> (present: bool)
        ensures
            final(self).is_insertion_into(old(self), value, present),
    {
        proof {
            use_type_invariant(&*self);
        }
        let (key, bit) = (Self::key(value), Self::bit(value));
        let old_w = self.store[key];
        let new_w = old_w | 1u64 << bit;
        let inserted = (old_w ^ new_w) >> bit;
        proof {
            lemma_delta_of_set(old_w, bit as u64);
            lemma_members_after_set(self.store@, value);
            lemma_finite(self@);
            lemma_finite(self@.insert(value));
        }
        let new_len = self.len + inserted as usize;
        write_word(&mut self.store, &mut self.len, key, new_w, new_len);
        inserted == 0
    }

    /// Takes `value` out. Returns `true` if the value was present.
    #[inline]
    pub fn remove(&mut self, value: u16) -> (present: bool)
        ensures
            final(self).is_removal_from(old(self), value, present),
    {
        proof {
            use_type_invariant(&*self);
        }
        let (key, bit) = (Self::key(value), Self::bit(value));
        let old_w = self.store[key];
        let new_w = old_w & !(1u64 << bit);
        let removed = (old_w ^ new_w) >> bit;
        proof {
            lemma_delta_of_clear(old_w, bit as u64);
            lemma_members_after_clear(self.store@, value);
            lemma_finite(self@);
        }
        let new_len = self.len - removed as usize;
        write_word(&mut self.store, &mut self.len, key, new_w, new_len);
        removed != 0
    }

    /// Whether `index` is a member.
    #[inline]
    pub fn contains(&self, index: u16) -> (present: bool)
        ensures
            present == self@.contains(index),
    {
        let (key, bit) = (Self::key(index), Self::bit(index));
        proof {
            lemma_bit_of_mask_test(self.store@[key as int], bit as u64);
        }
        self.store[key] & (1u64 << bit) != 0
    }

    /// Whether `self` is what intersecting `left` with `right` leaves: the
    /// words of both ANDed, the members common to both, and their number.
    pub open spec fn is_intersection_of(&self, left: &Self, right: &Self) -> bool {
        &&& self.words() == and_words(left.words(), right.words())
        &&& self@ == left@.intersect(right@)
        &&& self.spec_len() == self@.len()
    }

    /// Whether `self` is what uniting `left` with `right` gives: the words
    /// of both ORed, the members of either, and their number.
    pub open spec fn is_union_of(&self, left: &Self, right: &Self) -> bool {
        &&& self.words() == or_words(left.words(), right.words())
        &&& self@ == left@.union(right@)
        &&& self.spec_len() == self@.len()
    }

    /// Keeps the members that `other` holds too.
    #[inline]
    pub fn intersection(&mut self, other: &Self)
        ensures
            final(self).is_intersection_of(old(self), other),
    {
        proof {
            lemma_members_of_and(self.store@, other.store@, and_words(self.store@, other.store@));
        }
        intersect_words(&mut self.store, &mut self.len, &other.store);
    }

    /// Keeps the members that `other` holds too, working through the store
    /// a 128-bit lane at a time. Leaves exactly what
    /// [`Bitmap::intersection`] leaves, and uses no instruction that a
    /// target could lack.
    #[inline]
    pub fn intersection_simd(&mut self, other: &Self)
        ensures
            final(self).is_intersection_of(old(self), other),
    {
        proof {
            lemma_members_of_and(self.store@, other.store@, and_words(self.store@, other.store@));
        }
        intersect_lanes(&mut self.store, &mut self.len, &other.store);
    }

    /// Adds the members of `other`.
    #[inline]
    pub fn union(&mut self, other: &Self)
        ensures
            final(self).is_union_of(old(self), other),
    {
        proof {
            lemma_members_of_or(self.store@, other.store@, or_words(self.store@, other.store@));
        }
        unite_words(&mut self.store, &mut self.len, &other.store);
    }

    /// The members, smallest first.
    pub fn to_vec(&self) -> (list: Vec<u16>)
        ensures
            list@ == ascending(self@, 65536),
            list@.len() == self.spec_len(),
            strictly_ascending(list@),
            list@.no_duplicates(),
            forall|v: u16| list@.contains(v) == self@.contains(v),
    {
        proof {
            use_type_invariant(self);
            lemma_decoding(self@);
        }
        let mut ret: Vec<u16> = Vec::with_capacity(self.len);
        let mut current_idx: u16 = 0;
        let mut key: usize = 0;
        while key < BITMAP_SIZE
            invariant_except_break
                ret@ == ascending(self@, (64 * key) as nat),
                current_idx == cursor_at(64 * key),
            invariant
                key <= 1024,
                self.len == ascending(self@, 65536).len(),
            ensures
                ret@ == ascending(self@, 65536),
            decreases 1024 - key,
        {
            let ghost word = self.store@[key as int];
            let mut current = self.store[key];
            if current != 0 {
                let mut bit: usize = 0;
                proof {
                    lemma_shift_step(word, 0);
                }
                while bit < WORD_BITS
                    invariant
                        key < 1024,
                        bit <= 64,
                        word == self.store@[key as int],
                        bit < 64 ==> current == word >> (bit as u64),
                        ret@ == ascending(self@, (64 * key + bit) as nat),
                        current_idx == cursor_at(64 * key + bit),
                    decreases 64 - bit,
                {
                    proof {
                        lemma_shift_step(word, bit as u64);
                        let value = (64 * key + bit) as u16;
                        assert(value / 64 == key && value % 64 == bit);
                        assert(self@.contains(value) == bit_is_set(word, bit as u64));
                    }
                    if current & 1 == 1 {
                        ret.push(current_idx);
                    }
                    current >>= 1;
                    current_idx = current_idx.saturating_add(1);
                    bit += 1;
                }
            } else {
                proof {
                    assert forall|v: u16| 64 * key <= v < 64 * key + 64 implies !self@.contains(
                        v,
                    ) by {
                        lemma_bit_of_extremes((v % 64) as u64);
                    }
                    lemma_ascending_gap(self@, (64 * key) as nat, (64 * key + 64) as nat);
                }
                current_idx = current_idx.saturating_add(64);
            }
            key += 1;
            if ret.len() == self.len {
                proof {
                    lemma_ascending_complete(self@, (64 * key) as nat, 65536);
                }
                break ;
            }
        }
        ret
    }

    /// The set of the given values: what adding them one by one to the empty
    /// set leaves, in whatever order they come and however often.
    pub fn from_iter(values: &[u16]) -> (bitmap: Self)
        ensures
            bitmap@ == values@.to_set(),
            bitmap@ == insert_each(Set::empty(), values@),
            bitmap.spec_len() == bitmap@.len(),
    {
        let mut bitmap = Bitmap::new();
        proof {
            assert(values@.take(0).to_set() =~= Set::<u16>::empty());
        }
        for index in 0..values.len()
            invariant
                bitmap@ == values@.take(index as int).to_set(),
                bitmap.spec_len() == bitmap@.len(),
        {
            proof {
                assert(values@.take(index + 1) =~= values@.take(index as int).push(
                    values@[index as int],
                ));
                values@.take(index as int).lemma_push_to_set_commute(values@[index as int]);
            }
            bitmap.insert(values[index]);
        }
        proof {
            assert(values@.take(values@.len() as int) =~= values@);
            lemma_insert_each(Set::empty(), values@);
            assert(Set::<u16>::empty().union(values@.to_set()) =~= values@.to_set());
        }
        bitmap
    }
}

impl Clone for Bitmap {
    fn clone(&self) -> (copy: Self)
        ensures
            copy == *self,
    {
        proof {
            use_type_invariant(self);
        }
        Bitmap { len: self.len, store: self.store }
    }
}

/// Where the decoding cursor stands once `position` values have been passed:
/// at `position`, or at the last value where there is no further one.
spec fn cursor_at(position: int) -> int {
    if position < 65536 {
        position
    } else {
        65535
    }
}

/// ANDs `other` into `store`, word by word, counting the set bits of each
/// result word in the same pass; leaves the total in `len`.
fn intersect_words(store: &mut [u64; BITMAP_SIZE], len: &mut usize, other: &[u64; BITMAP_SIZE])
    ensures
        final(store)@ == and_words(old(store)@, other@),
        *final(len) == members(final(store)@).len(),
    no_unwind
{
    let mut count: u32 = 0;
    let mut index: usize = 0;
    while index < BITMAP_SIZE
        invariant
            index <= 1024,
            forall|k: int| 0 <= k < index ==> store@[k] == old(store)@[k] & other@[k],
            forall|k: int| index <= k < 1024 ==> store@[k] == old(store)@[k],
            count == popcount_words(store@, index as nat),
            count <= 64 * index,
        decreases 1024 - index,
    {
        let ghost before = store@;
        store[index] &= other[index];
        proof {
            lemma_popcount_words_agree(before, store@, index as nat);
            lemma_popcount_bound(store@[index as int]);
        }
        count += count_ones(store[index]);
        index += 1;
    }
    proof {
        lemma_cardinality(store@);
        assert(store@ =~= and_words(old(store)@, other@));
    }
    *len = count as usize;
}

/// ORs `other` into `store`, word by word, counting the set bits of each
/// result word in the same pass; leaves the total in `len`.
fn unite_words(store: &mut [u64; BITMAP_SIZE], len: &mut usize, other: &[u64; BITMAP_SIZE])
    ensures
        final(store)@ == or_words(old(store)@, other@),
        *final(len) == members(final(store)@).len(),
    no_unwind
{
    let mut count: u32 = 0;
    let mut index: usize = 0;
    while index < BITMAP_SIZE
        invariant
            index <= 1024,
            forall|k: int| 0 <= k < index ==> store@[k] == old(store)@[k] | other@[k],
            forall|k: int| index <= k < 1024 ==> store@[k] == old(store)@[k],
            count == popcount_words(store@, index as nat),
            count <= 64 * index,
        decreases 1024 - index,
    {
        let ghost before = store@;
        store[index] |= other[index];
        proof {
            lemma_popcount_words_agree(before, store@, index as nat);
            lemma_popcount_bound(store@[index as int]);
        }
        count += count_ones(store[index]);
        index += 1;
    }
    proof {
        lemma_cardinality(store@);
        assert(store@ =~= or_words(old(store)@, other@));
    }
    *len = count as usize;
}

/// Writes one word of a store and, with it, the cardinality of the result.
fn write_word(
    store: &mut [u64; BITMAP_SIZE],
    len: &mut usize,
    key: usize,
    word: u64,
    new_len: usize,
)
    requires
        key < BITMAP_SIZE,
    ensures
        final(store)@ == old(store)@.update(key as int, word),
        *final(len) == new_len,
    no_unwind
{
    store[key] = word;
    *len = new_len;
}

} // verus!
