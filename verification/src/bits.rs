//! Bits of a single 64-bit word: what it means for a bit to be set, how many
//! are set, and the effect of the bitwise operators on both.

use vstd::prelude::*;

verus! {

/// Whether bit `b` of `w` is set; bit 0 is the least significant.
pub open spec fn bit_is_set(w: u64, b: u64) -> bool {
    (w >> b) & 1 == 1
}

/// The number of set bits of `w` among the `n` least significant.
pub open spec fn popcount_below(w: u64, n: nat) -> nat
    decreases n,
{
    if n == 0 {
        0
    } else {
        popcount_below(w, (n - 1) as nat) + if bit_is_set(w, (n - 1) as u64) {
            1nat
        } else {
            0nat
        }
    }
}

/// The number of set bits of `w`.
pub open spec fn popcount(w: u64) -> nat {
    popcount_below(w, 64)
}

/// Calls `u64::count_ones`, which returns the number of ones in the binary
/// representation of its argument and cannot panic.
#[verifier::external_body]
pub(crate) fn count_ones(w: u64) -> (ones: u32)
    ensures
        ones == popcount(w),
    no_unwind
{
    w.count_ones()
}

/// Forcing bit `b` on sets that bit and leaves the others as they were.
pub proof fn lemma_bit_of_or_mask(w: u64, b: u64, c: u64)
    by (bit_vector)
    requires
        b < 64,
        c < 64,
    ensures
        bit_is_set(w | (1u64 << b), c) == (bit_is_set(w, c) || c == b),
{
}

/// Forcing bit `b` off clears that bit and leaves the others as they were.
pub proof fn lemma_bit_of_and_not_mask(w: u64, b: u64, c: u64)
    by (bit_vector)
    requires
        b < 64,
        c < 64,
    ensures
        bit_is_set(w & !(1u64 << b), c) == (bit_is_set(w, c) && c != b),
{
}

/// The XOR of a word and the same word with bit `b` forced on, shifted down
/// by `b`, is 1 exactly when the bit was off before.
pub proof fn lemma_delta_of_set(w: u64, b: u64)
    by (bit_vector)
    requires
        b < 64,
    ensures
        (w ^ (w | (1u64 << b))) >> b == (if bit_is_set(w, b) { 0u64 } else { 1u64 }),
{
}

/// The XOR of a word and the same word with bit `b` forced off, shifted down
/// by `b`, is 1 exactly when the bit was on before.
pub proof fn lemma_delta_of_clear(w: u64, b: u64)
    by (bit_vector)
    requires
        b < 64,
    ensures
        (w ^ (w & !(1u64 << b))) >> b == (if bit_is_set(w, b) { 1u64 } else { 0u64 }),
{
}

/// ANDing with the mask of bit `b` leaves something exactly when the bit is
/// set.
pub proof fn lemma_bit_of_mask_test(w: u64, b: u64)
    by (bit_vector)
    requires
        b < 64,
    ensures
        (w & (1u64 << b) != 0) == bit_is_set(w, b),
{
}

/// A bit of `x & y` is set when it is set in both.
pub proof fn lemma_bit_of_and(x: u64, y: u64, c: u64)
    by (bit_vector)
    requires
        c < 64,
    ensures
        bit_is_set(x & y, c) == (bit_is_set(x, c) && bit_is_set(y, c)),
{
}

/// A bit of `x | y` is set when it is set in either.
pub proof fn lemma_bit_of_or(x: u64, y: u64, c: u64)
    by (bit_vector)
    requires
        c < 64,
    ensures
        bit_is_set(x | y, c) == (bit_is_set(x, c) || bit_is_set(y, c)),
{
}

/// The zero word has no bit set, the all-one word has every bit set.
pub proof fn lemma_bit_of_extremes(c: u64)
    by (bit_vector)
    requires
        c < 64,
    ensures
        !bit_is_set(0u64, c),
        bit_is_set(0xffff_ffff_ffff_ffffu64, c),
{
}

/// After `c` shifts to the right the lowest bit is bit `c` of `w`, and one
/// more shift makes it bit `c + 1`.
pub proof fn lemma_shift_step(w: u64, c: u64)
    by (bit_vector)
    requires
        c < 64,
    ensures
        ((w >> c) & 1 == 1) == bit_is_set(w, c),
        c < 63 ==> (w >> c) >> 1u64 == w >> ((c + 1) as u64),
        w >> 0u64 == w,
{
}

/// One more bit adds one to the count if it is set.
pub proof fn lemma_popcount_below_step(w: u64, n: nat)
    ensures
        popcount_below(w, n + 1) == popcount_below(w, n) + if bit_is_set(w, n as u64) {
            1nat
        } else {
            0nat
        },
{
}

/// Among `n` bits at most `n` are set.
pub proof fn lemma_popcount_below_bound(w: u64, n: nat)
    ensures
        popcount_below(w, n) <= n,
    decreases n,
{
    if n > 0 {
        lemma_popcount_below_bound(w, (n - 1) as nat);
    }
}

/// A word has at most 64 set bits.
pub proof fn lemma_popcount_bound(w: u64)
    ensures
        popcount(w) <= 64,
{
    lemma_popcount_below_bound(w, 64);
}

/// The `n` lowest bits of the all-one word are all set.
pub proof fn lemma_popcount_below_full(n: nat)
    requires
        n <= 64,
    ensures
        popcount_below(u64::MAX, n) == n,
    decreases n,
{
    if n > 0 {
        lemma_popcount_below_full((n - 1) as nat);
        lemma_bit_of_extremes((n - 1) as u64);
    }
}

/// Words that agree on every bit are the same word.
pub proof fn lemma_word_equal(x: u64, y: u64)
    requires
        forall|c: u64| c < 64 ==> bit_is_set(x, c) == bit_is_set(y, c),
    ensures
        x == y,
{
    let d = x ^ y;
    vstd::std_specs::bits::axiom_u64_trailing_zeros(d);
    let c = vstd::std_specs::bits::u64_trailing_zeros(d) as u64;
    if d != 0 {
        assert(bit_is_set(x, c) == bit_is_set(y, c));
        assert(((x ^ y) >> c) & 1 == 1 ==> bit_is_set(x, c) != bit_is_set(y, c)) by (bit_vector);
    }
    assert(x ^ y == 0 ==> x == y) by (bit_vector);
}

} // verus!
