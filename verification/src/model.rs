//! What a store of words stands for: the set of 16-bit values whose bits are
//! set, how many they are, and the ascending sequence that lists them.

use vstd::prelude::*;
use crate::bits::{
    bit_is_set, lemma_bit_of_and, lemma_bit_of_and_not_mask, lemma_bit_of_extremes,
    lemma_bit_of_or, lemma_bit_of_or_mask, lemma_popcount_below_full, lemma_popcount_bound,
    lemma_word_equal, popcount, popcount_below,
};

verus! {

/// Width of a store word in bits.
pub const WORD_BITS: usize = 64;

/// Number of values in the universe: 0 through 65535.
pub const UNIVERSE: usize = 65536;

/// Number of words in a store: one bit for each value of the universe.
pub const BITMAP_SIZE: usize = UNIVERSE / WORD_BITS;

/// Whether the bit that stands for `v` is set: bit `v % 64` of word `v / 64`.
pub open spec fn store_bit(words: Seq<u64>, v: u16) -> bool {
    bit_is_set(words[(v / 64) as int], (v % 64) as u64)
}

/// The values whose bits are set in `words`.
pub open spec fn members(words: Seq<u64>) -> Set<u16> {
    Set::new(|v: u16| store_bit(words, v))
}

/// The members of `s` that are less than `n`.
pub open spec fn below(s: Set<u16>, n: nat) -> Set<u16> {
    Set::new(|v: u16| s.contains(v) && (v as nat) < n)
}

/// The members of `s` that are less than `n`, smallest first.
pub open spec fn ascending(s: Set<u16>, n: nat) -> Seq<u16>
    decreases n,
{
    if n == 0 {
        Seq::empty()
    } else if n <= 65536 && s.contains((n - 1) as u16) {
        ascending(s, (n - 1) as nat).push((n - 1) as u16)
    } else {
        ascending(s, (n - 1) as nat)
    }
}

/// The number of set bits in the first `k` words.
pub open spec fn popcount_words(words: Seq<u64>, k: nat) -> nat
    decreases k,
{
    if k == 0 {
        0
    } else {
        popcount_words(words, (k - 1) as nat) + popcount(words[k - 1])
    }
}

/// Whether `s` lists its items in strictly ascending order.
pub open spec fn strictly_ascending(s: Seq<u16>) -> bool {
    forall|i: int, j: int| 0 <= i < j < s.len() ==> s[i] < s[j]
}

/// The members below `n + 1` are those below `n` and, if it is a member,
/// `n` itself.
pub proof fn lemma_below_step(s: Set<u16>, n: nat)
    requires
        n < 65536,
    ensures
        !below(s, n).contains(n as u16),
        below(s, n + 1) == if s.contains(n as u16) {
            below(s, n).insert(n as u16)
        } else {
            below(s, n)
        },
{
    if s.contains(n as u16) {
        assert(below(s, n + 1) =~= below(s, n).insert(n as u16));
    } else {
        assert(below(s, n + 1) =~= below(s, n));
    }
}

/// Below `n` there are at most `n` members.
pub proof fn lemma_below_finite(s: Set<u16>, n: nat)
    requires
        n <= 65536,
    ensures
        below(s, n).finite(),
        below(s, n).len() <= n,
    decreases n,
{
    if n == 0 {
        assert(below(s, 0) =~= Set::<u16>::empty());
    } else {
        lemma_below_finite(s, (n - 1) as nat);
        lemma_below_step(s, (n - 1) as nat);
    }
}

/// Every set of 16-bit values is finite and has at most 65536 members.
pub proof fn lemma_finite(s: Set<u16>)
    ensures
        s.finite(),
        s.len() <= 65536,
        below(s, 65536) == s,
{
    lemma_below_finite(s, 65536);
    assert(below(s, 65536) =~= s);
}

/// The ascending sequence below `n` lists exactly the members below `n`,
/// each once and in order.
pub proof fn lemma_ascending(s: Set<u16>, n: nat)
    requires
        n <= 65536,
    ensures
        ascending(s, n).len() == below(s, n).len(),
        strictly_ascending(ascending(s, n)),
        forall|i: int|
            0 <= i < ascending(s, n).len() ==> below(s, n).contains(#[trigger] ascending(s, n)[i]),
        forall|v: u16| below(s, n).contains(v) ==> ascending(s, n).contains(v),
    decreases n,
{
    if n == 0 {
        assert(below(s, 0) =~= Set::<u16>::empty());
    } else {
        let m = (n - 1) as nat;
        let prev = ascending(s, m);
        let cur = ascending(s, n);
        lemma_ascending(s, m);
        lemma_below_step(s, m);
        lemma_below_finite(s, m);
        if s.contains(m as u16) {
            assert(cur == prev.push(m as u16));
            assert forall|i: int, j: int| 0 <= i < j < cur.len() implies cur[i] < cur[j] by {
                if j == prev.len() {
                    assert(below(s, m).contains(prev[i]));
                }
            }
            assert forall|i: int| 0 <= i < cur.len() implies below(s, n).contains(
                #[trigger] cur[i],
            ) by {
                if i < prev.len() {
                    assert(below(s, m).contains(prev[i]));
                }
            }
            assert forall|v: u16| below(s, n).contains(v) implies cur.contains(v) by {
                if v == m as u16 {
                    assert(cur[prev.len() as int] == v);
                } else {
                    assert(below(s, m).contains(v));
                    let i = choose|i: int| 0 <= i < prev.len() && prev[i] == v;
                    assert(cur[i] == v);
                }
            }
        } else {
            assert(cur == prev);
        }
    }
}

/// The decoded list of a set is strictly ascending, holds exactly the
/// members, each once, and is as long as the set is large.
pub proof fn lemma_decoding(s: Set<u16>)
    ensures
        strictly_ascending(ascending(s, 65536)),
        ascending(s, 65536).no_duplicates(),
        ascending(s, 65536).len() == s.len(),
        forall|v: u16| ascending(s, 65536).contains(v) == s.contains(v),
{
    lemma_finite(s);
    lemma_ascending(s, 65536);
    let list = ascending(s, 65536);
    assert forall|v: u16| list.contains(v) == s.contains(v) by {
        if list.contains(v) {
            let i = choose|i: int| 0 <= i < list.len() && list[i] == v;
            assert(s.contains(list[i]));
        }
    }
}

/// Where no member lies from `n` up to `m`, the ascending sequences below
/// both bounds are the same.
pub proof fn lemma_ascending_gap(s: Set<u16>, n: nat, m: nat)
    requires
        n <= m <= 65536,
        forall|v: u16| n <= v < m ==> !s.contains(v),
    ensures
        ascending(s, m) == ascending(s, n),
    decreases m,
{
    if n < m {
        lemma_ascending_gap(s, n, (m - 1) as nat);
    }
}

/// A larger bound does not shorten the ascending sequence.
pub proof fn lemma_ascending_grows(s: Set<u16>, n: nat, m: nat)
    requires
        n <= m,
    ensures
        ascending(s, n).len() <= ascending(s, m).len(),
    decreases m,
{
    if n < m {
        lemma_ascending_grows(s, n, (m - 1) as nat);
    }
}

/// Once the ascending sequence below `n` is as long as the one below a
/// larger bound, both are the same.
pub proof fn lemma_ascending_complete(s: Set<u16>, n: nat, m: nat)
    requires
        n <= m,
        ascending(s, n).len() == ascending(s, m).len(),
    ensures
        ascending(s, m) == ascending(s, n),
    decreases m,
{
    if n < m {
        lemma_ascending_grows(s, n, (m - 1) as nat);
        lemma_ascending_complete(s, n, (m - 1) as nat);
    }
}

/// The members below position `64 * k + m` are as many as the set bits of
/// the first `k` words and of the `m` lowest bits of the next one.
pub proof fn lemma_count_prefix(words: Seq<u64>, k: nat, m: nat)
    requires
        words.len() == 1024,
        k < 1024,
        m <= 64,
    ensures
        below(members(words), 64 * k + m).len() == popcount_words(words, k) + popcount_below(
            words[k as int],
            m,
        ),
    decreases k, m,
{
    let s = members(words);
    if m == 0 {
        if k == 0 {
            assert(below(s, 0) =~= Set::<u16>::empty());
        } else {
            lemma_count_prefix(words, (k - 1) as nat, 64);
        }
    } else {
        let n = (64 * k + m - 1) as nat;
        lemma_count_prefix(words, k, (m - 1) as nat);
        lemma_below_step(s, n);
        lemma_below_finite(s, n);
        assert((n as u16) / 64 == k && (n as u16) % 64 == m - 1);
        assert(s.contains(n as u16) == bit_is_set(words[k as int], (m - 1) as u64));
    }
}

/// The members of a store are as many as its set bits.
pub proof fn lemma_cardinality(words: Seq<u64>)
    requires
        words.len() == 1024,
    ensures
        members(words).finite(),
        members(words).len() == popcount_words(words, 1024),
{
    lemma_count_prefix(words, 1023, 64);
    lemma_finite(members(words));
}

/// A store of zero words has no members.
pub proof fn lemma_members_of_zeros(words: Seq<u64>)
    requires
        words.len() == 1024,
        forall|k: int| 0 <= k < 1024 ==> words[k] == 0,
    ensures
        members(words) == Set::<u16>::empty(),
{
    assert forall|v: u16| !members(words).contains(v) by {
        lemma_bit_of_extremes((v % 64) as u64);
    }
    assert(members(words) =~= Set::<u16>::empty());
}

/// A store of all-one words holds every value of the universe.
pub proof fn lemma_members_of_ones(words: Seq<u64>)
    requires
        words.len() == 1024,
        forall|k: int| 0 <= k < 1024 ==> words[k] == u64::MAX,
    ensures
        members(words) == Set::<u16>::full(),
        members(words).len() == 65536,
{
    assert forall|v: u16| members(words).contains(v) by {
        lemma_bit_of_extremes((v % 64) as u64);
    }
    assert(members(words) =~= Set::<u16>::full());
    lemma_popcount_words_of_ones(words, 1024);
    lemma_cardinality(words);
}

/// Each all-one word adds 64 to the count.
proof fn lemma_popcount_words_of_ones(words: Seq<u64>, k: nat)
    requires
        words.len() == 1024,
        k <= 1024,
        forall|k: int| 0 <= k < 1024 ==> words[k] == u64::MAX,
    ensures
        popcount_words(words, k) == 64 * k,
    decreases k,
{
    if k > 0 {
        lemma_popcount_words_of_ones(words, (k - 1) as nat);
        lemma_popcount_below_full(64);
    }
}

/// Setting the bit of `value` in its word adds `value` to the members.
pub proof fn lemma_members_after_set(words: Seq<u64>, value: u16)
    requires
        words.len() == 1024,
    ensures
        members(
            words.update(
                (value / 64) as int,
                words[(value / 64) as int] | (1u64 << ((value % 64) as u64)),
            ),
        ) == members(words).insert(value),
{
    let key = (value / 64) as int;
    let bit = (value % 64) as u64;
    let after = words.update(key, words[key] | (1u64 << bit));
    assert forall|v: u16| members(after).contains(v) == members(words).insert(value).contains(
        v,
    ) by {
        if (v / 64) as int == key {
            lemma_bit_of_or_mask(words[key], bit, (v % 64) as u64);
        }
    }
    assert(members(after) =~= members(words).insert(value));
}

/// Clearing the bit of `value` in its word takes `value` out of the members.
pub proof fn lemma_members_after_clear(words: Seq<u64>, value: u16)
    requires
        words.len() == 1024,
    ensures
        members(
            words.update(
                (value / 64) as int,
                words[(value / 64) as int] & !(1u64 << ((value % 64) as u64)),
            ),
        ) == members(words).remove(value),
{
    let key = (value / 64) as int;
    let bit = (value % 64) as u64;
    let after = words.update(key, words[key] & !(1u64 << bit));
    assert forall|v: u16| members(after).contains(v) == members(words).remove(value).contains(
        v,
    ) by {
        if (v / 64) as int == key {
            lemma_bit_of_and_not_mask(words[key], bit, (v % 64) as u64);
        }
    }
    assert(members(after) =~= members(words).remove(value));
}

/// The word-by-word AND of two stores holds the members common to both.
pub proof fn lemma_members_of_and(left: Seq<u64>, right: Seq<u64>, result: Seq<u64>)
    requires
        left.len() == 1024,
        right.len() == 1024,
        result.len() == 1024,
        forall|k: int| 0 <= k < 1024 ==> result[k] == left[k] & right[k],
    ensures
        members(result) == members(left).intersect(members(right)),
{
    assert forall|v: u16|
        members(result).contains(v) == members(left).intersect(members(right)).contains(v) by {
        lemma_bit_of_and(left[(v / 64) as int], right[(v / 64) as int], (v % 64) as u64);
    }
    assert(members(result) =~= members(left).intersect(members(right)));
}

/// The word-by-word OR of two stores holds the members of either.
pub proof fn lemma_members_of_or(left: Seq<u64>, right: Seq<u64>, result: Seq<u64>)
    requires
        left.len() == 1024,
        right.len() == 1024,
        result.len() == 1024,
        forall|k: int| 0 <= k < 1024 ==> result[k] == left[k] | right[k],
    ensures
        members(result) == members(left).union(members(right)),
{
    assert forall|v: u16|
        members(result).contains(v) == members(left).union(members(right)).contains(v) by {
        lemma_bit_of_or(left[(v / 64) as int], right[(v / 64) as int], (v % 64) as u64);
    }
    assert(members(result) =~= members(left).union(members(right)));
}

/// The word-by-word AND of two stores.
pub open spec fn and_words(left: Seq<u64>, right: Seq<u64>) -> Seq<u64> {
    Seq::new(1024, |k: int| left[k] & right[k])
}

/// The word-by-word OR of two stores.
pub open spec fn or_words(left: Seq<u64>, right: Seq<u64>) -> Seq<u64> {
    Seq::new(1024, |k: int| left[k] | right[k])
}

/// The count over the first `k` words looks at those words only.
pub proof fn lemma_popcount_words_agree(a: Seq<u64>, b: Seq<u64>, k: nat)
    requires
        forall|j: int| 0 <= j < k ==> a[j] == b[j],
    ensures
        popcount_words(a, k) == popcount_words(b, k),
    decreases k,
{
    if k > 0 {
        lemma_popcount_words_agree(a, b, (k - 1) as nat);
    }
}

/// The set that is left when each of `values` has been added to `start`.
pub open spec fn insert_each(start: Set<u16>, values: Seq<u16>) -> Set<u16>
    decreases values.len(),
{
    if values.len() == 0 {
        start
    } else {
        insert_each(start, values.drop_last()).insert(values.last())
    }
}

/// Adding values one by one gives the set that holds them all.
pub proof fn lemma_insert_each(start: Set<u16>, values: Seq<u16>)
    ensures
        insert_each(start, values) == start.union(values.to_set()),
    decreases values.len(),
{
    if values.len() == 0 {
        assert(values.to_set() =~= Set::<u16>::empty());
        assert(start.union(values.to_set()) =~= start);
    } else {
        lemma_insert_each(start, values.drop_last());
        values.drop_last().lemma_push_to_set_commute(values.last());
        assert(values.drop_last().push(values.last()) =~= values);
        assert(start.union(values.drop_last().to_set()).insert(values.last()) =~= start.union(
            values.to_set(),
        ));
    }
}

/// Stores with the same members are the same store.
pub proof fn lemma_members_determine_words(a: Seq<u64>, b: Seq<u64>)
    requires
        a.len() == 1024,
        b.len() == 1024,
        members(a) == members(b),
    ensures
        a == b,
{
    assert forall|k: int| 0 <= k < 1024 implies a[k] == b[k] by {
        assert forall|c: u64| c < 64 implies bit_is_set(a[k], c) == bit_is_set(b[k], c) by {
            let v = (64 * k + c) as u16;
            assert(v / 64 == k && v % 64 == c);
            assert(members(a).contains(v) == store_bit(a, v));
            assert(members(b).contains(v) == store_bit(b, v));
        }
        lemma_word_equal(a[k], b[k]);
    }
    assert(a =~= b);
}

} // verus!
