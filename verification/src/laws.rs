//! What holds of the operations taken together, proved from what each of
//! them ensures.

use vstd::prelude::*;
use crate::bitmap::Bitmap;
use crate::model::{
    ascending, insert_each, lemma_cardinality, lemma_decoding, lemma_insert_each, popcount_words,
    strictly_ascending,
};

verus! {

/// The kept cardinality is the number of set bits in the store.
pub proof fn law_cardinality_is_popcount(bitmap: Bitmap)
    requires
        bitmap.wf(),
    ensures
        bitmap.spec_len() == popcount_words(bitmap.words(), 1024),
{
    bitmap.lemma_wf();
    lemma_cardinality(bitmap.words());
}

/// Bitmaps that keep their invariant have the same store and the same
/// cardinality exactly when they have the same members.
pub proof fn law_equal_when_same_members(a: Bitmap, b: Bitmap)
    requires
        a.wf(),
        b.wf(),
    ensures
        (a.spec_len() == b.spec_len() && a.words() == b.words()) <==> a@ == b@,
        a == b <==> a@ == b@,
{
    if a@ == b@ {
        a.lemma_same_members(b);
    }
}

/// Adding a value that is no member yet reports it as new, makes it a
/// member and raises the cardinality by one; adding it once more reports it
/// as present and changes nothing. Taking it out then reports it as present,
/// leaves it no member and lowers the cardinality by one; taking it out once
/// more reports it as absent and changes nothing. The bitmap is then back
/// where it started.
pub proof fn law_insert_remove_round_trip(
    start: Bitmap,
    once: Bitmap,
    twice: Bitmap,
    gone: Bitmap,
    still_gone: Bitmap,
    value: u16,
    first: bool,
    second: bool,
    third: bool,
    fourth: bool,
)
    requires
        !start@.contains(value),
        once.is_insertion_into(&start, value, first),
        twice.is_insertion_into(&once, value, second),
        gone.is_removal_from(&twice, value, third),
        still_gone.is_removal_from(&gone, value, fourth),
    ensures
        !first,
        once@.contains(value),
        once.spec_len() == start.spec_len() + 1,
        second,
        twice@ == once@,
        twice.spec_len() == once.spec_len(),
        third,
        !gone@.contains(value),
        gone.spec_len() == twice.spec_len() - 1,
        !fourth,
        still_gone@ == gone@,
        still_gone.spec_len() == gone.spec_len(),
        gone@ == start@,
        gone.spec_len() == start.spec_len(),
{
    assert(twice@ =~= once@);
    assert(gone@ =~= start@);
    assert(still_gone@ =~= gone@);
}

/// One more single insertion carries a run of them one value further.
pub proof fn law_insertion_extends_run(
    before: Bitmap,
    after: Bitmap,
    values: Seq<u16>,
    value: u16,
    present: bool,
)
    requires
        before@ == insert_each(Set::empty(), values),
        after.is_insertion_into(&before, value, present),
    ensures
        after@ == insert_each(Set::empty(), values.push(value)),
{
    assert(values.push(value).drop_last() =~= values);
}

/// Building a bitmap from a sequence at once and adding the values of the
/// sequence one by one to an empty bitmap give the same bitmap: the same
/// cardinality and the same store.
pub proof fn law_construction_equivalence(bulk: Bitmap, stepwise: Bitmap, values: Seq<u16>)
    requires
        bulk.wf(),
        stepwise.wf(),
        bulk@ == values.to_set(),
        stepwise@ == insert_each(Set::empty(), values),
    ensures
        bulk == stepwise,
        bulk.spec_len() == stepwise.spec_len(),
        bulk.words() == stepwise.words(),
{
    lemma_insert_each(Set::empty(), values);
    assert(Set::<u16>::empty().union(values.to_set()) =~= values.to_set());
    bulk.lemma_same_members(stepwise);
}

/// The decoded intersection is the sorted list of the values that both
/// decoded operands hold.
pub proof fn law_intersection_decodes(left: Bitmap, right: Bitmap, both: Bitmap)
    requires
        both.is_intersection_of(&left, &right),
    ensures
        strictly_ascending(ascending(both@, 65536)),
        forall|v: u16|
            ascending(both@, 65536).contains(v) == (ascending(left@, 65536).contains(v)
                && ascending(right@, 65536).contains(v)),
{
    lemma_decoding(left@);
    lemma_decoding(right@);
    lemma_decoding(both@);
    assert forall|v: u16|
        ascending(both@, 65536).contains(v) == (ascending(left@, 65536).contains(v) && ascending(
            right@,
            65536,
        ).contains(v)) by {
        assert(both@.contains(v) == (left@.contains(v) && right@.contains(v)));
    }
}

/// The decoded union is the sorted list of the values that either decoded
/// operand holds.
pub proof fn law_union_decodes(left: Bitmap, right: Bitmap, either: Bitmap)
    requires
        either.is_union_of(&left, &right),
    ensures
        strictly_ascending(ascending(either@, 65536)),
        forall|v: u16|
            ascending(either@, 65536).contains(v) == (ascending(left@, 65536).contains(v)
                || ascending(right@, 65536).contains(v)),
{
    lemma_decoding(left@);
    lemma_decoding(right@);
    lemma_decoding(either@);
    assert forall|v: u16|
        ascending(either@, 65536).contains(v) == (ascending(left@, 65536).contains(v) || ascending(
            right@,
            65536,
        ).contains(v)) by {
        assert(either@.contains(v) == (left@.contains(v) || right@.contains(v)));
    }
}

/// Intersecting word by word and intersecting lane by lane leave the same
/// bitmap: the same store, bit for bit, and the same cardinality.
pub proof fn law_scalar_and_lanes_agree(left: Bitmap, right: Bitmap, scalar: Bitmap, lanes: Bitmap)
    requires
        scalar.is_intersection_of(&left, &right),
        lanes.is_intersection_of(&left, &right),
    ensures
        scalar.words() == lanes.words(),
        scalar.spec_len() == lanes.spec_len(),
        scalar == lanes,
{
    scalar.lemma_equal(lanes);
}

} // verus!
