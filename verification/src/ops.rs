//! Equality, the default value and the operators `&` and `|`.

use vstd::prelude::*;
use vstd::std_specs::cmp::PartialEqSpecImpl;
use vstd::std_specs::ops::{BitAndSpecImpl, BitOrSpecImpl};
use crate::bitmap::Bitmap;
use crate::model::BITMAP_SIZE;

verus! {

/// Whether two stores hold the same words.
fn same_words(left: &[u64; BITMAP_SIZE], right: &[u64; BITMAP_SIZE]) -> (same: bool)
    ensures
        same == (left@ == right@),
{
    for index in 0..BITMAP_SIZE
        invariant
            forall|k: int| 0 <= k < index ==> left@[k] == right@[k],
    {
        if left[index] != right[index] {
            return false;
        }
    }
    assert(left@ =~= right@);
    true
}

impl PartialEq for Bitmap {
    /// Two bitmaps are equal when their cardinalities and their stores are.
    fn eq(&self, other: &Self) -> (equal: bool) {
        self.len() == other.len() && same_words(self.internal_store(), other.internal_store())
    }
}

impl PartialEqSpecImpl for Bitmap {
    open spec fn obeys_eq_spec() -> bool {
        true
    }

    open spec fn eq_spec(&self, other: &Self) -> bool {
        self.spec_len() == other.spec_len() && self.words() == other.words()
    }
}

impl Default for Bitmap {
    /// The empty set.
    #[inline]
    fn default() -> (bitmap: Self)
        ensures
            bitmap@ == Set::<u16>::empty(),
            bitmap.spec_len() == 0,
            bitmap.words() == Seq::new(1024, |k: int| 0u64),
    {
        Self::new()
    }
}

impl core::ops::BitOr<&Bitmap> for Bitmap {
    type Output = Bitmap;

    /// The union, made in the storage of the left operand.
    fn bitor(self, rhs: &Self) -> (out: Bitmap)
        ensures
            out.is_union_of(&self, rhs),
    {
        let mut out = self;
        out.union(rhs);
        proof {
            let chosen = choose|other: Bitmap| other.is_union_of(&self, rhs);
            out.lemma_equal(chosen);
        }
        out
    }
}

impl BitOrSpecImpl<&Bitmap> for Bitmap {
    open spec fn obeys_bitor_spec() -> bool {
        true
    }

    open spec fn bitor_req(self, rhs: &Bitmap) -> bool {
        true
    }

    open spec fn bitor_spec(self, rhs: &Bitmap) -> Bitmap {
        choose|out: Bitmap| out.is_union_of(&self, rhs)
    }
}

impl core::ops::BitOr for Bitmap {
    type Output = Bitmap;

    /// The union, made in the storage of the left operand.
    fn bitor(self, rhs: Self) -> (out: Bitmap)
        ensures
            out.is_union_of(&self, &rhs),
    {
        let mut out = self;
        out.union(&rhs);
        proof {
            let chosen = choose|other: Bitmap| other.is_union_of(&self, &rhs);
            out.lemma_equal(chosen);
        }
        out
    }
}

impl BitOrSpecImpl for Bitmap {
    open spec fn obeys_bitor_spec() -> bool {
        true
    }

    open spec fn bitor_req(self, rhs: Bitmap) -> bool {
        true
    }

    open spec fn bitor_spec(self, rhs: Bitmap) -> Bitmap {
        choose|out: Bitmap| out.is_union_of(&self, &rhs)
    }
}

impl core::ops::BitAnd<&Bitmap> for Bitmap {
    type Output = Bitmap;

    /// The intersection, made in the storage of the left operand.
    fn bitand(self, rhs: &Self) -> (out: Bitmap)
        ensures
            out.is_intersection_of(&self, rhs),
    {
        let mut out = self;
        out.intersection(rhs);
        proof {
            let chosen = choose|other: Bitmap| other.is_intersection_of(&self, rhs);
            out.lemma_equal(chosen);
        }
        out
    }
}

impl BitAndSpecImpl<&Bitmap> for Bitmap {
    open spec fn obeys_bitand_spec() -> bool {
        true
    }

    open spec fn bitand_req(self, rhs: &Bitmap) -> bool {
        true
    }

    open spec fn bitand_spec(self, rhs: &Bitmap) -> Bitmap {
        choose|out: Bitmap| out.is_intersection_of(&self, rhs)
    }
}

impl core::ops::BitAnd for Bitmap {
    type Output = Bitmap;

    /// The intersection, made in the storage of the left operand.
    fn bitand(self, rhs: Self) -> (out: Bitmap)
        ensures
            out.is_intersection_of(&self, &rhs),
    {
        let mut out = self;
        out.intersection(&rhs);
        proof {
            let chosen = choose|other: Bitmap| other.is_intersection_of(&self, &rhs);
            out.lemma_equal(chosen);
        }
        out
    }
}

impl BitAndSpecImpl for Bitmap {
    open spec fn obeys_bitand_spec() -> bool {
        true
    }

    open spec fn bitand_req(self, rhs: Bitmap) -> bool {
        true
    }

    open spec fn bitand_spec(self, rhs: Bitmap) -> Bitmap {
        choose|out: Bitmap| out.is_intersection_of(&self, &rhs)
    }
}

} // verus!
