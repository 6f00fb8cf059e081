//! Occupancy tables: how many entries are taken, and which free entry a
//! first-fit scan finds.

use vstd::prelude::*;

verus! {

/// Number of `true` entries of `s`.
pub open spec fn count_set(s: Seq<bool>) -> nat
    decreases s.len(),
{
    if s.len() == 0 {
        0
    } else {
        count_set(s.drop_last()) + if s.last() {
            1nat
        } else {
            0nat
        }
    }
}

/// `i` is the lowest free entry of `s`: every entry below it is taken.
pub open spec fn first_free(s: Seq<bool>, i: int) -> bool {
    &&& 0 <= i < s.len()
    &&& !s[i]
    &&& forall|j: int| 0 <= j < i ==> s[j]
}

/// Every entry of `s` is taken.
pub open spec fn all_taken(s: Seq<bool>) -> bool {
    forall|i: int| 0 <= i < s.len() ==> s[i]
}

/// First-fit reuse: when every entry below `i` is taken and `i` is released,
/// the next first-fit claim finds `i` again.
pub proof fn lemma_released_entry_is_reused(s: Seq<bool>, i: int, j: int)
    requires
        0 <= i < s.len(),
        forall|k: int| 0 <= k < i ==> s[k],
        first_free(s.update(i, false), j),
    ensures
        j == i,
{
    if j < i {
        assert(s.update(i, false)[j] == s[j]);
    } else if j > i {
        assert(!s.update(i, false)[i]);
    }
}

/// A table with no entry set counts zero.
pub proof fn lemma_count_set_zero(s: Seq<bool>)
    requires
        forall|i: int| 0 <= i < s.len() ==> !s[i],
    ensures
        count_set(s) == 0,
    decreases s.len(),
{
    if s.len() > 0 {
        lemma_count_set_zero(s.drop_last());
    }
}

/// At most every entry is set.
pub proof fn lemma_count_set_bound(s: Seq<bool>)
    ensures
        count_set(s) <= s.len(),
    decreases s.len(),
{
    if s.len() > 0 {
        lemma_count_set_bound(s.drop_last());
    }
}

/// A table that counts its full length has every entry set.
pub proof fn lemma_count_set_full_inv(s: Seq<bool>, i: int)
    requires
        count_set(s) == s.len(),
        0 <= i < s.len(),
    ensures
        s[i],
    decreases s.len(),
{
    lemma_count_set_bound(s.drop_last());
    if i < s.len() - 1 {
        lemma_count_set_full_inv(s.drop_last(), i);
    }
}

/// Setting a clear entry adds one; clearing a set entry takes one away.
pub proof fn lemma_count_set_update(s: Seq<bool>, i: int, v: bool)
    requires
        0 <= i < s.len(),
    ensures
        count_set(s.update(i, v)) == count_set(s) - (if s[i] {
            1int
        } else {
            0int
        }) + (if v {
            1int
        } else {
            0int
        }),
    decreases s.len(),
{
    let t = s.update(i, v);
    if i == s.len() - 1 {
        assert(t.drop_last() =~= s.drop_last());
    } else {
        assert(t.drop_last() =~= s.drop_last().update(i, v));
        lemma_count_set_update(s.drop_last(), i, v);
    }
}

} // verus!
