//! Sums of integer sequences, used to tie pull counts to step counts and
//! win counts to trial counts.

use vstd::prelude::*;

verus! {

/// The sum of all elements of `s`.
pub open spec fn int_sum(s: Seq<int>) -> int
    decreases s.len(),
{
    if s.len() == 0 {
        0
    } else {
        int_sum(s.drop_last()) + s.last()
    }
}

/// A sequence of zeros sums to zero.
pub proof fn lemma_int_sum_zero(s: Seq<int>)
    requires
        forall|i: int| 0 <= i < s.len() ==> s[i] == 0,
    ensures
        int_sum(s) == 0,
    decreases s.len(),
{
    if s.len() > 0 {
        lemma_int_sum_zero(s.drop_last());
    }
}

/// Replacing one element changes the sum by the difference.
pub proof fn lemma_int_sum_update(s: Seq<int>, i: int, v: int)
    requires
        0 <= i < s.len(),
    ensures
        int_sum(s.update(i, v)) == int_sum(s) - s[i] + v,
    decreases s.len(),
{
    if i == s.len() - 1 {
        assert(s.update(i, v).drop_last() =~= s.drop_last());
    } else {
        assert(s.update(i, v).drop_last() =~= s.drop_last().update(i, v));
        assert(s.update(i, v).last() == s.last());
        lemma_int_sum_update(s.drop_last(), i, v);
    }
}

/// In a sequence of non-negative elements, each element is at most the sum.
pub proof fn lemma_int_sum_bounds_element(s: Seq<int>, i: int)
    requires
        0 <= i < s.len(),
        forall|j: int| 0 <= j < s.len() ==> 0 <= s[j],
    ensures
        s[i] <= int_sum(s),
    decreases s.len(),
{
    if i == s.len() - 1 {
        lemma_int_sum_nonneg(s.drop_last());
    } else {
        lemma_int_sum_bounds_element(s.drop_last(), i);
    }
}

/// A sequence of non-negative elements has a non-negative sum.
pub proof fn lemma_int_sum_nonneg(s: Seq<int>)
    requires
        forall|j: int| 0 <= j < s.len() ==> 0 <= s[j],
    ensures
        0 <= int_sum(s),
    decreases s.len(),
{
    if s.len() > 0 {
        lemma_int_sum_nonneg(s.drop_last());
    }
}

/// A sequence whose elements are all at least one sums to at least its
/// length.
pub proof fn lemma_int_sum_at_least_len(s: Seq<int>)
    requires
        forall|j: int| 0 <= j < s.len() ==> 1 <= s[j],
    ensures
        s.len() <= int_sum(s),
    decreases s.len(),
{
    if s.len() > 0 {
        lemma_int_sum_at_least_len(s.drop_last());
    }
}

} // verus!
