//! Sums of integer sequences.

use vstd::prelude::*;

verus! {

/// The sum of the elements of `s`.
pub open spec fn sum(s: Seq<int>) -> int
    decreases s.len(),
{
    if s.len() == 0 {
        0
    } else {
        sum(s.drop_last()) + s.last()
    }
}

/// Taking one more element adds that element to the sum.
pub proof fn lemma_sum_take_step(s: Seq<int>, i: int)
    requires
        0 <= i < s.len(),
    ensures
        sum(s.take(i + 1)) == sum(s.take(i)) + s[i],
{
    assert(s.take(i + 1).drop_last() =~= s.take(i));
}

/// The sum of the empty prefix is zero, and the full prefix is the
/// sequence itself.
pub proof fn lemma_sum_take_ends(s: Seq<int>)
    ensures
        sum(s.take(0)) == 0,
        s.take(s.len() as int) == s,
{
    assert(s.take(s.len() as int) =~= s);
}

/// A sum lies between the length times a lower bound of the elements and
/// the length times an upper bound.
pub proof fn lemma_sum_bounds(s: Seq<int>, lo: int, hi: int)
    requires
        forall|i: int| 0 <= i < s.len() ==> lo <= #[trigger] s[i] <= hi,
    ensures
        s.len() * lo <= sum(s) <= s.len() * hi,
    decreases s.len(),
{
    if s.len() > 0 {
        lemma_sum_bounds(s.drop_last(), lo, hi);
        assert((s.len() - 1) * lo + lo == s.len() * lo) by (nonlinear_arith);
        assert((s.len() - 1) * hi + hi == s.len() * hi) by (nonlinear_arith);
    }
}

/// The prefix sums of a sequence of non-negative numbers do not decrease.
pub proof fn lemma_sum_take_monotone(s: Seq<int>, i: int, j: int)
    requires
        forall|k: int| 0 <= k < s.len() ==> 0 <= #[trigger] s[k],
        0 <= i <= j <= s.len(),
    ensures
        0 <= sum(s.take(i)) <= sum(s.take(j)),
    decreases j - i,
{
    if i < j {
        lemma_sum_take_monotone(s, i, j - 1);
        lemma_sum_take_step(s, j - 1);
    } else {
        lemma_sum_nonneg(s.take(i));
    }
}

/// A sum of non-negative numbers is non-negative.
pub proof fn lemma_sum_nonneg(s: Seq<int>)
    requires
        forall|k: int| 0 <= k < s.len() ==> 0 <= #[trigger] s[k],
    ensures
        0 <= sum(s),
    decreases s.len(),
{
    if s.len() > 0 {
        lemma_sum_nonneg(s.drop_last());
    }
}

/// No element of a sequence of non-negative numbers exceeds the sum.
pub proof fn lemma_element_le_sum(s: Seq<int>, i: int)
    requires
        forall|k: int| 0 <= k < s.len() ==> 0 <= #[trigger] s[k],
        0 <= i < s.len(),
    ensures
        s[i] <= sum(s),
{
    lemma_sum_take_monotone(s, 0, i);
    lemma_sum_take_step(s, i);
    lemma_sum_take_monotone(s, i + 1, s.len() as int);
    lemma_sum_take_ends(s);
}

/// The sum of two sequences, element by element, is the sum of their
/// sums.
pub proof fn lemma_sum_of_sums(a: Seq<int>, b: Seq<int>, c: Seq<int>)
    requires
        a.len() == b.len(),
        a.len() == c.len(),
        forall|i: int| 0 <= i < a.len() ==> c[i] == a[i] + b[i],
    ensures
        sum(c) == sum(a) + sum(b),
    decreases a.len(),
{
    if a.len() > 0 {
        lemma_sum_of_sums(a.drop_last(), b.drop_last(), c.drop_last());
    }
}

} // verus!
