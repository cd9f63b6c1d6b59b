//! Prefix sums over sequences of `u64`, used to state that a ledger's running
//! total equals the sum of its per-participant records.

use vstd::prelude::*;

verus! {

/// Sum of the first `n` elements of `s`, as a mathematical integer.
pub open spec fn sum_prefix(s: Seq<u64>, n: int) -> int
    decreases n,
{
    if n <= 0 {
        0
    } else {
        sum_prefix(s, n - 1) + s[n - 1]
    }
}

/// Sum of all elements of `s`.
pub open spec fn sum_all(s: Seq<u64>) -> int {
    sum_prefix(s, s.len() as int)
}

/// A prefix sum is never negative.
pub proof fn lemma_sum_prefix_nonneg(s: Seq<u64>, n: int)
    requires
        n <= s.len(),
    ensures
        sum_prefix(s, n) >= 0,
    decreases n,
{
    if n > 0 {
        lemma_sum_prefix_nonneg(s, n - 1);
    }
}

/// A shorter prefix never sums to more than a longer one.
pub proof fn lemma_sum_prefix_monotonic(s: Seq<u64>, m: int, n: int)
    requires
        0 <= m <= n <= s.len(),
    ensures
        sum_prefix(s, m) <= sum_prefix(s, n),
    decreases n,
{
    if m < n {
        lemma_sum_prefix_monotonic(s, m, n - 1);
    }
}

/// Each element within a prefix is bounded by that prefix's sum.
pub proof fn lemma_sum_prefix_elem_le(s: Seq<u64>, i: int, n: int)
    requires
        0 <= i < n <= s.len(),
    ensures
        s[i] <= sum_prefix(s, n),
    decreases n,
{
    if i == n - 1 {
        lemma_sum_prefix_nonneg(s, n - 1);
    } else {
        lemma_sum_prefix_elem_le(s, i, n - 1);
    }
}

/// A prefix sum reads only the elements it covers.
pub proof fn lemma_sum_prefix_congruent(s: Seq<u64>, t: Seq<u64>, n: int)
    requires
        n <= s.len(),
        n <= t.len(),
        forall|j: int| 0 <= j < n ==> s[j] == t[j],
    ensures
        sum_prefix(s, n) == sum_prefix(t, n),
    decreases n,
{
    if n > 0 {
        lemma_sum_prefix_congruent(s, t, n - 1);
    }
}

/// Appending an element grows the total by that element.
pub proof fn lemma_sum_push(s: Seq<u64>, v: u64)
    ensures
        sum_all(s.push(v)) == sum_all(s) + v,
{
    lemma_sum_prefix_congruent(s.push(v), s, s.len() as int);
}

/// Replacing the element at `i` shifts a covering prefix sum by the difference.
pub proof fn lemma_sum_prefix_update(s: Seq<u64>, i: int, v: u64, n: int)
    requires
        0 <= i < n <= s.len(),
    ensures
        sum_prefix(s.update(i, v), n) == sum_prefix(s, n) - s[i] + v,
    decreases n,
{
    if i == n - 1 {
        lemma_sum_prefix_congruent(s.update(i, v), s, n - 1);
    } else {
        lemma_sum_prefix_update(s, i, v, n - 1);
    }
}

/// Replacing the element at `i` shifts the total by the difference.
pub proof fn lemma_sum_update(s: Seq<u64>, i: int, v: u64)
    requires
        0 <= i < s.len(),
    ensures
        sum_all(s.update(i, v)) == sum_all(s) - s[i] + v,
{
    lemma_sum_prefix_update(s, i, v, s.len() as int);
}

/// Each element is bounded by the total.
pub proof fn lemma_sum_elem_le(s: Seq<u64>, i: int)
    requires
        0 <= i < s.len(),
    ensures
        s[i] <= sum_all(s),
{
    lemma_sum_prefix_elem_le(s, i, s.len() as int);
}

} // verus!
