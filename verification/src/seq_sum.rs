//! Sums of integer sequences, used by the moving average.

use vstd::prelude::*;

verus! {

/// Sum of the elements of `s`.
pub open spec fn seq_sum(s: Seq<int>) -> int
    decreases s.len(),
{
    if s.len() == 0 {
        0
    } else {
        seq_sum(s.drop_last()) + s.last()
    }
}

/// `sum(a + b) == sum(a) + sum(b)`.
pub proof fn lemma_sum_append(a: Seq<int>, b: Seq<int>)
    ensures
        seq_sum(a + b) == seq_sum(a) + seq_sum(b),
    decreases b.len(),
{
    if b.len() == 0 {
        assert(a + b =~= a);
    } else {
        lemma_sum_append(a, b.drop_last());
        assert((a + b).drop_last() =~= a + b.drop_last());
        assert((a + b).last() == b.last());
    }
}

/// Replacing one element changes the sum by the difference.
pub proof fn lemma_sum_update(s: Seq<int>, i: int, v: int)
    requires
        0 <= i < s.len(),
    ensures
        seq_sum(s.update(i, v)) == seq_sum(s) - s[i] + v,
{
    let pre = s.take(i);
    let post = s.skip(i + 1);
    assert(s =~= pre + seq![s[i]] + post);
    assert(s.update(i, v) =~= pre + seq![v] + post);
    lemma_sum_append(pre + seq![s[i]], post);
    lemma_sum_append(pre, seq![s[i]]);
    lemma_sum_append(pre + seq![v], post);
    lemma_sum_append(pre, seq![v]);
    lemma_sum_single(v);
    lemma_sum_single(s[i]);
}

/// A one-element sequence sums to its element.
pub proof fn lemma_sum_single(v: int)
    ensures
        seq_sum(seq![v]) == v,
{
    assert(seq![v].drop_last() =~= Seq::<int>::empty());
    reveal_with_fuel(seq_sum, 2);
}

/// A sequence of zeros sums to zero.
pub proof fn lemma_sum_zeros(s: Seq<int>)
    requires
        forall|i: int| 0 <= i < s.len() ==> s[i] == 0,
    ensures
        seq_sum(s) == 0,
    decreases s.len(),
{
    if s.len() > 0 {
        lemma_sum_zeros(s.drop_last());
    }
}

/// Elements within `[lo, hi]` bound the sum by `len * lo` and `len * hi`.
pub proof fn lemma_sum_bounds(s: Seq<int>, lo: int, hi: int)
    requires
        forall|i: int| 0 <= i < s.len() ==> lo <= #[trigger] s[i] <= hi,
    ensures
        s.len() * lo <= seq_sum(s) <= s.len() * hi,
    decreases s.len(),
{
    if s.len() > 0 {
        lemma_sum_bounds(s.drop_last(), lo, hi);
        let n = s.len() as int;
        assert((n - 1) * lo + lo == n * lo && (n - 1) * hi + hi == n * hi) by (nonlinear_arith);
    }
}

} // verus!
