//! Sums of a function over the members of a set of integers that lie in a
//! range, and what holds of such sums.

use vstd::prelude::*;

verus! {

/// The sum of `f(x)` over the members `x` of `s` with `lo <= x < hi`.
pub open spec fn sum_over(s: Set<int>, f: spec_fn(int) -> int, lo: int, hi: int) -> int
    decreases hi - lo,
{
    if hi <= lo {
        0
    } else {
        sum_over(s, f, lo, hi - 1) + if s.contains(hi - 1) {
            f(hi - 1)
        } else {
            0
        }
    }
}

/// The sum depends only on which integers of the range are members and on what
/// `f` is on those.
pub proof fn lemma_sum_over_same(
    s1: Set<int>,
    f1: spec_fn(int) -> int,
    s2: Set<int>,
    f2: spec_fn(int) -> int,
    lo: int,
    hi: int,
)
    requires
        forall|x: int| lo <= x < hi ==> s1.contains(x) == s2.contains(x),
        forall|x: int| lo <= x < hi && s1.contains(x) ==> f1(x) == f2(x),
    ensures
        sum_over(s1, f1, lo, hi) == sum_over(s2, f2, lo, hi),
    decreases hi - lo,
{
    if hi > lo {
        lemma_sum_over_same(s1, f1, s2, f2, lo, hi - 1);
    }
}

/// A new member of the range adds its own term to the sum.
pub proof fn lemma_sum_over_insert(s: Set<int>, f: spec_fn(int) -> int, lo: int, hi: int, k: int)
    requires
        lo <= k < hi,
        !s.contains(k),
    ensures
        sum_over(s.insert(k), f, lo, hi) == sum_over(s, f, lo, hi) + f(k),
    decreases hi - lo,
{
    if hi - 1 == k {
        lemma_sum_over_same(s.insert(k), f, s, f, lo, hi - 1);
    } else {
        lemma_sum_over_insert(s, f, lo, hi - 1, k);
    }
}

/// The sum over no members is zero.
pub proof fn lemma_sum_over_none(s: Set<int>, f: spec_fn(int) -> int, lo: int, hi: int)
    requires
        forall|x: int| lo <= x < hi ==> !s.contains(x),
    ensures
        sum_over(s, f, lo, hi) == 0,
    decreases hi - lo,
{
    if hi > lo {
        lemma_sum_over_none(s, f, lo, hi - 1);
    }
}

/// Where no term is negative, a sum over fewer members is no larger, and no
/// sum is negative.
pub proof fn lemma_sum_over_subset(
    s: Set<int>,
    t: Set<int>,
    f: spec_fn(int) -> int,
    lo: int,
    hi: int,
)
    requires
        forall|x: int| lo <= x < hi && s.contains(x) ==> t.contains(x),
        forall|x: int| lo <= x < hi && t.contains(x) ==> f(x) >= 0,
    ensures
        0 <= sum_over(s, f, lo, hi) <= sum_over(t, f, lo, hi),
    decreases hi - lo,
{
    if hi > lo {
        lemma_sum_over_subset(s, t, f, lo, hi - 1);
    }
}

/// A sum over a range is the sum over its lower part and the sum over its
/// upper part.
pub proof fn lemma_sum_over_split(s: Set<int>, f: spec_fn(int) -> int, lo: int, mid: int, hi: int)
    requires
        lo <= mid <= hi,
    ensures
        sum_over(s, f, lo, hi) == sum_over(s, f, lo, mid) + sum_over(s, f, mid, hi),
    decreases hi - mid,
{
    if hi > mid {
        lemma_sum_over_split(s, f, lo, mid, hi - 1);
    }
}

/// The sum of a function that is the sum of two others is the sum of their
/// sums.
pub proof fn lemma_sum_over_add(
    s: Set<int>,
    f: spec_fn(int) -> int,
    g: spec_fn(int) -> int,
    h: spec_fn(int) -> int,
    lo: int,
    hi: int,
)
    requires
        forall|x: int| lo <= x < hi && s.contains(x) ==> h(x) == f(x) + g(x),
    ensures
        sum_over(s, h, lo, hi) == sum_over(s, f, lo, hi) + sum_over(s, g, lo, hi),
    decreases hi - lo,
{
    if hi > lo {
        lemma_sum_over_add(s, f, g, h, lo, hi - 1);
    }
}

/// The sum of a function that is zero on every member but `k` is its value at
/// `k`, if `k` is a member in the range, and zero if not.
pub proof fn lemma_sum_over_point(s: Set<int>, f: spec_fn(int) -> int, lo: int, hi: int, k: int)
    requires
        forall|x: int| lo <= x < hi && s.contains(x) && x != k ==> f(x) == 0,
    ensures
        sum_over(s, f, lo, hi) == if lo <= k < hi && s.contains(k) {
            f(k)
        } else {
            0
        },
    decreases hi - lo,
{
    if hi > lo {
        lemma_sum_over_point(s, f, lo, hi - 1, k);
    }
}

/// A sum whose members and terms are bounded by those of another is no larger,
/// where no term of the other is negative.
pub proof fn lemma_sum_over_le(
    s: Set<int>,
    f: spec_fn(int) -> int,
    t: Set<int>,
    g: spec_fn(int) -> int,
    lo: int,
    hi: int,
)
    requires
        forall|x: int| lo <= x < hi && s.contains(x) ==> t.contains(x) && f(x) <= g(x),
        forall|x: int| lo <= x < hi && t.contains(x) ==> g(x) >= 0,
    ensures
        sum_over(s, f, lo, hi) <= sum_over(t, g, lo, hi),
    decreases hi - lo,
{
    if hi > lo {
        lemma_sum_over_le(s, f, t, g, lo, hi - 1);
    }
}

/// The sum of a function that is `factor` times another is `factor` times the
/// sum of the other.
pub proof fn lemma_sum_over_scale(
    s: Set<int>,
    f: spec_fn(int) -> int,
    g: spec_fn(int) -> int,
    factor: int,
    lo: int,
    hi: int,
)
    requires
        forall|x: int| lo <= x < hi && s.contains(x) ==> g(x) == factor * f(x),
    ensures
        sum_over(s, g, lo, hi) == factor * sum_over(s, f, lo, hi),
    decreases hi - lo,
{
    if hi > lo {
        lemma_sum_over_scale(s, f, g, factor, lo, hi - 1);
        let a = sum_over(s, f, lo, hi - 1);
        let b = if s.contains(hi - 1) {
            f(hi - 1)
        } else {
            0
        };
        assert(factor * (a + b) == factor * a + factor * b) by (nonlinear_arith);
    }
}

} // verus!
