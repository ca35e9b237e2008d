//! Sums of a measure over a sequence, with the re-arrangement lemmas the
//! conservation proofs need.

use vstd::prelude::*;

verus! {

/// Sum of `f` over all elements of `s`.
pub open spec fn sum_by<T>(s: Seq<T>, f: spec_fn(T) -> int) -> int
    decreases s.len(),
{
    if s.len() == 0 {
        0
    } else {
        f(s[0]) + sum_by(s.skip(1), f)
    }
}

/// Overwriting one element changes the sum by the difference at that spot.
pub proof fn lemma_sum_by_update<T>(s: Seq<T>, i: int, v: T, f: spec_fn(T) -> int)
    requires
        0 <= i < s.len(),
    ensures
        sum_by(s.update(i, v), f) == sum_by(s, f) - f(s[i]) + f(v),
    decreases s.len(),
{
    if i == 0 {
        assert(s.update(0, v).skip(1) =~= s.skip(1));
    } else {
        assert(s.update(i, v).skip(1) =~= s.skip(1).update(i - 1, v));
        lemma_sum_by_update(s.skip(1), i - 1, v, f);
    }
}

/// Removing one element removes exactly its contribution.
pub proof fn lemma_sum_by_remove<T>(s: Seq<T>, i: int, f: spec_fn(T) -> int)
    requires
        0 <= i < s.len(),
    ensures
        sum_by(s.remove(i), f) == sum_by(s, f) - f(s[i]),
    decreases s.len(),
{
    if i == 0 {
        assert(s.remove(0) =~= s.skip(1));
    } else {
        assert(s.remove(i).skip(1) =~= s.skip(1).remove(i - 1));
        lemma_sum_by_remove(s.skip(1), i - 1, f);
    }
}

/// Appending one element adds exactly its contribution.
pub proof fn lemma_sum_by_push<T>(s: Seq<T>, v: T, f: spec_fn(T) -> int)
    ensures
        sum_by(s.push(v), f) == sum_by(s, f) + f(v),
    decreases s.len(),
{
    if s.len() == 0 {
        assert(s.push(v).skip(1) =~= Seq::<T>::empty());
        assert(sum_by(Seq::<T>::empty(), f) == 0);
        assert(s.push(v)[0] == v);
        assert(sum_by(s.push(v), f) == f(v) + sum_by(s.push(v).skip(1), f));
    } else {
        assert(s.push(v).skip(1) =~= s.skip(1).push(v));
        assert(s.push(v)[0] == s[0]);
        lemma_sum_by_push(s.skip(1), v, f);
        assert(sum_by(s.push(v), f) == f(s[0]) + sum_by(s.skip(1).push(v), f));
    }
}

/// A sum of non-negative contributions is non-negative.
pub proof fn lemma_sum_by_nonneg<T>(s: Seq<T>, f: spec_fn(T) -> int)
    requires
        forall|j: int| 0 <= j < s.len() ==> #[trigger] f(s[j]) >= 0,
    ensures
        sum_by(s, f) >= 0,
    decreases s.len(),
{
    if s.len() > 0 {
        assert(forall|j: int|
            0 <= j < s.skip(1).len() ==> #[trigger] f(s.skip(1)[j]) == f(s[j + 1]));
        lemma_sum_by_nonneg(s.skip(1), f);
    }
}

/// A sum of contributions bounded by `b` is at most `b` per element.
pub proof fn lemma_sum_by_ub<T>(s: Seq<T>, f: spec_fn(T) -> int, b: int)
    requires
        forall|j: int| 0 <= j < s.len() ==> #[trigger] f(s[j]) <= b,
        b >= 0,
    ensures
        sum_by(s, f) <= b * s.len(),
    decreases s.len(),
{
    if s.len() > 0 {
        assert(forall|j: int|
            0 <= j < s.skip(1).len() ==> #[trigger] f(s.skip(1)[j]) == f(s[j + 1]));
        lemma_sum_by_ub(s.skip(1), f, b);
        assert(b * s.len() == b * (s.len() - 1) + b) by (nonlinear_arith);
    }
}

/// With non-negative contributions, each element is bounded by the sum.
pub proof fn lemma_sum_by_bound<T>(s: Seq<T>, i: int, f: spec_fn(T) -> int)
    requires
        forall|j: int| 0 <= j < s.len() ==> #[trigger] f(s[j]) >= 0,
        0 <= i < s.len(),
    ensures
        f(s[i]) <= sum_by(s, f),
    decreases s.len(),
{
    assert(forall|j: int| 0 <= j < s.skip(1).len() ==> #[trigger] f(s.skip(1)[j]) == f(s[j + 1]));
    if i == 0 {
        lemma_sum_by_nonneg(s.skip(1), f);
    } else {
        lemma_sum_by_bound(s.skip(1), i - 1, f);
    }
}

} // verus!
