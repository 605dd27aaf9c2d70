use vstd::prelude::*;

verus! {

/// Sum of `f` over the items of `s`, from the first to the last.
pub open spec fn sum_of<T>(s: Seq<T>, f: spec_fn(T) -> int) -> int
    decreases s.len(),
{
    if s.len() == 0 {
        0
    } else {
        sum_of(s.drop_last(), f) + f(s.last())
    }
}

/// The sum over a prefix grows by the next item.
pub proof fn lemma_sum_of_take_step<T>(s: Seq<T>, f: spec_fn(T) -> int, i: int)
    requires
        0 <= i < s.len(),
    ensures
        sum_of(s.take(i + 1), f) == sum_of(s.take(i), f) + f(s[i]),
{
    assert(s.take(i + 1).drop_last() =~= s.take(i));
}

/// Over items where `f` is never negative, a prefix sums to no more than
/// the whole.
pub proof fn lemma_sum_of_prefix_bound<T>(s: Seq<T>, f: spec_fn(T) -> int, i: int)
    requires
        0 <= i <= s.len(),
        forall|x: T| #[trigger] f(x) >= 0,
    ensures
        0 <= sum_of(s.take(i), f) <= sum_of(s, f),
    decreases s.len() - i,
{
    if i == s.len() {
        assert(s.take(i) =~= s);
        lemma_sum_of_nonneg(s, f);
    } else {
        lemma_sum_of_take_step(s, f, i);
        lemma_sum_of_prefix_bound(s, f, i + 1);
        lemma_sum_of_nonneg(s.take(i), f);
        assert(f(s[i]) >= 0);
    }
}

pub proof fn lemma_sum_of_nonneg<T>(s: Seq<T>, f: spec_fn(T) -> int)
    requires
        forall|x: T| #[trigger] f(x) >= 0,
    ensures
        sum_of(s, f) >= 0,
    decreases s.len(),
{
    if s.len() > 0 {
        lemma_sum_of_nonneg(s.drop_last(), f);
        assert(f(s.last()) >= 0);
    }
}

/// A sum is no larger than another taken item by item over larger summands.
pub proof fn lemma_sum_of_le<T>(s: Seq<T>, f: spec_fn(T) -> int, g: spec_fn(T) -> int)
    requires
        forall|x: T| #[trigger] f(x) <= g(x),
    ensures
        sum_of(s, f) <= sum_of(s, g),
    decreases s.len(),
{
    if s.len() > 0 {
        lemma_sum_of_le(s.drop_last(), f, g);
        assert(f(s.last()) <= g(s.last()));
    }
}

/// Over items where `f` is never negative, one item is no larger than the sum.
pub proof fn lemma_sum_of_item_bound<T>(s: Seq<T>, f: spec_fn(T) -> int, k: int)
    requires
        0 <= k < s.len(),
        forall|x: T| #[trigger] f(x) >= 0,
    ensures
        f(s[k]) <= sum_of(s, f),
{
    lemma_sum_of_take_step(s, f, k);
    lemma_sum_of_prefix_bound(s, f, k + 1);
    lemma_sum_of_nonneg(s.take(k), f);
}

} // verus!
