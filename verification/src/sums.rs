//! Sums over lists.

use vstd::prelude::*;

verus! {

/// The sum of a list of numbers.
pub open spec fn sum(values: Seq<int>) -> int
    decreases values.len(),
{
    if values.len() == 0 {
        0
    } else {
        sum(values.drop_last()) + values.last()
    }
}

/// One number more adds itself.
pub proof fn lemma_sum_push(values: Seq<int>, v: int)
    ensures
        sum(values.push(v)) == sum(values) + v,
{
    assert(values.push(v).drop_last() =~= values);
}

/// The sum of two lists is the sum of the one and of the other.
pub proof fn lemma_sum_concat(a: Seq<int>, b: Seq<int>)
    ensures
        sum(a + b) == sum(a) + sum(b),
    decreases b.len(),
{
    if b.len() == 0 {
        assert(a + b =~= a);
    } else {
        lemma_sum_concat(a, b.drop_last());
        assert((a + b).drop_last() =~= a + b.drop_last());
    }
}

/// Another number in a place takes the old one off and adds itself.
pub proof fn lemma_sum_update(values: Seq<int>, k: int, v: int)
    requires
        0 <= k < values.len(),
    ensures
        sum(values.update(k, v)) == sum(values) - values[k] + v,
    decreases values.len(),
{
    if k == values.len() - 1 {
        assert(values.update(k, v).drop_last() =~= values.drop_last());
    } else {
        lemma_sum_update(values.drop_last(), k, v);
        assert(values.update(k, v).drop_last() =~= values.drop_last().update(k, v));
    }
}

/// Numbers that are all `0` or more have such a sum, and none of them is above it.
pub proof fn lemma_sum_nonneg(values: Seq<int>)
    requires
        forall|k: int| 0 <= k < values.len() ==> #[trigger] values[k] >= 0,
    ensures
        sum(values) >= 0,
        forall|k: int| 0 <= k < values.len() ==> #[trigger] values[k] <= sum(values),
    decreases values.len(),
{
    if values.len() > 0 {
        let rest = values.drop_last();
        assert forall|k: int| 0 <= k < rest.len() implies #[trigger] rest[k] >= 0 by {
            assert(values[k] >= 0);
        }
        lemma_sum_nonneg(rest);
        assert forall|k: int| 0 <= k < values.len() implies #[trigger] values[k] <= sum(values) by {
            if k < rest.len() {
                assert(rest[k] == values[k]);
            }
        }
    }
}

/// The first of a list and the rest make up the sum.
pub proof fn lemma_sum_first(values: Seq<int>)
    requires
        values.len() > 0,
    ensures
        sum(values) == values[0] + sum(values.drop_first()),
{
    let head = seq![values[0]];
    assert(values =~= head + values.drop_first());
    lemma_sum_concat(head, values.drop_first());
    assert(head.drop_last() =~= Seq::<int>::empty());
    assert(sum(head.drop_last()) == 0);
    assert(sum(head) == values[0]);
}

} // verus!
