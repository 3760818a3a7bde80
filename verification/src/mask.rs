//! Sets of processors written as bit masks, and their union.

use vstd::prelude::*;

verus! {

/// Whether every processor of `a` is a processor of `b`.
pub open spec fn within(a: u64, b: u64) -> bool {
    a | b == b
}

/// The processors of all of `masks` together.
pub open spec fn union_of(masks: Seq<u64>) -> u64
    decreases masks.len(),
{
    if masks.len() == 0 {
        0
    } else {
        union_of(masks.drop_last()) | masks.last()
    }
}

/// The union holds each of the masks it was made from.
pub proof fn lemma_union_holds(masks: Seq<u64>, i: int)
    requires
        0 <= i < masks.len(),
    ensures
        within(masks[i], union_of(masks)),
    decreases masks.len(),
{
    let rest = union_of(masks.drop_last());
    let last = masks.last();
    if i == masks.len() - 1 {
        assert(last | (rest | last) == rest | last) by (bit_vector);
    } else {
        lemma_union_holds(masks.drop_last(), i);
        let m = masks[i];
        assert(m | rest == rest ==> m | (rest | last) == rest | last) by (bit_vector);
    }
}

/// The union holds no more than the masks it was made from: it lies within
/// whatever holds each of them.
pub proof fn lemma_union_least(masks: Seq<u64>, bound: u64)
    requires
        forall|i: int| 0 <= i < masks.len() ==> within(#[trigger] masks[i], bound),
    ensures
        within(union_of(masks), bound),
    decreases masks.len(),
{
    if masks.len() == 0 {
        assert(0u64 | bound == bound) by (bit_vector);
    } else {
        lemma_union_least(masks.drop_last(), bound);
        let rest = union_of(masks.drop_last());
        let last = masks.last();
        assert(within(last, bound));
        assert(rest | bound == bound && last | bound == bound ==> (rest | last) | bound == bound)
            by (bit_vector);
    }
}

/// The union depends on which masks it is made from, not on their order nor
/// on how often each of them occurs.
pub proof fn lemma_union_of_same(a: Seq<u64>, b: Seq<u64>)
    requires
        forall|i: int| 0 <= i < a.len() ==> b.contains(#[trigger] a[i]),
        forall|j: int| 0 <= j < b.len() ==> a.contains(#[trigger] b[j]),
    ensures
        union_of(a) == union_of(b),
{
    assert forall|i: int| 0 <= i < a.len() implies within(#[trigger] a[i], union_of(b)) by {
        let j = choose|j: int| 0 <= j < b.len() && b[j] == a[i];
        lemma_union_holds(b, j);
    }
    lemma_union_least(a, union_of(b));
    assert forall|j: int| 0 <= j < b.len() implies within(#[trigger] b[j], union_of(a)) by {
        let i = choose|i: int| 0 <= i < a.len() && a[i] == b[j];
        lemma_union_holds(a, i);
    }
    lemma_union_least(b, union_of(a));
    let x = union_of(a);
    let y = union_of(b);
    assert(x | y == y && y | x == x ==> x == y) by (bit_vector);
}

} // verus!
