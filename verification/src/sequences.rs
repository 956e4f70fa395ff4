//! Facts about filtered sequences that several proofs of this library use.

use vstd::prelude::*;

verus! {

/// Two tests that agree on the items of a sequence keep the same of them.
pub proof fn lemma_filter_agree<A>(items: Seq<A>, first: spec_fn(A) -> bool, second: spec_fn(A) -> bool)
    requires
        forall|i: int| 0 <= i < items.len() ==> first(#[trigger] items[i]) == second(items[i]),
    ensures
        items.filter(first) == items.filter(second),
    decreases items.len(),
{
    reveal(Seq::filter);
    if items.len() > 0 {
        lemma_filter_agree(items.drop_last(), first, second);
    }
}

/// Filtering by a test that a second test implies does not change what the
/// second test keeps.
pub proof fn lemma_filter_twice<A>(items: Seq<A>, first: spec_fn(A) -> bool, second: spec_fn(A) -> bool)
    requires
        forall|i: int| 0 <= i < items.len() ==> second(#[trigger] items[i]) ==> first(items[i]),
    ensures
        items.filter(first).filter(second) == items.filter(second),
    decreases items.len(),
{
    reveal(Seq::filter);
    if items.len() > 0 {
        let fewer = items.drop_last();
        lemma_filter_twice(fewer, first, second);
        if first(items.last()) {
            fewer.filter(first).lemma_filter_push(items.last(), second);
        }
    }
}

/// A filter that every item passes leaves the sequence as it is.
pub proof fn lemma_filter_all<A>(items: Seq<A>, test: spec_fn(A) -> bool)
    requires
        forall|i: int| 0 <= i < items.len() ==> test(#[trigger] items[i]),
    ensures
        items.filter(test) == items,
    decreases items.len(),
{
    reveal(Seq::filter);
    if items.len() > 0 {
        lemma_filter_all(items.drop_last(), test);
    }
}

/// A filter that no item passes leaves nothing.
pub proof fn lemma_filter_none<A>(items: Seq<A>, test: spec_fn(A) -> bool)
    requires
        forall|i: int| 0 <= i < items.len() ==> !test(#[trigger] items[i]),
    ensures
        items.filter(test) == Seq::<A>::empty(),
    decreases items.len(),
{
    reveal(Seq::filter);
    if items.len() > 0 {
        lemma_filter_none(items.drop_last(), test);
    }
}

} // verus!
