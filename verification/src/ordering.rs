//! Orders used by the library's deterministic outputs, and the sorts that realize them.

use vstd::prelude::*;
use vstd::relations::*;
use vstd::seq_lib::*;

verus! {

broadcast use vstd::seq_lib::group_to_multiset_ensures;

/// Ascending numeric order on mapping identifiers.
pub open spec fn id_order() -> spec_fn(u128, u128) -> bool {
    |a: u128, b: u128| a <= b
}

/// The identifiers of `ids` in ascending order (repetitions kept).
pub open spec fn sorted_ids(ids: Seq<u128>) -> Seq<u128> {
    ids.sort_by(id_order())
}

pub proof fn lemma_id_order_total()
    ensures
        total_ordering(id_order()),
{
}

/// A sorted sequence that is a permutation of `ids` is `sorted_ids(ids)`.
pub proof fn lemma_sorted_ids_unique(ids: Seq<u128>, candidate: Seq<u128>)
    requires
        sorted_by(candidate, id_order()),
        candidate.to_multiset() == ids.to_multiset(),
    ensures
        candidate == sorted_ids(ids),
{
    lemma_id_order_total();
    ids.lemma_sort_by_ensures(id_order());
    lemma_sorted_unique(candidate, sorted_ids(ids), id_order());
}

/// Sorting a permutation gives the same sequence.
pub proof fn lemma_sorted_ids_permutation(a: Seq<u128>, b: Seq<u128>)
    requires
        a.to_multiset() == b.to_multiset(),
    ensures
        sorted_ids(a) == sorted_ids(b),
{
    lemma_id_order_total();
    a.lemma_sort_by_ensures(id_order());
    b.lemma_sort_by_ensures(id_order());
    lemma_sorted_unique(sorted_ids(a), sorted_ids(b), id_order());
}

/// Returns the identifiers of `ids` in ascending order.
pub fn sort_ids(ids: &Vec<u128>) -> (sorted: Vec<u128>)
    ensures
        sorted@ == sorted_ids(ids@),
{
    let mut sorted: Vec<u128> = Vec::new();
    let mut i: usize = 0;
    while i < ids.len()
        invariant
            0 <= i <= ids@.len(),
            sorted_by(sorted@, id_order()),
            sorted@.to_multiset() == ids@.subrange(0, i as int).to_multiset(),
        decreases ids@.len() - i,
    {
        let x = ids[i];
        let mut k: usize = 0;
        while k < sorted.len() && sorted[k] <= x
            invariant
                0 <= k <= sorted@.len(),
                forall|j: int| 0 <= j < k ==> sorted@[j] <= x,
            decreases sorted@.len() - k,
        {
            k += 1;
        }
        let ghost before = sorted@;
        sorted.insert(k, x);
        proof {
            assert(sorted@ == before.insert(k as int, x));
            assert forall|a: int, b: int| 0 <= a < b < sorted@.len() implies #[trigger] id_order()(
                sorted@[a],
                sorted@[b],
            ) by {
                if b < k {
                } else if a < k && b == k {
                } else if a < k && b > k {
                    assert(id_order()(before[a], before[b - 1]));
                } else if a == k {
                    assert(x < before[k as int]);
                    if b - 1 > k {
                        assert(id_order()(before[k as int], before[b - 1]));
                    }
                } else {
                    assert(id_order()(before[a - 1], before[b - 1]));
                }
            }
            assert(ids@.subrange(0, i + 1) == ids@.subrange(0, i as int).push(x));
        }
        i += 1;
    }
    proof {
        assert(ids@.subrange(0, ids@.len() as int) == ids@);
        lemma_sorted_ids_unique(ids@, sorted@);
    }
    sorted
}

} // verus!
