//! The order in which the savings are taken: the largest first, and of equal
//! savings the one that was listed first.

use vstd::prelude::*;
use crate::model::sorting::{
    is_permutation, lemma_sort_is_sorted, sort_by_rule, stable_sort, SortRule,
};

verus! {

/// A saving: the two customers, and what is saved by serving them on one
/// route.
pub type Saving = (usize, usize, usize);

/// The rule of the savings: the larger saving comes first.
pub struct LargestFirst;

impl SortRule<Saving> for LargestFirst {
    open spec fn before(a: Saving, b: Saving) -> bool {
        a.2 > b.2
    }

    open spec fn admits(a: Saving) -> bool {
        true
    }

    fn is_before(a: &Saving, b: &Saving) -> (r: bool) {
        a.2 > b.2
    }

    proof fn lemma_rule_is_order() {
    }
}

/// The savings from the largest to the smallest; equal savings keep the
/// order in which they were listed.
pub open spec fn sort_savings(savings: Seq<Saving>) -> Seq<Saving> {
    sort_by_rule::<Saving, LargestFirst>(savings)
}

/// The savings never grow along the sequence.
pub open spec fn is_descending(savings: Seq<Saving>) -> bool {
    forall|a: int, b: int| 0 <= a <= b < savings.len() ==> savings[a].2 >= savings[b].2
}

/// The sorted savings are descending, and as many as were given.
pub proof fn lemma_sort_savings_descending(savings: Seq<Saving>)
    ensures
        is_descending(sort_savings(savings)),
        sort_savings(savings).len() == savings.len(),
{
    lemma_sort_is_sorted::<Saving, LargestFirst>(savings);
    let sorted = sort_savings(savings);
    assert forall|a: int, b: int| 0 <= a <= b < sorted.len() implies sorted[a].2
        >= sorted[b].2 by {
        if a < b {
            assert(!LargestFirst::before(sorted[b], sorted[a]));
        }
    }
}

/// The savings from the largest to the smallest; equal savings keep the
/// order in which they were listed.
pub fn sort_savings_descending(savings: &Vec<Saving>) -> (sorted: Vec<Saving>)
    ensures
        sorted@ == sort_savings(savings@),
        sorted@.len() == savings@.len(),
        is_descending(sorted@),
        is_permutation(sorted@, savings@),
{
    proof {
        lemma_sort_savings_descending(savings@);
    }
    stable_sort::<Saving, LargestFirst>(savings)
}

} // verus!
