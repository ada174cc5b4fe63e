//! Putting names in order: the arrangement in which the exposition lists
//! the instruments of a kind.

use crate::metrics::{names_of, Metric};
use crate::text::{
    lemma_text_less_asymmetric, lemma_text_less_connected, lemma_text_less_transitive, str_less,
    text_less,
};
use vstd::prelude::*;
use vstd::relations::{sorted_by, total_ordering};
use vstd::seq_lib::lemma_sorted_unique;

verus! {

/// `a` is `b` or comes before it.
pub open spec fn text_le(a: Seq<char>, b: Seq<char>) -> bool {
    a == b || text_less(a, b)
}

/// The order of names, as a relation.
pub open spec fn name_le() -> spec_fn(Seq<char>, Seq<char>) -> bool {
    |a: Seq<char>, b: Seq<char>| text_le(a, b)
}

/// The names in ascending order.
pub open spec fn sorted_names(names: Seq<Seq<char>>) -> Seq<Seq<char>> {
    names.sort_by(name_le())
}

/// The names at the positions that `order` lists.
pub open spec fn picked(names: Seq<Seq<char>>, order: Seq<usize>) -> Seq<Seq<char>> {
    Seq::new(order.len(), |k: int| names[order[k] as int])
}

/// The order of names is a total order.
pub proof fn lemma_name_le_total()
    ensures
        total_ordering(name_le()),
{
    let le = name_le();
    assert forall|a: Seq<char>, b: Seq<char>| #[trigger] le(a, b) && le(b, a) implies a == b by {
        if a != b {
            lemma_text_less_asymmetric(a, b);
        }
    }
    assert forall|a: Seq<char>, b: Seq<char>, c: Seq<char>| #[trigger]
        le(a, b) && #[trigger] le(b, c) implies le(a, c) by {
        if a != b && b != c {
            lemma_text_less_transitive(a, b, c);
        }
    }
    assert forall|a: Seq<char>, b: Seq<char>| #[trigger] le(a, b) || #[trigger] le(b, a) by {
        if a != b {
            lemma_text_less_connected(a, b);
        }
    }
}

/// The positions of the instruments in the ascending order of their names.
pub fn name_order<M: Metric>(items: &Vec<M>) -> (order: Vec<usize>)
    ensures
        order@.len() == items@.len(),
        forall|k: int| 0 <= k < order@.len() ==> #[trigger] order@[k] < items@.len(),
        picked(names_of(items@), order@) == sorted_names(names_of(items@)),
{
    let ghost all = names_of(items@);
    let mut order: Vec<usize> = Vec::new();
    let mut i: usize = 0;
    proof {
        assert(picked(all, order@) =~= Seq::<Seq<char>>::empty());
        assert(all.take(0) =~= Seq::<Seq<char>>::empty());
    }
    while i < items.len()
        invariant
            all == names_of(items@),
            i <= items@.len(),
            order@.len() == i,
            forall|k: int| 0 <= k < order@.len() ==> #[trigger] order@[k] < i,
            sorted_by(picked(all, order@), name_le()),
            picked(all, order@).to_multiset() == all.take(i as int).to_multiset(),
        decreases items@.len() - i,
    {
        let ghost before = picked(all, order@);
        let ghost current = all[i as int];
        let mut at: usize = 0;
        while at < order.len() && str_less(items[order[at]].name(), items[i].name())
            invariant
                all == names_of(items@),
                i < items@.len(),
                order@.len() == i,
                at <= order@.len(),
                current == all[i as int],
                before == picked(all, order@),
                forall|k: int| 0 <= k < order@.len() ==> #[trigger] order@[k] < i,
                forall|k: int| 0 <= k < at ==> text_less(#[trigger] before[k], current),
            decreases order@.len() - at,
        {
            at = at + 1;
        }
        order.insert(at, i);
        proof {
            broadcast use vstd::seq_lib::group_to_multiset_ensures;

            let after = picked(all, order@);
            assert(after =~= before.insert(at as int, current));
            assert forall|a: int, b: int| 0 <= a < b < after.len() implies #[trigger] name_le()(
                after[a],
                after[b],
            ) by {
                let oa = if a < at { a } else { a - 1 };
                let ob = if b < at { b } else { b - 1 };
                if b == at {
                    assert(after[a] == before[oa]);
                } else if a == at {
                    assert(after[b] == before[ob]);
                    assert(name_le()(before[at as int], before[ob]) || ob == at);
                    if current != before[at as int] {
                        lemma_text_less_connected(current, before[at as int]);
                    }
                    if current != before[ob] && before[at as int] != before[ob] && current
                        != before[at as int] {
                        lemma_text_less_transitive(current, before[at as int], before[ob]);
                    }
                } else {
                    assert(after[a] == before[oa] && after[b] == before[ob]);
                    assert(name_le()(before[oa], before[ob]));
                }
            }
            assert(all.take(i + 1) =~= all.take(i as int).push(current));
        }
        i = i + 1;
    }
    proof {
        assert(all.take(i as int) =~= all);
        lemma_name_le_total();
        all.lemma_sort_by_ensures(name_le());
        lemma_sorted_unique(picked(all, order@), sorted_names(all), name_le());
    }
    order
}

} // verus!
