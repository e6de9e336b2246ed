//! Removing repeated neighbours from a list.

use crate::order::{
    in_rank_order, lemma_ranked_fixed, lemma_ranked_is_sorted_permutation, ranked, Ordered,
};
use crate::text::{group_views, text_eq, views};
use vstd::prelude::*;

verus! {

/// Values that can be compared for equality of what they say.
pub trait Same: View + Sized {
    fn same(&self, other: &Self) -> (held: bool)
        ensures
            held == (self@ == other@),
    ;
}

impl Same for String {
    fn same(&self, other: &Self) -> (held: bool) {
        text_eq(self.as_str(), other.as_str())
    }
}

/// `items` without those that repeat the element in front of them.
pub open spec fn deduped<W>(items: Seq<W>) -> Seq<W>
    decreases items.len(),
{
    if items.len() <= 1 {
        items
    } else {
        let before = deduped(items.drop_last());
        if items.last() == items[items.len() - 2] {
            before
        } else {
            before.push(items.last())
        }
    }
}

/// Removing repeated neighbours loses no element, adds none, and keeps the
/// last one.
pub proof fn lemma_deduped<W>(items: Seq<W>)
    ensures
        deduped(items).len() <= items.len(),
        items.len() > 0 ==> deduped(items).len() > 0 && deduped(items).last() == items.last(),
        forall|value: W|
            #![trigger deduped(items).contains(value)]
            #![trigger items.contains(value)]
            deduped(items).contains(value) == items.contains(value),
    decreases items.len(),
{
    if items.len() > 1 {
        let rest = items.drop_last();
        lemma_deduped(rest);
        let before = deduped(rest);
        assert(rest.last() == items[items.len() - 2]);
        assert forall|value: W|
            #![trigger deduped(items).contains(value)]
            #![trigger items.contains(value)]
            deduped(items).contains(value) == items.contains(value) by {
            assert(items =~= rest.push(items.last()));
            if items.contains(value) {
                let i = choose|i: int| 0 <= i < items.len() && items[i] == value;
                if i < rest.len() {
                    assert(rest[i] == value);
                    assert(rest.contains(value));
                    assert(before.contains(value));
                    let k = choose|k: int| 0 <= k < before.len() && before[k] == value;
                    assert(deduped(items)[k] == value);
                } else if items.last() == items[items.len() - 2] {
                    assert(before[before.len() - 1] == value);
                } else {
                    assert(deduped(items)[before.len() as int] == value);
                }
            }
            if deduped(items).contains(value) {
                let k = choose|k: int| 0 <= k < deduped(items).len() && deduped(items)[k] == value;
                if k < before.len() {
                    assert(before[k] == value);
                    assert(rest.contains(value));
                    let i = choose|i: int| 0 <= i < rest.len() && rest[i] == value;
                    assert(items[i] == value);
                } else {
                    assert(items[items.len() - 1] == value);
                }
            }
        }
    }
}

/// Removes elements that repeat the one in front of them.
pub fn dedup<T: Same>(items: Vec<T>) -> (kept: Vec<T>)
    ensures
        views(kept@) == deduped(views(items@)),
{
    broadcast use group_views;

    let ghost all = views(items@);
    let mut rest = items;
    let mut kept: Vec<T> = Vec::new();
    let ghost mut done: int = 0;
    assert(views(kept@) =~= deduped(all.take(0)));
    assert(items@.skip(0) =~= items@);
    while rest.len() > 0
        invariant
            0 <= done <= items@.len(),
            rest@ == items@.skip(done),
            all == views(items@),
            views(kept@) == deduped(all.take(done)),
            done > 0 ==> kept@.len() > 0 && kept@.last()@ == all[done - 1],
        decreases rest@.len(),
    {
        let value = rest.remove(0);
        let last: usize = kept.len();
        proof {
            assert(all.take(done + 1).drop_last() =~= all.take(done));
            assert(all.take(done + 1).last() == value@);
            assert(rest@ =~= items@.skip(done + 1));
            if done > 0 {
                assert(all.take(done + 1)[done - 1] == all[done - 1]);
            }
        }
        if last == 0 {
            proof {
                lemma_deduped(all.take(done));
            }
            kept.push(value);
            assert(views(kept@) =~= deduped(all.take(done + 1)));
        } else if !kept[last - 1].same(&value) {
            proof {
                lemma_deduped(all.take(done));
            }
            kept.push(value);
        }
        proof {
            done = done + 1;
        }
    }
    assert(all.take(done) =~= all);
    kept
}

/// Removing repeated neighbours from a list in order leaves it in order, with
/// every element once.
pub proof fn lemma_deduped_in_order<T: Ordered>(items: Seq<T::V>)
    requires
        in_rank_order::<T>(items),
    ensures
        in_rank_order::<T>(deduped(items)),
        deduped(items).no_duplicates(),
    decreases items.len(),
{
    if items.len() > 1 {
        let rest = items.drop_last();
        assert(in_rank_order::<T>(rest)) by {
            assert forall|i: int, j: int| 0 <= i <= j < rest.len() implies T::ranks(
                #[trigger] rest[i],
                #[trigger] rest[j],
            ) by {
                assert(T::ranks(items[i], items[j]));
            }
        }
        lemma_deduped_in_order::<T>(rest);
        lemma_deduped(rest);
        let before = deduped(rest);
        let last = items.last();
        let previous = items[items.len() - 2];
        assert(rest.last() == previous);
        if last != previous {
            let after = before.push(last);
            assert(T::ranks(items[items.len() - 2], items[items.len() - 1]));
            assert(T::ranks(items[items.len() - 1], items[items.len() - 1]));
            assert forall|i: int, j: int| 0 <= i <= j < after.len() implies T::ranks(
                #[trigger] after[i],
                #[trigger] after[j],
            ) by {
                if j < before.len() {
                    assert(T::ranks(before[i], before[j]));
                } else if i < before.len() {
                    assert(T::ranks(before[i], before[before.len() - 1]));
                    T::ranks_transitive(before[i], previous, last);
                }
            }
            assert forall|i: int, j: int|
                0 <= i < after.len() && 0 <= j < after.len() && i != j implies after[i]
                != after[j] by {
                if i < before.len() && j < before.len() {
                    assert(before[i] != before[j]);
                } else {
                    let k = if i < before.len() { i } else { j };
                    if before[k] == last {
                        assert(T::ranks(before[k], before[before.len() - 1]));
                        T::ranks_antisymmetric(last, previous);
                    }
                }
            }
        }
    }
}

/// A list in which no element repeats keeps all its elements.
pub proof fn lemma_deduped_fixed<W>(items: Seq<W>)
    requires
        items.no_duplicates(),
    ensures
        deduped(items) == items,
    decreases items.len(),
{
    if items.len() > 1 {
        lemma_deduped_fixed(items.drop_last());
        assert(deduped(items) =~= items);
    }
}

/// Every element once, in order.
pub open spec fn ordered_once<T: Ordered>(items: Seq<T::V>) -> Seq<T::V> {
    deduped(ranked::<T>(items))
}

/// Putting elements in order once each keeps them all, repeats none, and
/// changes nothing when done again.
pub proof fn lemma_ordered_once<T: Ordered>(items: Seq<T::V>)
    ensures
        in_rank_order::<T>(ordered_once::<T>(items)),
        ordered_once::<T>(items).no_duplicates(),
        ordered_once::<T>(ordered_once::<T>(items)) == ordered_once::<T>(items),
        forall|value: T::V|
            #![trigger ordered_once::<T>(items).contains(value)]
            #![trigger items.contains(value)]
            ordered_once::<T>(items).contains(value) == items.contains(value),
{
    broadcast use vstd::seq_lib::group_to_multiset_ensures;

    let sorted = ranked::<T>(items);
    lemma_ranked_is_sorted_permutation::<T>(items);
    lemma_deduped_in_order::<T>(sorted);
    lemma_deduped(sorted);
    let once = ordered_once::<T>(items);
    lemma_ranked_fixed::<T>(once);
    lemma_deduped_fixed(once);
    assert forall|value: T::V|
        #![trigger ordered_once::<T>(items).contains(value)]
        #![trigger items.contains(value)]
        ordered_once::<T>(items).contains(value) == items.contains(value) by {
        assert(sorted.to_multiset().count(value) == items.to_multiset().count(value));
        assert(sorted.contains(value) == items.contains(value));
    }
}

/// More elements never make fewer different ones.
pub proof fn lemma_ordered_once_grows<T: Ordered>(items: Seq<T::V>, more: Seq<T::V>)
    ensures
        ordered_once::<T>(items).len() <= ordered_once::<T>(items + more).len(),
{
    let all = items + more;
    let few = ordered_once::<T>(items);
    let many = ordered_once::<T>(all);
    lemma_ordered_once::<T>(items);
    lemma_ordered_once::<T>(all);
    few.unique_seq_to_set();
    many.unique_seq_to_set();
    assert forall|value: T::V| few.to_set().contains(value) implies many.to_set().contains(
        value,
    ) by {
        assert(few.contains(value));
        assert(items.contains(value));
        let i = choose|i: int| 0 <= i < items.len() && items[i] == value;
        assert(all[i] == value);
        assert(all.contains(value));
        assert(many.contains(value));
    }
    vstd::seq_lib::seq_to_set_is_finite(many);
    vstd::set_lib::lemma_len_subset(few.to_set(), many.to_set());
}

/// Two lists with the same elements give the same list in order.
pub proof fn lemma_ordered_once_unique<T: Ordered>(left: Seq<T::V>, right: Seq<T::V>)
    requires
        in_rank_order::<T>(left),
        in_rank_order::<T>(right),
        left.no_duplicates(),
        right.no_duplicates(),
        forall|value: T::V|
            #![trigger left.contains(value)]
            #![trigger right.contains(value)]
            left.contains(value) == right.contains(value),
    ensures
        left == right,
    decreases left.len(),
{
    if left.len() == 0 {
        if right.len() > 0 {
            assert(right.contains(right[0]));
        }
        assert(left =~= right);
    } else {
        assert(left.contains(left[0]));
        assert(right.contains(left[0]));
        assert(right.contains(right[0]));
        assert(left.contains(right[0]));
        let a = choose|i: int| 0 <= i < right.len() && right[i] == left[0];
        let b = choose|i: int| 0 <= i < left.len() && left[i] == right[0];
        assert(T::ranks(right[0], right[a]));
        assert(T::ranks(left[0], left[b]));
        T::ranks_antisymmetric(left[0], right[0]);
        let l = left.drop_first();
        let r = right.drop_first();
        assert forall|i: int, j: int| 0 <= i <= j < l.len() implies T::ranks(
            #[trigger] l[i],
            #[trigger] l[j],
        ) by {
            assert(T::ranks(left[i + 1], left[j + 1]));
        }
        assert forall|i: int, j: int| 0 <= i <= j < r.len() implies T::ranks(
            #[trigger] r[i],
            #[trigger] r[j],
        ) by {
            assert(T::ranks(right[i + 1], right[j + 1]));
        }
        assert forall|value: T::V|
            #![trigger l.contains(value)]
            #![trigger r.contains(value)]
            l.contains(value) == r.contains(value) by {
            if l.contains(value) {
                let i = choose|i: int| 0 <= i < l.len() && l[i] == value;
                assert(left[i + 1] == value);
                assert(left[i + 1] != left[0]);
                assert(left.contains(value));
                assert(right.contains(value));
                let k = choose|k: int| 0 <= k < right.len() && right[k] == value;
                assert(r[k - 1] == value);
            }
            if r.contains(value) {
                let i = choose|i: int| 0 <= i < r.len() && r[i] == value;
                assert(right[i + 1] == value);
                assert(right[i + 1] != right[0]);
                assert(right.contains(value));
                assert(left.contains(value));
                let k = choose|k: int| 0 <= k < left.len() && left[k] == value;
                assert(l[k - 1] == value);
            }
        }
        lemma_ordered_once_unique::<T>(l, r);
        assert(left =~= seq![left[0]] + l);
        assert(right =~= seq![right[0]] + r);
    }
}

} // verus!
