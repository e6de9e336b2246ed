//! Orders and sorting: the order of texts, and a stable sort over any ranking.

use crate::text::{chars_of, group_views, views};
use vstd::prelude::*;
use vstd::utf8::*;

verus! {

/// Whether one text comes before another, character by character.
pub open spec fn text_lt(left: Seq<char>, right: Seq<char>) -> bool
    decreases left.len(),
{
    if right.len() == 0 {
        false
    } else if left.len() == 0 {
        true
    } else if left[0] != right[0] {
        (left[0] as u32) < (right[0] as u32)
    } else {
        text_lt(left.drop_first(), right.drop_first())
    }
}

/// Whether one text comes before another or equals it.
pub open spec fn text_le(left: Seq<char>, right: Seq<char>) -> bool {
    !text_lt(right, left)
}

pub proof fn lemma_text_lt_irreflexive(text: Seq<char>)
    ensures
        !text_lt(text, text),
    decreases text.len(),
{
    if text.len() > 0 {
        lemma_text_lt_irreflexive(text.drop_first());
    }
}

pub proof fn lemma_text_lt_transitive(a: Seq<char>, b: Seq<char>, c: Seq<char>)
    requires
        text_lt(a, b),
        text_lt(b, c),
    ensures
        text_lt(a, c),
    decreases a.len(),
{
    if a.len() > 0 && b.len() > 0 && c.len() > 0 && a[0] == b[0] && b[0] == c[0] {
        lemma_text_lt_transitive(a.drop_first(), b.drop_first(), c.drop_first());
    }
}

/// Any two different texts are ordered one way or the other.
pub proof fn lemma_text_lt_total(a: Seq<char>, b: Seq<char>)
    ensures
        text_lt(a, b) || text_lt(b, a) || a == b,
    decreases a.len(),
{
    if a.len() > 0 && b.len() > 0 && a[0] == b[0] {
        lemma_text_lt_total(a.drop_first(), b.drop_first());
        if a.drop_first() == b.drop_first() {
            assert(a =~= seq![a[0]] + a.drop_first());
            assert(b =~= seq![b[0]] + b.drop_first());
        }
    } else if a.len() == 0 && b.len() == 0 {
        assert(a =~= b);
    } else if a.len() > 0 && b.len() > 0 {
        char_u32_cast(a[0], a[0] as u32);
        char_u32_cast(b[0], b[0] as u32);
    }
}

pub proof fn lemma_text_le_transitive(a: Seq<char>, b: Seq<char>, c: Seq<char>)
    requires
        text_le(a, b),
        text_le(b, c),
    ensures
        text_le(a, c),
{
    lemma_text_lt_total(a, b);
    lemma_text_lt_total(b, c);
    if text_lt(c, a) {
        if text_lt(a, b) {
            lemma_text_lt_transitive(c, a, b);
        }
    }
}

/// Whether one text comes before another.
pub fn precedes(left: &str, right: &str) -> (before: bool)
    ensures
        before == text_lt(left@, right@),
{
    let a = chars_of(left);
    let b = chars_of(right);
    let mut index: usize = 0;
    assert(left@.skip(0) =~= left@);
    assert(right@.skip(0) =~= right@);
    while index < a.len() && index < b.len()
        invariant
            index <= a@.len(),
            index <= b@.len(),
            a@ == left@,
            b@ == right@,
            text_lt(left@, right@) == text_lt(left@.skip(index as int), right@.skip(index as int)),
        decreases a@.len() - index,
    {
        if a[index] != b[index] {
            let x: u32 = a[index] as u32;
            let y: u32 = b[index] as u32;
            return x < y;
        }
        assert(left@.skip(index as int).drop_first() =~= left@.skip(index as int + 1));
        assert(right@.skip(index as int).drop_first() =~= right@.skip(index as int + 1));
        index += 1;
    }
    index < b.len()
}

/// A ranking of the values of a type: a total preorder on their views.
pub trait Ranked: View + Sized {
    /// Whether `left` may stand in front of `right`.
    spec fn ranks(left: Self::V, right: Self::V) -> bool;

    proof fn ranks_total(left: Self::V, right: Self::V)
        ensures
            Self::ranks(left, right) || Self::ranks(right, left),
    ;

    proof fn ranks_transitive(a: Self::V, b: Self::V, c: Self::V)
        requires
            Self::ranks(a, b),
            Self::ranks(b, c),
        ensures
            Self::ranks(a, c),
    ;

    fn in_order(&self, other: &Self) -> (held: bool)
        ensures
            held == Self::ranks(self@, other@),
    ;
}

/// The position behind the last element that may stand in front of `value`,
/// counted from the end of `items`.
pub open spec fn rank_position<T: Ranked>(items: Seq<T::V>, value: T::V) -> int
    decreases items.len(),
{
    if items.len() == 0 || T::ranks(items.last(), value) {
        items.len() as int
    } else {
        rank_position::<T>(items.drop_last(), value)
    }
}

/// `items` in order, elements of equal rank as they stood.
pub open spec fn ranked<T: Ranked>(items: Seq<T::V>) -> Seq<T::V>
    decreases items.len(),
{
    if items.len() == 0 {
        items
    } else {
        let before = ranked::<T>(items.drop_last());
        before.insert(rank_position::<T>(before, items.last()), items.last())
    }
}

/// Whether no element stands in front of one that must precede it.
pub open spec fn in_rank_order<T: Ranked>(items: Seq<T::V>) -> bool {
    forall|i: int, j: int| 0 <= i <= j < items.len() ==> T::ranks(#[trigger] items[i], #[trigger] items[j])
}

pub proof fn lemma_rank_position_bounds<T: Ranked>(items: Seq<T::V>, value: T::V)
    ensures
        0 <= rank_position::<T>(items, value) <= items.len(),
    decreases items.len(),
{
    if items.len() > 0 && !T::ranks(items.last(), value) {
        lemma_rank_position_bounds::<T>(items.drop_last(), value);
    }
}

proof fn lemma_rank_position_splits<T: Ranked>(items: Seq<T::V>, value: T::V)
    requires
        in_rank_order::<T>(items),
    ensures
        0 <= rank_position::<T>(items, value) <= items.len(),
        forall|i: int|
            0 <= i < rank_position::<T>(items, value) ==> T::ranks(#[trigger] items[i], value),
        forall|i: int|
            rank_position::<T>(items, value) <= i < items.len() ==> T::ranks(
                value,
                #[trigger] items[i],
            ),
    decreases items.len(),
{
    if items.len() > 0 {
        if T::ranks(items.last(), value) {
            assert forall|i: int| 0 <= i < items.len() implies T::ranks(#[trigger] items[i], value) by {
                assert(T::ranks(items[i], items[items.len() - 1]));
                T::ranks_transitive(items[i], items.last(), value);
            }
        } else {
            let rest = items.drop_last();
            assert(in_rank_order::<T>(rest)) by {
                assert forall|i: int, j: int| 0 <= i <= j < rest.len() implies T::ranks(
                    #[trigger] rest[i],
                    #[trigger] rest[j],
                ) by {
                    assert(T::ranks(items[i], items[j]));
                }
            }
            lemma_rank_position_splits::<T>(rest, value);
            T::ranks_total(items.last(), value);
            assert forall|i: int|
                rank_position::<T>(items, value) <= i < items.len() implies T::ranks(
                value,
                #[trigger] items[i],
            ) by {
                if i < rest.len() {
                    assert(rest[i] == items[i]);
                }
            }
            assert forall|i: int|
                0 <= i < rank_position::<T>(items, value) implies T::ranks(
                #[trigger] items[i],
                value,
            ) by {
                assert(rest[i] == items[i]);
            }
        }
    }
}

/// Sorting puts every element in order and loses none.
pub proof fn lemma_ranked_is_sorted_permutation<T: Ranked>(items: Seq<T::V>)
    ensures
        in_rank_order::<T>(ranked::<T>(items)),
        ranked::<T>(items).to_multiset() == items.to_multiset(),
        ranked::<T>(items).len() == items.len(),
    decreases items.len(),
{
    broadcast use vstd::seq_lib::group_to_multiset_ensures;

    if items.len() > 0 {
        let before = ranked::<T>(items.drop_last());
        let value = items.last();
        lemma_ranked_is_sorted_permutation::<T>(items.drop_last());
        lemma_rank_position_splits::<T>(before, value);
        let position = rank_position::<T>(before, value);
        let after = before.insert(position, value);
        T::ranks_total(value, value);
        assert forall|i: int, j: int| 0 <= i <= j < after.len() implies T::ranks(
            #[trigger] after[i],
            #[trigger] after[j],
        ) by {
            let a = if i < position { i } else { i - 1 };
            let b = if j < position { j } else { j - 1 };
            if i != position {
                assert(after[i] == before[a]);
            }
            if j != position {
                assert(after[j] == before[b]);
            }
            if i != position && j != position {
                assert(T::ranks(before[a], before[b]));
            }
        }
        assert(items =~= items.drop_last().push(value));
        assert(before.insert(position, value).to_multiset() =~= items.to_multiset());
    } else {
        assert(ranked::<T>(items) =~= items);
    }
}

/// Everything in a sorted sequence was there before.
pub proof fn lemma_ranked_holds<T: Ranked>(items: Seq<T::V>, index: int)
    requires
        0 <= index < ranked::<T>(items).len(),
    ensures
        items.contains(ranked::<T>(items)[index]),
{
    broadcast use vstd::seq_lib::group_to_multiset_ensures;

    lemma_ranked_is_sorted_permutation::<T>(items);
    let value = ranked::<T>(items)[index];
    assert(ranked::<T>(items).contains(value));
    assert(ranked::<T>(items).to_multiset().count(value) > 0);
    assert(items.to_multiset().count(value) > 0);
}

/// Everything in a sequence is there when it is sorted.
pub proof fn lemma_ranked_keeps<T: Ranked>(items: Seq<T::V>, index: int)
    requires
        0 <= index < items.len(),
    ensures
        ranked::<T>(items).contains(items[index]),
{
    broadcast use vstd::seq_lib::group_to_multiset_ensures;

    lemma_ranked_is_sorted_permutation::<T>(items);
    let value = items[index];
    assert(items.contains(value));
    assert(items.to_multiset().count(value) > 0);
    assert(ranked::<T>(items).to_multiset().count(value) > 0);
}

/// Of two lists that hold the same, the second holds the last element of the
/// first, and without it they still hold the same.
pub proof fn lemma_matched_last<A>(left: Seq<A>, right: Seq<A>) -> (place: int)
    requires
        left.len() > 0,
        left.to_multiset() == right.to_multiset(),
    ensures
        0 <= place < right.len(),
        right[place] == left.last(),
        left.drop_last().to_multiset() == right.remove(place).to_multiset(),
{
    broadcast use vstd::seq_lib::group_to_multiset_ensures;

    let value = left.last();
    assert(left.contains(value));
    assert(left.to_multiset().count(value) > 0);
    assert(right.contains(value));
    let place = choose|k: int| 0 <= k < right.len() && right[k] == value;
    let rest = left.drop_last();
    assert(left =~= rest.push(value));
    vstd::seq_lib::to_multiset_build(rest, value);
    vstd::seq_lib::to_multiset_remove(right, place);
    assert(rest.to_multiset() =~= left.to_multiset().remove(value));
    place
}

/// Lists that hold the same have the same elements.
pub proof fn lemma_same_contents<A>(left: Seq<A>, right: Seq<A>, index: int)
    requires
        left.to_multiset() == right.to_multiset(),
        0 <= index < left.len(),
    ensures
        right.contains(left[index]),
        left.len() == right.len(),
{
    broadcast use vstd::seq_lib::group_to_multiset_ensures;

    assert(left.contains(left[index]));
    assert(left.to_multiset().count(left[index]) > 0);
    assert(left.len() == left.to_multiset().len());
}

/// Lists that hold the same still do when each element is replaced by its image.
pub proof fn lemma_mapped_multiset<A, B>(left: Seq<A>, right: Seq<A>, project: spec_fn(A) -> B)
    requires
        left.to_multiset() == right.to_multiset(),
    ensures
        left.map_values(project).to_multiset() == right.map_values(project).to_multiset(),
    decreases left.len(),
{
    broadcast use vstd::seq_lib::group_to_multiset_ensures;

    if left.len() == 0 {
        assert(right.to_multiset().len() == 0);
        assert(right =~= left);
    } else {
        let k = lemma_matched_last(left, right);
        let l = left.drop_last();
        let r = right.remove(k);
        lemma_mapped_multiset(l, r, project);
        let image = project(left.last());
        assert(left.map_values(project) =~= l.map_values(project).push(image));
        vstd::seq_lib::to_multiset_build(l.map_values(project), image);
        let whole = right.map_values(project);
        assert(whole.remove(k) =~= r.map_values(project));
        vstd::seq_lib::to_multiset_remove(whole, k);
        assert(whole[k] == image);
        assert(whole.contains(image));
        assert(whole.to_multiset().count(image) > 0);
        assert(whole.to_multiset() =~= whole.to_multiset().remove(image).insert(image));
    }
}

proof fn lemma_one_order<T: Ranked>(left: Seq<T::V>, right: Seq<T::V>)
    requires
        in_rank_order::<T>(left),
        in_rank_order::<T>(right),
        left.to_multiset() == right.to_multiset(),
        forall|i: int, j: int|
            0 <= i < left.len() && 0 <= j < left.len() && T::ranks(left[i], left[j]) && T::ranks(
                left[j],
                left[i],
            ) ==> #[trigger] left[i] == #[trigger] left[j],
    ensures
        left == right,
    decreases left.len(),
{
    broadcast use vstd::seq_lib::group_to_multiset_ensures;

    if left.len() == 0 {
        assert(right.to_multiset().len() == 0);
        assert(right =~= left);
    } else {
        let end = left.len() - 1;
        lemma_same_contents(left, right, end);
        lemma_same_contents(right, left, end);
        let k = choose|k: int| 0 <= k < right.len() && right[k] == left[end];
        let m = choose|m: int| 0 <= m < left.len() && left[m] == right[end];
        assert(T::ranks(right[k], right[end]));
        assert(T::ranks(left[m], left[end]));
        assert(left[m] == left[end]);
        let l = left.drop_last();
        let r = right.drop_last();
        assert(left =~= l.push(left[end]));
        assert(right =~= r.push(left[end]));
        vstd::seq_lib::to_multiset_build(l, left[end]);
        vstd::seq_lib::to_multiset_build(r, left[end]);
        assert(l.to_multiset() =~= left.to_multiset().remove(left[end]));
        assert(r.to_multiset() =~= right.to_multiset().remove(left[end]));
        assert forall|i: int, j: int| 0 <= i <= j < l.len() implies T::ranks(
            #[trigger] l[i],
            #[trigger] l[j],
        ) by {
            assert(T::ranks(left[i], left[j]));
        }
        assert forall|i: int, j: int| 0 <= i <= j < r.len() implies T::ranks(
            #[trigger] r[i],
            #[trigger] r[j],
        ) by {
            assert(T::ranks(right[i], right[j]));
        }
        assert forall|i: int, j: int|
            0 <= i < l.len() && 0 <= j < l.len() && T::ranks(l[i], l[j]) && T::ranks(
                l[j],
                l[i],
            ) implies #[trigger] l[i] == #[trigger] l[j] by {
            assert(left[i] == left[j]);
        }
        lemma_one_order::<T>(l, r);
    }
}

/// Sorting gives one list for all lists that hold the same, where elements of
/// equal rank are equal.
pub proof fn lemma_ranked_same<T: Ranked>(left: Seq<T::V>, right: Seq<T::V>)
    requires
        left.to_multiset() == right.to_multiset(),
        forall|i: int, j: int|
            0 <= i < left.len() && 0 <= j < left.len() && T::ranks(left[i], left[j]) && T::ranks(
                left[j],
                left[i],
            ) ==> #[trigger] left[i] == #[trigger] left[j],
    ensures
        ranked::<T>(left) == ranked::<T>(right),
{
    let l = ranked::<T>(left);
    lemma_ranked_is_sorted_permutation::<T>(left);
    lemma_ranked_is_sorted_permutation::<T>(right);
    assert forall|i: int, j: int|
        0 <= i < l.len() && 0 <= j < l.len() && T::ranks(l[i], l[j]) && T::ranks(
            l[j],
            l[i],
        ) implies #[trigger] l[i] == #[trigger] l[j] by {
        lemma_ranked_holds::<T>(left, i);
        lemma_ranked_holds::<T>(left, j);
        let a = choose|a: int| 0 <= a < left.len() && left[a] == l[i];
        let b = choose|b: int| 0 <= b < left.len() && left[b] == l[j];
        assert(left[a] == left[b]);
    }
    lemma_one_order::<T>(l, ranked::<T>(right));
}

/// Sorts a list, leaving elements of equal rank in the order they had.
pub fn sort<T: Ranked>(items: Vec<T>) -> (sorted: Vec<T>)
    ensures
        views(sorted@) == ranked::<T>(views(items@)),
        sorted@.to_multiset() == items@.to_multiset(),
        sorted@.len() == items@.len(),
{
    broadcast use group_views;

    let ghost all = items@;
    let total: usize = items.len();
    let mut rest = items;
    let mut sorted: Vec<T> = Vec::new();
    let ghost mut done: int = 0;
    assert(views(all).take(0) =~= Seq::empty());
    assert(all.take(0) =~= Seq::empty());
    assert(all.skip(0) =~= all);
    assert(sorted@ =~= all.take(0));
    while rest.len() > 0
        invariant
            0 <= done <= all.len(),
            done + rest@.len() == all.len(),
            total == all.len(),
            sorted@.len() == done,
            rest@ == all.skip(done),
            views(sorted@) == ranked::<T>(views(all).take(done)),
            sorted@.to_multiset() == all.take(done).to_multiset(),
        decreases rest@.len(),
    {
        let value = rest.remove(0);
        let mut position: usize = sorted.len();
        let ghost before = views(sorted@);
        let ghost held = sorted@;
        assert(before.take(position as int) =~= before);
        while position > 0 && !sorted[position - 1].in_order(&value)
            invariant
                position <= sorted@.len(),
                sorted@ == held,
                before == views(held),
                rank_position::<T>(before, value@) == rank_position::<T>(
                    before.take(position as int),
                    value@,
                ),
            decreases position,
        {
            assert(before.take(position as int).drop_last() =~= before.take(position as int - 1));
            assert(before.take(position as int).last() == sorted@[position - 1]@);
            position -= 1;
        }
        proof {
            if position > 0 {
                assert(before.take(position as int).last() == sorted@[position - 1]@);
            }
            assert(views(all).take(done + 1).drop_last() =~= views(all).take(done));
            assert(views(all).take(done + 1).last() == value@);
            assert(all.take(done + 1) =~= all.take(done).push(value));
            assert(rest@ =~= all.skip(done + 1));
        }
        sorted.insert(position, value);
        proof {
            assert(views(sorted@) =~= before.insert(position as int, value@));
            vstd::seq_lib::to_multiset_insert(held, position as int, value);
            vstd::seq_lib::to_multiset_build(all.take(done), value);
            assert(sorted@ =~= held.insert(position as int, value));
            done = done + 1;
        }
    }
    assert(views(all).take(done) =~= views(all));
    assert(all.take(done) =~= all);
    sorted
}

/// A ranking under which two values of the same rank are equal.
pub trait Ordered: Ranked {
    proof fn ranks_antisymmetric(left: Self::V, right: Self::V)
        requires
            Self::ranks(left, right),
            Self::ranks(right, left),
        ensures
            left == right,
    ;
}

/// Sorting leaves a list alone that is in order.
pub proof fn lemma_ranked_fixed<T: Ranked>(items: Seq<T::V>)
    requires
        in_rank_order::<T>(items),
    ensures
        ranked::<T>(items) == items,
    decreases items.len(),
{
    if items.len() > 0 {
        let rest = items.drop_last();
        assert(in_rank_order::<T>(rest)) by {
            assert forall|i: int, j: int| 0 <= i <= j < rest.len() implies T::ranks(
                #[trigger] rest[i],
                #[trigger] rest[j],
            ) by {
                assert(T::ranks(items[i], items[j]));
            }
        }
        lemma_ranked_fixed::<T>(rest);
        if rest.len() > 0 {
            assert(T::ranks(items[items.len() - 2], items[items.len() - 1]));
            assert(rest.last() == items[items.len() - 2]);
        }
        assert(ranked::<T>(items) =~= items);
    }
}

impl Ranked for String {
    open spec fn ranks(left: Seq<char>, right: Seq<char>) -> bool {
        text_le(left, right)
    }

    proof fn ranks_total(left: Seq<char>, right: Seq<char>) {
        if text_lt(right, left) && text_lt(left, right) {
            lemma_text_lt_transitive(left, right, left);
            lemma_text_lt_irreflexive(left);
        }
    }

    proof fn ranks_transitive(a: Seq<char>, b: Seq<char>, c: Seq<char>) {
        lemma_text_le_transitive(a, b, c);
    }

    fn in_order(&self, other: &Self) -> (held: bool) {
        !precedes(other.as_str(), self.as_str())
    }
}

impl Ordered for String {
    proof fn ranks_antisymmetric(left: Seq<char>, right: Seq<char>) {
        lemma_text_lt_total(left, right);
    }
}

} // verus!
