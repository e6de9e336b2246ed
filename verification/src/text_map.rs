//! Maps and sets keyed by text, kept in the order of their keys.

use crate::order::{
    lemma_text_lt_irreflexive, lemma_text_lt_total, lemma_text_lt_transitive, precedes, text_lt,
};
use crate::text::{group_views, text_eq, views};
use vstd::prelude::*;

verus! {

/// Whether the keys of `pairs` strictly ascend.
pub open spec fn keys_ascend<W>(pairs: Seq<(Seq<char>, W)>) -> bool {
    forall|i: int, j: int|
        0 <= i < j < pairs.len() ==> text_lt((#[trigger] pairs[i]).0, (#[trigger] pairs[j]).0)
}

/// Whether some pair has this key.
pub open spec fn has_key<W>(pairs: Seq<(Seq<char>, W)>, key: Seq<char>) -> bool {
    exists|i: int| 0 <= i < pairs.len() && (#[trigger] pairs[i]).0 == key
}

/// A position of a key.
pub open spec fn key_index<W>(pairs: Seq<(Seq<char>, W)>, key: Seq<char>) -> int {
    choose|i: int| 0 <= i < pairs.len() && (#[trigger] pairs[i]).0 == key
}

/// The value that stands under a key.
pub open spec fn value_of<W>(pairs: Seq<(Seq<char>, W)>, key: Seq<char>) -> Option<W> {
    if has_key(pairs, key) {
        Some(pairs[key_index(pairs, key)].1)
    } else {
        None
    }
}

/// The place of a key: behind every smaller key.
pub open spec fn slot<W>(pairs: Seq<(Seq<char>, W)>, key: Seq<char>) -> int
    decreases pairs.len(),
{
    if pairs.len() == 0 || text_lt(pairs.last().0, key) {
        pairs.len() as int
    } else {
        slot(pairs.drop_last(), key)
    }
}

/// `pairs` with `value` under `key`, in place of what stood there.
pub open spec fn put<W>(pairs: Seq<(Seq<char>, W)>, key: Seq<char>, value: W) -> Seq<
    (Seq<char>, W),
> {
    let place = slot(pairs, key);
    if place < pairs.len() && pairs[place].0 == key {
        pairs.update(place, (key, value))
    } else {
        pairs.insert(place, (key, value))
    }
}

proof fn lemma_slot<W>(pairs: Seq<(Seq<char>, W)>, key: Seq<char>)
    requires
        keys_ascend(pairs),
    ensures
        0 <= slot(pairs, key) <= pairs.len(),
        forall|i: int| 0 <= i < slot(pairs, key) ==> text_lt((#[trigger] pairs[i]).0, key),
        forall|i: int| slot(pairs, key) <= i < pairs.len() ==> !text_lt((#[trigger] pairs[i]).0, key),
    decreases pairs.len(),
{
    if pairs.len() > 0 {
        if text_lt(pairs.last().0, key) {
            assert forall|i: int| 0 <= i < pairs.len() implies text_lt((#[trigger] pairs[i]).0, key) by {
                if i < pairs.len() - 1 {
                    assert(text_lt(pairs[i].0, pairs[pairs.len() - 1].0));
                    lemma_text_lt_transitive(pairs[i].0, pairs.last().0, key);
                }
            }
        } else {
            let rest = pairs.drop_last();
            assert(keys_ascend(rest)) by {
                assert forall|i: int, j: int| 0 <= i < j < rest.len() implies text_lt(
                    (#[trigger] rest[i]).0,
                    (#[trigger] rest[j]).0,
                ) by {
                    assert(text_lt(pairs[i].0, pairs[j].0));
                }
            }
            lemma_slot(rest, key);
            assert forall|i: int| 0 <= i < slot(pairs, key) implies text_lt(
                (#[trigger] pairs[i]).0,
                key,
            ) by {
                assert(rest[i] == pairs[i]);
            }
            assert forall|i: int| slot(pairs, key) <= i < pairs.len() implies !text_lt(
                (#[trigger] pairs[i]).0,
                key,
            ) by {
                if i < rest.len() {
                    assert(rest[i] == pairs[i]);
                }
            }
        }
    }
}

/// In ascending pairs a key stands once, so its value is the value of any
/// pair that has the key.
pub proof fn lemma_value_at<W>(pairs: Seq<(Seq<char>, W)>, index: int)
    requires
        keys_ascend(pairs),
        0 <= index < pairs.len(),
    ensures
        value_of(pairs, pairs[index].0) == Some(pairs[index].1),
{
    let key = pairs[index].0;
    assert(has_key(pairs, key));
    let other = key_index(pairs, key);
    if other < index {
        assert(text_lt(pairs[other].0, pairs[index].0));
        lemma_text_lt_irreflexive(key);
    } else if index < other {
        assert(text_lt(pairs[index].0, pairs[other].0));
        lemma_text_lt_irreflexive(key);
    }
}

proof fn lemma_ascend_below<W>(pairs: Seq<(Seq<char>, W)>, key: Seq<char>)
    requires
        keys_ascend(pairs),
        pairs.len() > 0,
    ensures
        keys_ascend(pairs.drop_last()),
        value_of(pairs.drop_last(), key) == if key == pairs.last().0 {
            None
        } else {
            value_of(pairs, key)
        },
{
    let rest = pairs.drop_last();
    let last = pairs.len() - 1;
    assert forall|i: int, j: int| 0 <= i < j < rest.len() implies text_lt(
        (#[trigger] rest[i]).0,
        (#[trigger] rest[j]).0,
    ) by {
        assert(text_lt(pairs[i].0, pairs[j].0));
    }
    if has_key(rest, key) {
        let i = key_index(rest, key);
        assert(rest[i] == pairs[i]);
        assert(text_lt(pairs[i].0, pairs[last].0));
        lemma_text_lt_irreflexive(key);
        lemma_value_at(rest, i);
        lemma_value_at(pairs, i);
    } else if has_key(pairs, key) {
        let i = key_index(pairs, key);
        if i < last {
            assert(rest[i] == pairs[i]);
        }
    }
}

/// Ascending pairs that give the same value under every key are the same.
pub proof fn lemma_same_pairs<W>(left: Seq<(Seq<char>, W)>, right: Seq<(Seq<char>, W)>)
    requires
        keys_ascend(left),
        keys_ascend(right),
        forall|key: Seq<char>| #[trigger] value_of(left, key) == value_of(right, key),
    ensures
        left == right,
    decreases left.len(),
{
    if left.len() == 0 {
        if right.len() > 0 {
            lemma_value_at(right, 0);
            assert(value_of(left, right[0].0) == value_of(right, right[0].0));
        }
        assert(left =~= right);
    } else {
        let a = left.len() - 1;
        lemma_value_at(left, a);
        assert(value_of(left, left[a].0) == value_of(right, left[a].0));
        let b = right.len() - 1;
        lemma_value_at(right, b);
        assert(value_of(left, right[b].0) == value_of(right, right[b].0));
        let i = key_index(left, right[b].0);
        let j = key_index(right, left[a].0);
        if i < a && j < b {
            assert(text_lt(left[i].0, left[a].0));
            assert(text_lt(right[j].0, right[b].0));
            lemma_text_lt_transitive(left[i].0, left[a].0, left[i].0);
            lemma_text_lt_irreflexive(left[i].0);
        }
        assert(left[a].0 == right[b].0);
        let l = left.drop_last();
        let r = right.drop_last();
        lemma_ascend_below(left, left[a].0);
        lemma_ascend_below(right, left[a].0);
        assert forall|key: Seq<char>| #[trigger] value_of(l, key) == value_of(r, key) by {
            lemma_ascend_below(left, key);
            lemma_ascend_below(right, key);
            assert(value_of(left, key) == value_of(right, key));
        }
        lemma_same_pairs(l, r);
        assert(left =~= l.push(left[a]));
        assert(right =~= r.push(right[b]));
    }
}

/// Putting a value under a key keeps the keys ascending, gives that value
/// back under the key, and changes no other key.
pub proof fn lemma_put<W>(pairs: Seq<(Seq<char>, W)>, key: Seq<char>, value: W, other: Seq<char>)
    requires
        keys_ascend(pairs),
    ensures
        keys_ascend(put(pairs, key, value)),
        value_of(put(pairs, key, value), other) == if other == key {
            Some(value)
        } else {
            value_of(pairs, other)
        },
{
    let place = slot(pairs, key);
    lemma_slot(pairs, key);
    let after = put(pairs, key, value);
    let held = place < pairs.len() && pairs[place].0 == key;
    assert forall|i: int, j: int| 0 <= i < j < after.len() implies text_lt(
        (#[trigger] after[i]).0,
        (#[trigger] after[j]).0,
    ) by {
        if held {
            assert(after[i].0 == pairs[i].0);
            assert(after[j].0 == pairs[j].0);
            assert(text_lt(pairs[i].0, pairs[j].0));
        } else {
            let a = if i < place { i } else { i - 1 };
            let b = if j < place { j } else { j - 1 };
            if i == place {
                assert(after[j] == pairs[b]);
                lemma_text_lt_total(pairs[b].0, key);
                if pairs[b].0 == key {
                    if place < b {
                        assert(text_lt(pairs[place].0, pairs[b].0));
                    }
                    assert(false);
                }
            } else if j == place {
                assert(after[i] == pairs[a]);
            } else {
                assert(after[i] == pairs[a]);
                assert(after[j] == pairs[b]);
                assert(text_lt(pairs[a].0, pairs[b].0));
            }
        }
    }
    assert(after[place] == (key, value));
    lemma_value_at(after, place);
    if other != key {
        if has_key(pairs, other) {
            let i = key_index(pairs, other);
            lemma_value_at(pairs, i);
            let k = if held || i < place { i } else { i + 1 };
            assert(after[k] == pairs[i]);
            lemma_value_at(after, k);
        } else if has_key(after, other) {
            let k = key_index(after, other);
            let i = if held || k < place { k } else { k - 1 };
            assert(k != place);
            assert(pairs[i] == after[k]);
            assert(false);
        }
    }
}

/// A pair after a `put` stood there before or is the one that was put.
pub proof fn lemma_put_pair<W>(pairs: Seq<(Seq<char>, W)>, key: Seq<char>, value: W, index: int)
    requires
        keys_ascend(pairs),
        0 <= index < put(pairs, key, value).len(),
    ensures
        put(pairs, key, value)[index] == (key, value) || exists|i: int|
            0 <= i < pairs.len() && #[trigger] pairs[i] == put(pairs, key, value)[index],
{
    lemma_slot(pairs, key);
    let place = slot(pairs, key);
    let after = put(pairs, key, value);
    if index != place {
        let held = place < pairs.len() && pairs[place].0 == key;
        let i = if held || index < place { index } else { index - 1 };
        assert(pairs[i] == after[index]);
    }
}

/// One key with its value.
#[derive(Debug, PartialEq, Eq)]
pub struct Entry<V> {
    pub key: String,
    pub value: V,
}

impl<V: View> View for Entry<V> {
    type V = (Seq<char>, V::V);

    open spec fn view(&self) -> (Seq<char>, V::V) {
        (self.key@, self.value@)
    }
}

/// Values under text keys, in the order of the keys.
#[derive(Debug, PartialEq, Eq)]
pub struct TextMap<V: View> {
    entries: Vec<Entry<V>>,
}

impl<V: View> View for TextMap<V> {
    type V = Seq<(Seq<char>, V::V)>;

    closed spec fn view(&self) -> Seq<(Seq<char>, V::V)> {
        views(self.entries@)
    }
}

impl<V: View> TextMap<V> {
    #[verifier::type_invariant]
    spec fn ascends(self) -> bool {
        keys_ascend(self@)
    }

    /// The empty map.
    pub fn new() -> (map: Self)
        ensures
            map@ == Seq::<(Seq<char>, V::V)>::empty(),
    {
        let entries: Vec<Entry<V>> = Vec::new();
        assert(views(entries@) =~= Seq::<(Seq<char>, V::V)>::empty());
        TextMap { entries }
    }

    /// The number of keys, which strictly ascend.
    pub fn len(&self) -> (count: usize)
        ensures
            count == self@.len(),
            keys_ascend(self@),
    {
        broadcast use group_views;

        proof {
            use_type_invariant(self);
        }
        self.entries.len()
    }

    /// Whether the map holds no key.
    pub fn is_empty(&self) -> (empty: bool)
        ensures
            empty == (self@.len() == 0),
    {
        broadcast use group_views;

        self.entries.len() == 0
    }

    /// The key at a position.
    pub fn key_at(&self, index: usize) -> (key: &String)
        requires
            index < self@.len(),
        ensures
            key@ == self@[index as int].0,
    {
        broadcast use group_views;

        &self.entries[index].key
    }

    /// The value at a position.
    pub fn value_at(&self, index: usize) -> (value: &V)
        requires
            index < self@.len(),
        ensures
            value@ == self@[index as int].1,
    {
        broadcast use group_views;

        &self.entries[index].value
    }

    /// The position of a key, where the map holds it.
    pub fn position(&self, key: &str) -> (found: Option<usize>)
        ensures
            match found {
                Some(index) => index < self@.len() && self@[index as int].0 == key@,
                None => !has_key(self@, key@),
            },
    {
        broadcast use group_views;

        let mut index: usize = 0;
        while index < self.entries.len()
            invariant
                index <= self.entries@.len(),
                forall|i: int| 0 <= i < index ==> (#[trigger] self@[i]).0 != key@,
            decreases self.entries@.len() - index,
        {
            if text_eq(self.entries[index].key.as_str(), key) {
                return Some(index);
            }
            index += 1;
        }
        None
    }

    /// The value under a key.
    pub fn get(&self, key: &str) -> (value: Option<&V>)
        ensures
            match value {
                Some(held) => value_of(self@, key@) == Some(held@),
                None => value_of(self@, key@) is None,
            },
    {
        match self.position(key) {
            Some(index) => {
                proof {
                    use_type_invariant(self);
                    lemma_value_at(self@, index as int);
                }
                Some(self.value_at(index))
            },
            None => None,
        }
    }

    /// Whether the map holds a key.
    pub fn contains_key(&self, key: &str) -> (held: bool)
        ensures
            held == has_key(self@, key@),
    {
        match self.position(key) {
            Some(index) => {
                assert(self@[index as int].0 == key@);
                true
            },
            None => false,
        }
    }

    /// Puts a value under a key, in place of what stood there.
    pub fn insert(&mut self, key: String, value: V)
        ensures
            final(self)@ == put(old(self)@, key@, value@),
    {
        broadcast use group_views;

        proof {
            use_type_invariant(&*self);
            lemma_put(self@, key@, value@, key@);
            lemma_slot(self@, key@);
        }
        let ghost before = self@;
        let mut entries: Vec<Entry<V>> = Vec::new();
        assert(views(entries@) =~= Seq::<(Seq<char>, V::V)>::empty());
        std::mem::swap(&mut entries, &mut self.entries);
        let ghost held = entries@;
        let mut place: usize = entries.len();
        assert(before.take(place as int) =~= before);
        while place > 0 && !precedes(entries[place - 1].key.as_str(), key.as_str())
            invariant
                place <= entries@.len(),
                entries@ == held,
                before == views(held),
                slot(before, key@) == slot(before.take(place as int), key@),
            decreases place,
        {
            assert(before.take(place as int).drop_last() =~= before.take(place as int - 1));
            assert(before.take(place as int).last() == held[place - 1]@);
            place -= 1;
        }
        proof {
            if place > 0 {
                assert(before.take(place as int).last() == held[place - 1]@);
            }
        }
        if place < entries.len() && text_eq(entries[place].key.as_str(), key.as_str()) {
            entries.set(place, Entry { key, value });
            assert(views(entries@) =~= put(before, key@, value@));
        } else {
            entries.insert(place, Entry { key, value });
            assert(views(entries@) =~= put(before, key@, value@));
        }
        self.entries = entries;
    }

    /// Removes every key.
    pub fn clear(&mut self)
        ensures
            final(self)@ == Seq::<(Seq<char>, V::V)>::empty(),
    {
        let entries: Vec<Entry<V>> = Vec::new();
        assert(views(entries@) =~= Seq::<(Seq<char>, V::V)>::empty());
        self.entries = entries;
    }
}

/// The map that holds `pairs`, put one after the other.
pub open spec fn put_all(pairs: Seq<(Seq<char>, Seq<char>)>) -> Seq<(Seq<char>, Seq<char>)>
    decreases pairs.len(),
{
    if pairs.len() == 0 {
        Seq::empty()
    } else {
        put(put_all(pairs.drop_last()), pairs.last().0, pairs.last().1)
    }
}

/// Texts under text keys.
pub type Labels = TextMap<String>;

impl TextMap<String> {
    /// The map that holds the given pairs; of two pairs with one key the later
    /// stands.
    pub fn from_pairs(pairs: Vec<(String, String)>) -> (map: Self)
        ensures
            map@ == put_all(pairs@.map_values(|pair: (String, String)| (pair.0@, pair.1@))),
    {
        let ghost all = pairs@.map_values(|pair: (String, String)| (pair.0@, pair.1@));
        let mut map: TextMap<String> = TextMap::new();
        let mut index: usize = 0;
        assert(all.take(0) =~= Seq::empty());
        while index < pairs.len()
            invariant
                index <= pairs@.len(),
                all == pairs@.map_values(|pair: (String, String)| (pair.0@, pair.1@)),
                map@ == put_all(all.take(index as int)),
            decreases pairs@.len() - index,
        {
            assert(all.take(index as int + 1).drop_last() =~= all.take(index as int));
            assert(all.take(index as int + 1).last() == all[index as int]);
            map.insert(pairs[index].0.clone(), pairs[index].1.clone());
            index += 1;
        }
        assert(all.take(index as int) =~= all);
        map
    }

    /// A copy of the map.
    pub fn copied(&self) -> (copy: Self)
        ensures
            copy@ == self@,
    {
        broadcast use group_views;

        proof {
            use_type_invariant(self);
        }
        let mut entries: Vec<Entry<String>> = Vec::new();
        let mut index: usize = 0;
        while index < self.entries.len()
            invariant
                index <= self.entries@.len(),
                views(entries@) == self@.take(index as int),
            decreases self.entries@.len() - index,
        {
            let key = self.entries[index].key.clone();
            let value = self.entries[index].value.clone();
            assert(self@.take(index as int + 1) =~= self@.take(index as int).push(
                self.entries@[index as int]@,
            ));
            entries.push(Entry { key, value });
            index += 1;
        }
        assert(self@.take(index as int) =~= self@);
        TextMap { entries }
    }
}

impl Clone for TextMap<String> {
    fn clone(&self) -> (copy: Self)
        ensures
            copy@ == self@,
    {
        self.copied()
    }
}

impl Default for TextMap<String> {
    fn default() -> (map: Self)
        ensures
            map@ == Seq::<(Seq<char>, Seq<char>)>::empty(),
    {
        TextMap::new()
    }
}

impl TextMap<u64> {
    /// A copy of the map.
    pub fn copied(&self) -> (copy: Self)
        ensures
            copy@ == self@,
    {
        broadcast use group_views;

        proof {
            use_type_invariant(self);
        }
        let mut entries: Vec<Entry<u64>> = Vec::new();
        let mut index: usize = 0;
        while index < self.entries.len()
            invariant
                index <= self.entries@.len(),
                views(entries@) == self@.take(index as int),
            decreases self.entries@.len() - index,
        {
            let key = self.entries[index].key.clone();
            let value: u64 = self.entries[index].value;
            assert(self@.take(index as int + 1) =~= self@.take(index as int).push(
                self.entries@[index as int]@,
            ));
            entries.push(Entry { key, value });
            index += 1;
        }
        assert(self@.take(index as int) =~= self@);
        TextMap { entries }
    }
}

impl Clone for TextMap<u64> {
    fn clone(&self) -> (copy: Self)
        ensures
            copy@ == self@,
    {
        self.copied()
    }
}

} // verus!
