//! What a build-cache rule removes, said of the records, their last use, their
//! sizes and the rule.

use crate::cache::{
    aged_removals, cache_bytes, candidates, capped, last_use, may_go, rule_removals,
    selected_bytes, too_old, within_budget, CacheCandidate, CacheCandidateView,
};
use crate::guarantees::lemma_aged;
use crate::order::{
    lemma_mapped_multiset, lemma_ranked_holds, lemma_ranked_is_sorted_permutation,
    lemma_ranked_keeps, ranked, text_lt, Ranked,
};
use crate::resource::{ItemView, ResourceKind};
use crate::text_map::{has_key, keys_ascend, lemma_put, put, value_of};
use vstd::prelude::*;

verus! {

/// When a record was last used, as far as it is known: when its state began, else
/// when it was created.
pub open spec fn used_at(item: ItemView) -> Option<i64> {
    if item.state_since is Some {
        item.state_since
    } else {
        item.created_at
    }
}

/// Whether a record can be removed at all.
pub open spec fn is_idle_record(item: ItemView) -> bool {
    item.kind == ResourceKind::BuildCache && !item.referenced
}

/// Whether a record has gone unused for at least some seconds.
pub open spec fn is_unused_for(item: ItemView, now: i64, seconds: u64) -> bool {
    &&& used_at(item) is Some
    &&& 0 <= now - used_at(item)->0 <= i64::MAX
    &&& now - used_at(item)->0 >= seconds
}

/// Whether a rule removes a record for its age.
pub open spec fn is_overdue(item: ItemView, now: i64, older_than: Option<u64>) -> bool {
    is_idle_record(item) && older_than is Some && is_unused_for(item, now, older_than->0)
}

/// Whether a record can be weighed and ordered for the budget.
pub open spec fn is_measured(item: ItemView) -> bool {
    is_idle_record(item) && item.size is Some && used_at(item) is Some
}

/// Whether one record was used before another, or at one moment with it under a
/// smaller id.
pub open spec fn goes_before(one: ItemView, other: ItemView) -> bool {
    ||| used_at(one)->0 < used_at(other)->0
    ||| used_at(one)->0 == used_at(other)->0 && text_lt(one.id, other.id)
}

/// The known bytes of the build-cache records that are not named.
pub open spec fn bytes_left(inventory: Seq<ItemView>, named: Seq<(Seq<char>, Seq<char>)>) -> nat
    decreases inventory.len(),
{
    if inventory.len() == 0 {
        0
    } else {
        let item = inventory.last();
        bytes_left(inventory.drop_last(), named) + if item.kind == ResourceKind::BuildCache
            && item.size is Some && !has_key(named, item.id) {
            item.size->0 as nat
        } else {
            0
        }
    }
}

/// Whether no two build-cache records share an id.
pub open spec fn records_differ(inventory: Seq<ItemView>) -> bool {
    forall|i: int, j: int|
        0 <= i < inventory.len() && 0 <= j < inventory.len() && i != j && inventory[i].kind
            == ResourceKind::BuildCache && inventory[j].kind == ResourceKind::BuildCache
            ==> #[trigger] inventory[i].id != #[trigger] inventory[j].id
}

/// Whether the known bytes of all records can be counted.
pub open spec fn bytes_can_be_counted(inventory: Seq<ItemView>) -> bool {
    bytes_left(inventory, Seq::empty()) <= u64::MAX
}

proof fn lemma_split_bytes(inventory: Seq<ItemView>, named: Seq<(Seq<char>, Seq<char>)>)
    ensures
        cache_bytes(inventory) == bytes_left(inventory, Seq::empty()),
        cache_bytes(inventory) == selected_bytes(inventory, named) + bytes_left(inventory, named),
    decreases inventory.len(),
{
    if inventory.len() > 0 {
        lemma_split_bytes(inventory.drop_last(), named);
        assert(!has_key(Seq::<(Seq<char>, Seq<char>)>::empty(), inventory.last().id));
    }
}

proof fn lemma_has_key_value(pairs: Seq<(Seq<char>, Seq<char>)>, key: Seq<char>)
    ensures
        has_key(pairs, key) == (value_of(pairs, key) is Some),
{
}

proof fn lemma_put_keys(
    pairs: Seq<(Seq<char>, Seq<char>)>,
    key: Seq<char>,
    value: Seq<char>,
    other: Seq<char>,
)
    requires
        keys_ascend(pairs),
    ensures
        keys_ascend(put(pairs, key, value)),
        has_key(put(pairs, key, value), other) == (has_key(pairs, other) || other == key),
{
    lemma_put(pairs, key, value, other);
    lemma_has_key_value(pairs, other);
    lemma_has_key_value(put(pairs, key, value), other);
}

proof fn lemma_bytes_elsewhere(
    inventory: Seq<ItemView>,
    named: Seq<(Seq<char>, Seq<char>)>,
    key: Seq<char>,
    value: Seq<char>,
)
    requires
        keys_ascend(named),
        forall|i: int|
            0 <= i < inventory.len() && inventory[i].kind == ResourceKind::BuildCache ==> (
            #[trigger] inventory[i]).id != key,
    ensures
        bytes_left(inventory, put(named, key, value)) == bytes_left(inventory, named),
    decreases inventory.len(),
{
    if inventory.len() > 0 {
        let rest = inventory.drop_last();
        let item = inventory[inventory.len() - 1];
        assert forall|i: int|
            0 <= i < rest.len() && rest[i].kind == ResourceKind::BuildCache implies (
        #[trigger] rest[i]).id != key by {
            assert(rest[i] == inventory[i]);
        }
        lemma_bytes_elsewhere(rest, named, key, value);
        lemma_put_keys(named, key, value, item.id);
    }
}

proof fn lemma_bytes_less(
    inventory: Seq<ItemView>,
    named: Seq<(Seq<char>, Seq<char>)>,
    value: Seq<char>,
    k: int,
)
    requires
        keys_ascend(named),
        records_differ(inventory),
        0 <= k < inventory.len(),
        inventory[k].kind == ResourceKind::BuildCache,
        inventory[k].size is Some,
        !has_key(named, inventory[k].id),
    ensures
        bytes_left(inventory, named) == bytes_left(inventory, put(named, inventory[k].id, value))
            + inventory[k].size->0,
    decreases inventory.len(),
{
    let rest = inventory.drop_last();
    let key = inventory[k].id;
    let end = inventory.len() - 1;
    if k == end {
        assert forall|i: int|
            0 <= i < rest.len() && rest[i].kind == ResourceKind::BuildCache implies (
        #[trigger] rest[i]).id != key by {
            assert(rest[i] == inventory[i]);
            assert(inventory[i].id != inventory[end].id);
        }
        lemma_bytes_elsewhere(rest, named, key, value);
        lemma_put_keys(named, key, value, key);
    } else {
        assert(rest[k] == inventory[k]);
        assert forall|i: int, j: int|
            0 <= i < rest.len() && 0 <= j < rest.len() && i != j && rest[i].kind
                == ResourceKind::BuildCache && rest[j].kind
                == ResourceKind::BuildCache implies #[trigger] rest[i].id
            != #[trigger] rest[j].id by {
            assert(inventory[i].id != inventory[j].id);
        }
        lemma_bytes_less(rest, named, value, k);
        lemma_put_keys(named, key, value, inventory[end].id);
        if inventory[end].kind == ResourceKind::BuildCache {
            assert(inventory[k].id != inventory[end].id);
        }
    }
}

/// Whether a candidate is a measured record of an inventory.
spec fn is_candidate(inventory: Seq<ItemView>, candidate: CacheCandidateView) -> bool {
    exists|k: int|
        0 <= k < inventory.len() && is_measured(#[trigger] inventory[k]) && inventory[k].id
            == candidate.id && inventory[k].size->0 == candidate.size
}

/// Whether a queue holds measured records of an inventory, each once, that are
/// not named yet.
spec fn queue_stands(
    queue: Seq<CacheCandidateView>,
    inventory: Seq<ItemView>,
    named: Seq<(Seq<char>, Seq<char>)>,
) -> bool {
    &&& forall|i: int, j: int|
        0 <= i < j < queue.len() ==> (#[trigger] queue[i]).id != (#[trigger] queue[j]).id
    &&& forall|i: int| 0 <= i < queue.len() ==> !has_key(named, (#[trigger] queue[i]).id)
    &&& forall|i: int| 0 <= i < queue.len() ==> is_candidate(inventory, #[trigger] queue[i])
}

proof fn lemma_budget(
    queue: Seq<CacheCandidateView>,
    inventory: Seq<ItemView>,
    named: Seq<(Seq<char>, Seq<char>)>,
    retained: u64,
    limit: u64,
    total: u64,
) -> (taken: int)
    requires
        keys_ascend(named),
        records_differ(inventory),
        queue_stands(queue, inventory, named),
        retained == bytes_left(inventory, named),
    ensures
        ({
            let result = within_budget(queue, named, retained, limit, total);
            &&& 0 <= taken <= queue.len()
            &&& taken == 0 ==> result == named
            &&& forall|id: Seq<char>|
                #![trigger has_key(result, id)]
                has_key(result, id) <==> has_key(named, id) || exists|j: int|
                    0 <= j < taken && (#[trigger] queue[j]).id == id
            &&& bytes_left(inventory, result) <= limit || taken == queue.len()
            &&& taken > 0 ==> bytes_left(inventory, result) + queue[taken - 1].size > limit
        }),
    decreases queue.len(),
{
    if queue.len() == 0 || retained <= limit {
        0
    } else {
        let head = queue[0];
        let rest = queue.drop_first();
        let reason = crate::cache::budget_reason(total, limit);
        let next = put(named, head.id, reason);
        assert(is_candidate(inventory, queue[0]));
        let k = choose|k: int|
            0 <= k < inventory.len() && is_measured(#[trigger] inventory[k]) && inventory[k].id
                == queue[0].id && inventory[k].size->0 == queue[0].size;
        lemma_bytes_less(inventory, named, reason, k);
        lemma_put_keys(named, head.id, reason, head.id);
        assert(queue_stands(rest, inventory, next)) by {
            assert forall|i: int, j: int| 0 <= i < j < rest.len() implies (#[trigger] rest[i]).id
                != (#[trigger] rest[j]).id by {
                assert(rest[i] == queue[i + 1] && rest[j] == queue[j + 1]);
            }
            assert forall|i: int| 0 <= i < rest.len() implies !has_key(
                next,
                (#[trigger] rest[i]).id,
            ) by {
                assert(rest[i] == queue[i + 1]);
                assert(queue[0].id != queue[i + 1].id);
                lemma_put_keys(named, head.id, reason, rest[i].id);
            }
            assert forall|i: int| 0 <= i < rest.len() implies is_candidate(
                inventory,
                #[trigger] rest[i],
            ) by {
                assert(rest[i] == queue[i + 1]);
            }
        }
        let left = (retained - head.size) as u64;
        let more = lemma_budget(rest, inventory, next, left, limit, total);
        let result = within_budget(queue, named, retained, limit, total);
        assert(result == within_budget(rest, next, left, limit, total));
        assert forall|id: Seq<char>| #![trigger has_key(result, id)]
            has_key(result, id) <==> has_key(named, id) || exists|j: int|
                0 <= j < more + 1 && (#[trigger] queue[j]).id == id by {
            lemma_put_keys(named, head.id, reason, id);
            if exists|j: int| 0 <= j < more && (#[trigger] rest[j]).id == id {
                let j = choose|j: int| 0 <= j < more && (#[trigger] rest[j]).id == id;
                assert(queue[j + 1].id == id);
            }
            if exists|j: int| 0 <= j < more + 1 && (#[trigger] queue[j]).id == id {
                let j = choose|j: int| 0 <= j < more + 1 && (#[trigger] queue[j]).id == id;
                if j > 0 {
                    assert(rest[j - 1].id == id);
                }
            }
            assert(queue[0].id == head.id);
        }
        if more > 0 {
            assert(rest[more - 1] == queue[more]);
        } else {
            assert(result == next);
        }
        more + 1
    }
}

proof fn lemma_listed(
    inventory: Seq<ItemView>,
    named: Seq<(Seq<char>, Seq<char>)>,
    index: int,
) -> (source: int)
    requires
        0 <= index < candidates(inventory, named).len(),
    ensures
        0 <= source < inventory.len(),
        is_measured(inventory[source]),
        !has_key(named, inventory[source].id),
        candidates(inventory, named)[index].id == inventory[source].id,
        candidates(inventory, named)[index].size == inventory[source].size->0,
        candidates(inventory, named)[index].last_used == used_at(inventory[source])->0,
    decreases inventory.len(),
{
    let rest = inventory.drop_last();
    if index < candidates(rest, named).len() {
        lemma_listed(rest, named, index)
    } else {
        inventory.len() - 1
    }
}

proof fn lemma_listed_all(
    inventory: Seq<ItemView>,
    named: Seq<(Seq<char>, Seq<char>)>,
    k: int,
) -> (index: int)
    requires
        0 <= k < inventory.len(),
        is_measured(inventory[k]),
        !has_key(named, inventory[k].id),
    ensures
        0 <= index < candidates(inventory, named).len(),
        candidates(inventory, named)[index] == (CacheCandidateView {
            id: inventory[k].id,
            last_used: used_at(inventory[k])->0,
            size: inventory[k].size->0,
        }),
    decreases inventory.len(),
{
    let rest = inventory.drop_last();
    assert(last_use(inventory[k]) == used_at(inventory[k]));
    if k < rest.len() {
        assert(rest[k] == inventory[k]);
        lemma_listed_all(rest, named, k)
    } else {
        assert(may_go(inventory.last(), named));
        candidates(inventory, named).len() - 1
    }
}

proof fn lemma_listed_differ(
    inventory: Seq<ItemView>,
    named: Seq<(Seq<char>, Seq<char>)>,
    i: int,
    j: int,
)
    requires
        records_differ(inventory),
        0 <= i < j < candidates(inventory, named).len(),
    ensures
        candidates(inventory, named)[i].id != candidates(inventory, named)[j].id,
    decreases inventory.len(),
{
    let rest = inventory.drop_last();
    let before = candidates(rest, named);
    let end = inventory.len() - 1;
    assert forall|a: int, b: int|
        0 <= a < rest.len() && 0 <= b < rest.len() && a != b && rest[a].kind
            == ResourceKind::BuildCache && rest[b].kind
            == ResourceKind::BuildCache implies #[trigger] rest[a].id != #[trigger] rest[b].id by {
        assert(inventory[a].id != inventory[b].id);
    }
    if j < before.len() {
        lemma_listed_differ(rest, named, i, j);
    } else {
        let a = lemma_listed(rest, named, i);
        assert(rest[a] == inventory[a]);
        assert(inventory[a].id != inventory[end].id);
    }
}

proof fn lemma_queue(inventory: Seq<ItemView>, named: Seq<(Seq<char>, Seq<char>)>)
    requires
        records_differ(inventory),
    ensures
        queue_stands(ranked::<CacheCandidate>(candidates(inventory, named)), inventory, named),
{
    let listed = candidates(inventory, named);
    let queue = ranked::<CacheCandidate>(listed);
    let id_of = |candidate: CacheCandidateView| candidate.id;
    lemma_ranked_is_sorted_permutation::<CacheCandidate>(listed);
    lemma_mapped_multiset(queue, listed, id_of);
    let ids = listed.map_values(id_of);
    let sorted_ids = queue.map_values(id_of);
    assert(ids.no_duplicates()) by {
        assert forall|i: int, j: int| 0 <= i < ids.len() && 0 <= j < ids.len() && i != j implies ids[i]
            != ids[j] by {
            if i < j {
                lemma_listed_differ(inventory, named, i, j);
            } else {
                lemma_listed_differ(inventory, named, j, i);
            }
        }
    }
    ids.lemma_multiset_has_no_duplicates();
    assert(sorted_ids.no_duplicates()) by {
        sorted_ids.lemma_multiset_has_no_duplicates_conv();
    }
    assert forall|i: int, j: int| 0 <= i < j < queue.len() implies (#[trigger] queue[i]).id != (
    #[trigger] queue[j]).id by {
        assert(sorted_ids[i] != sorted_ids[j]);
    }
    assert forall|i: int| 0 <= i < queue.len() implies !has_key(named, (#[trigger] queue[i]).id)
        && is_candidate(inventory, queue[i]) by {
        lemma_ranked_holds::<CacheCandidate>(listed, i);
        let m = choose|m: int| 0 <= m < listed.len() && listed[m] == queue[i];
        let k = lemma_listed(inventory, named, m);
        assert(is_measured(inventory[k]));
    }
}

spec fn overdue_removals(inventory: Seq<ItemView>, now: i64, older_than: Option<u64>) -> Seq<
    (Seq<char>, Seq<char>),
> {
    match older_than {
        Some(threshold) => aged_removals(inventory, now, threshold),
        None => Seq::empty(),
    }
}

proof fn lemma_overdue(
    inventory: Seq<ItemView>,
    now: i64,
    older_than: Option<u64>,
    id: Seq<char>,
)
    ensures
        keys_ascend(overdue_removals(inventory, now, older_than)),
        has_key(overdue_removals(inventory, now, older_than), id) <==> exists|i: int|
            0 <= i < inventory.len() && is_overdue(#[trigger] inventory[i], now, older_than)
                && inventory[i].id == id,
{
    match older_than {
        Some(threshold) => {
            lemma_aged(inventory, now, threshold, id);
            assert forall|i: int| 0 <= i < inventory.len() implies too_old(
                #[trigger] inventory[i],
                now,
                threshold,
            ) == is_overdue(inventory[i], now, older_than) by {
                assert(last_use(inventory[i]) == used_at(inventory[i]));
            }
            if has_key(aged_removals(inventory, now, threshold), id) {
                let i = choose|i: int|
                    0 <= i < inventory.len() && too_old(#[trigger] inventory[i], now, threshold)
                        && inventory[i].id == id;
                assert(is_overdue(inventory[i], now, older_than));
            }
            if exists|i: int|
                0 <= i < inventory.len() && is_overdue(#[trigger] inventory[i], now, older_than)
                    && inventory[i].id == id {
                let i = choose|i: int|
                    0 <= i < inventory.len() && is_overdue(#[trigger] inventory[i], now, older_than)
                        && inventory[i].id == id;
                assert(too_old(inventory[i], now, threshold));
            }
        },
        None => {},
    }
}

proof fn lemma_rule(
    older_than: Option<u64>,
    limit: u64,
    inventory: Seq<ItemView>,
    now: i64,
) -> (taken: int)
    requires
        records_differ(inventory),
        bytes_can_be_counted(inventory),
    ensures
        ({
            let aged = overdue_removals(inventory, now, older_than);
            let queue = ranked::<CacheCandidate>(candidates(inventory, aged));
            let result = rule_removals(older_than, Some(limit), inventory, now);
            &&& 0 <= taken <= queue.len()
            &&& forall|id: Seq<char>|
                #![trigger has_key(result, id)]
                has_key(result, id) <==> has_key(aged, id) || exists|j: int|
                    0 <= j < taken && (#[trigger] queue[j]).id == id
            &&& bytes_left(inventory, result) <= limit || taken == queue.len()
            &&& taken > 0 ==> bytes_left(inventory, result) + queue[taken - 1].size > limit
        }),
{
    let aged = overdue_removals(inventory, now, older_than);
    let queue = ranked::<CacheCandidate>(candidates(inventory, aged));
    lemma_overdue(inventory, now, older_than, Seq::empty());
    lemma_queue(inventory, aged);
    lemma_split_bytes(inventory, aged);
    let total = capped(cache_bytes(inventory));
    let retained = bytes_left(inventory, aged) as u64;
    lemma_budget(queue, inventory, aged, retained, limit, total)
}

/// With a budget, whether or not there is an age, the known bytes of the records
/// that stay are within the budget, or every unreferenced record of known size
/// and known last use goes.
pub proof fn the_budget_is_met_or_nothing_is_left_to_go(
    older_than: Option<u64>,
    limit: u64,
    inventory: Seq<ItemView>,
    now: i64,
)
    requires
        records_differ(inventory),
        bytes_can_be_counted(inventory),
    ensures
        bytes_left(inventory, rule_removals(older_than, Some(limit), inventory, now)) <= limit
            || forall|k: int|
            0 <= k < inventory.len() && is_measured(#[trigger] inventory[k]) ==> has_key(
                rule_removals(older_than, Some(limit), inventory, now),
                inventory[k].id,
            ),
{
    let aged = overdue_removals(inventory, now, older_than);
    let listed = candidates(inventory, aged);
    let queue = ranked::<CacheCandidate>(listed);
    let result = rule_removals(older_than, Some(limit), inventory, now);
    let taken = lemma_rule(older_than, limit, inventory, now);
    if bytes_left(inventory, result) > limit {
        assert forall|k: int|
            0 <= k < inventory.len() && is_measured(#[trigger] inventory[k]) implies has_key(
            result,
            inventory[k].id,
        ) by {
            if !has_key(aged, inventory[k].id) {
                let m = lemma_listed_all(inventory, aged, k);
                lemma_ranked_keeps::<CacheCandidate>(listed, m);
                let j = choose|j: int| 0 <= j < queue.len() && queue[j] == listed[m];
                assert(queue[j].id == inventory[k].id);
            }
        }
    }
}

/// Every unreferenced record that has gone unused for the age goes, with or
/// without a budget.
pub proof fn overdue_records_go(
    older_than: Option<u64>,
    max_bytes: Option<u64>,
    inventory: Seq<ItemView>,
    now: i64,
    k: int,
)
    requires
        records_differ(inventory),
        bytes_can_be_counted(inventory),
        0 <= k < inventory.len(),
        is_overdue(inventory[k], now, older_than),
    ensures
        has_key(rule_removals(older_than, max_bytes, inventory, now), inventory[k].id),
{
    lemma_overdue(inventory, now, older_than, inventory[k].id);
    if max_bytes is Some {
        let taken = lemma_rule(older_than, max_bytes->0, inventory, now);
    }
}

/// Nothing else goes than what is overdue, and with a budget what is measured:
/// without a budget the age alone decides.
pub proof fn only_overdue_or_measured_records_go(
    older_than: Option<u64>,
    max_bytes: Option<u64>,
    inventory: Seq<ItemView>,
    now: i64,
    k: int,
)
    requires
        records_differ(inventory),
        bytes_can_be_counted(inventory),
        0 <= k < inventory.len(),
        inventory[k].kind == ResourceKind::BuildCache,
        has_key(rule_removals(older_than, max_bytes, inventory, now), inventory[k].id),
    ensures
        is_overdue(inventory[k], now, older_than) || max_bytes is Some && is_measured(inventory[k]),
{
    let id = inventory[k].id;
    let aged = overdue_removals(inventory, now, older_than);
    lemma_overdue(inventory, now, older_than, id);
    if has_key(aged, id) {
        let i = choose|i: int|
            0 <= i < inventory.len() && is_overdue(#[trigger] inventory[i], now, older_than)
                && inventory[i].id == id;
        if i != k {
            assert(inventory[i].id != inventory[k].id);
        }
    } else {
        let taken = lemma_rule(older_than, max_bytes->0, inventory, now);
        let queue = ranked::<CacheCandidate>(candidates(inventory, aged));
        let j = choose|j: int| 0 <= j < taken && (#[trigger] queue[j]).id == id;
        lemma_queue(inventory, aged);
        assert(is_candidate(inventory, queue[j]));
        let i = choose|i: int|
            0 <= i < inventory.len() && is_measured(#[trigger] inventory[i]) && inventory[i].id
                == queue[j].id && inventory[i].size->0 == queue[j].size;
        if i != k {
            assert(inventory[i].id != inventory[k].id);
        }
    }
}

proof fn lemma_in_queue(
    inventory: Seq<ItemView>,
    aged: Seq<(Seq<char>, Seq<char>)>,
    k: int,
) -> (place: int)
    requires
        0 <= k < inventory.len(),
        is_measured(inventory[k]),
        !has_key(aged, inventory[k].id),
    ensures
        ({
            let queue = ranked::<CacheCandidate>(candidates(inventory, aged));
            &&& 0 <= place < queue.len()
            &&& queue[place] == (CacheCandidateView {
                id: inventory[k].id,
                last_used: used_at(inventory[k])->0,
                size: inventory[k].size->0,
            })
        }),
{
    let listed = candidates(inventory, aged);
    let queue = ranked::<CacheCandidate>(listed);
    let m = lemma_listed_all(inventory, aged, k);
    lemma_ranked_keeps::<CacheCandidate>(listed, m);
    choose|j: int| 0 <= j < queue.len() && queue[j] == listed[m]
}

/// The budget takes the least recently used records first: where it takes one
/// that is not overdue, every measured record that was used before it goes too.
pub proof fn the_least_recently_used_go_first(
    older_than: Option<u64>,
    limit: u64,
    inventory: Seq<ItemView>,
    now: i64,
    earlier: int,
    later: int,
)
    requires
        records_differ(inventory),
        bytes_can_be_counted(inventory),
        0 <= earlier < inventory.len(),
        0 <= later < inventory.len(),
        is_measured(inventory[earlier]),
        inventory[later].kind == ResourceKind::BuildCache,
        has_key(rule_removals(older_than, Some(limit), inventory, now), inventory[later].id),
        !is_overdue(inventory[later], now, older_than),
        goes_before(inventory[earlier], inventory[later]),
    ensures
        has_key(rule_removals(older_than, Some(limit), inventory, now), inventory[earlier].id),
{
    let aged = overdue_removals(inventory, now, older_than);
    let queue = ranked::<CacheCandidate>(candidates(inventory, aged));
    let taken = lemma_rule(older_than, limit, inventory, now);
    only_overdue_or_measured_records_go(older_than, Some(limit), inventory, now, later);
    lemma_overdue(inventory, now, older_than, inventory[later].id);
    if has_key(aged, inventory[later].id) {
        let i = choose|i: int|
            0 <= i < inventory.len() && is_overdue(#[trigger] inventory[i], now, older_than)
                && inventory[i].id == inventory[later].id;
        assert(inventory[i].id != inventory[later].id);
    }
    if !has_key(aged, inventory[earlier].id) {
        let a = lemma_in_queue(inventory, aged, earlier);
        let b = lemma_in_queue(inventory, aged, later);
        lemma_queue(inventory, aged);
        let j = choose|j: int| 0 <= j < taken && (#[trigger] queue[j]).id == inventory[later].id;
        if j < b {
            assert(queue[j].id != queue[b].id);
        } else if b < j {
            assert(queue[b].id != queue[j].id);
        }
        lemma_ranked_is_sorted_permutation::<CacheCandidate>(candidates(inventory, aged));
        if b <= a {
            assert(CacheCandidate::ranks(queue[b], queue[a]));
        }
        assert(queue[a].id == inventory[earlier].id);
    }
}

/// The budget takes no more than it must: the last record that it takes was still
/// one too many.
pub proof fn the_budget_takes_no_more_than_it_must(
    older_than: Option<u64>,
    limit: u64,
    inventory: Seq<ItemView>,
    now: i64,
    last: int,
)
    requires
        records_differ(inventory),
        bytes_can_be_counted(inventory),
        0 <= last < inventory.len(),
        inventory[last].kind == ResourceKind::BuildCache,
        has_key(rule_removals(older_than, Some(limit), inventory, now), inventory[last].id),
        !is_overdue(inventory[last], now, older_than),
        forall|k: int|
            0 <= k < inventory.len() && k != last && is_measured(#[trigger] inventory[k])
                && !is_overdue(inventory[k], now, older_than) && has_key(
                rule_removals(older_than, Some(limit), inventory, now),
                inventory[k].id,
            ) ==> !goes_before(inventory[last], inventory[k]),
    ensures
        bytes_left(inventory, rule_removals(older_than, Some(limit), inventory, now))
            + inventory[last].size->0 > limit,
{
    let aged = overdue_removals(inventory, now, older_than);
    let listed = candidates(inventory, aged);
    let queue = ranked::<CacheCandidate>(listed);
    let result = rule_removals(older_than, Some(limit), inventory, now);
    let taken = lemma_rule(older_than, limit, inventory, now);
    only_overdue_or_measured_records_go(older_than, Some(limit), inventory, now, last);
    lemma_overdue(inventory, now, older_than, inventory[last].id);
    if has_key(aged, inventory[last].id) {
        let i = choose|i: int|
            0 <= i < inventory.len() && is_overdue(#[trigger] inventory[i], now, older_than)
                && inventory[i].id == inventory[last].id;
        assert(inventory[i].id != inventory[last].id);
    }
    let b = lemma_in_queue(inventory, aged, last);
    lemma_queue(inventory, aged);
    let j = choose|j: int| 0 <= j < taken && (#[trigger] queue[j]).id == inventory[last].id;
    if j < b {
        assert(queue[j].id != queue[b].id);
    } else if b < j {
        assert(queue[b].id != queue[j].id);
    }
    let top = taken - 1;
    if top != b {
        lemma_ranked_holds::<CacheCandidate>(listed, top);
        let m = choose|m: int| 0 <= m < listed.len() && listed[m] == queue[top];
        let k = lemma_listed(inventory, aged, m);
        assert(queue[b].id != queue[top].id);
        lemma_ranked_is_sorted_permutation::<CacheCandidate>(listed);
        assert(CacheCandidate::ranks(queue[b], queue[top]));
        lemma_overdue(inventory, now, older_than, inventory[k].id);
        assert(has_key(result, inventory[k].id)) by {
            assert(queue[top].id == inventory[k].id);
        }
        crate::order::lemma_text_lt_total(queue[b].id, queue[top].id);
        assert(goes_before(inventory[last], inventory[k]));
    }
}

} // verus!
