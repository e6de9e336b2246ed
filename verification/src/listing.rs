//! A plan depends on which resources there are, not on the order in which they
//! were listed.

use crate::cache::{
    age_reason, aged_removals, cache_bytes, candidates, known_size, last_use, may_go, rule_removals,
    selected_bytes, too_old, CacheCandidate, CacheCandidateView,
};
use crate::config::{Config, ConfigView};
use crate::duration::age_of;
use crate::guarantees::{lemma_aged, removals_are_owned_or_authorized};
use crate::order::{
    lemma_mapped_multiset, lemma_matched_last, lemma_ranked_same, lemma_same_contents,
    lemma_text_lt_irreflexive, lemma_text_lt_total, lemma_text_lt_transitive, ranked, text_lt,
    Ranked,
};
use crate::plan::{
    build_plan_with_context, decisions_for, plan_for, ContextView, Decision, Plan, PlanContext,
    PlanError,
};
use crate::policy::{cache_removals, decision_for, policy_of};
use crate::resource::{InventoryItem, ItemView, ResourceKind};
use crate::text::views;
use crate::text_map::{has_key, lemma_put, lemma_same_pairs, value_of};
use vstd::multiset::Multiset;
use vstd::prelude::*;

verus! {

/// Whether a kind and an id tell the resources of an inventory apart.
pub open spec fn told_apart(inventory: Seq<ItemView>) -> bool {
    forall|i: int, j: int|
        0 <= i < inventory.len() && 0 <= j < inventory.len() && inventory[i].kind
            == inventory[j].kind && inventory[i].id == inventory[j].id ==> #[trigger] inventory[i]
            == #[trigger] inventory[j]
}

spec fn weighed(items: Seq<ItemView>, weight: spec_fn(ItemView) -> nat) -> nat
    decreases items.len(),
{
    if items.len() == 0 {
        0
    } else {
        weighed(items.drop_last(), weight) + weight(items.last())
    }
}

proof fn lemma_weighed_without(items: Seq<ItemView>, weight: spec_fn(ItemView) -> nat, place: int)
    requires
        0 <= place < items.len(),
    ensures
        weighed(items, weight) == weighed(items.remove(place), weight) + weight(items[place]),
    decreases items.len(),
{
    let rest = items.remove(place);
    if place == items.len() - 1 {
        assert(rest =~= items.drop_last());
    } else {
        lemma_weighed_without(items.drop_last(), weight, place);
        assert(rest.drop_last() =~= items.drop_last().remove(place));
        assert(rest.last() == items.last());
    }
}

proof fn lemma_weighed_same(
    left: Seq<ItemView>,
    right: Seq<ItemView>,
    weight: spec_fn(ItemView) -> nat,
)
    requires
        left.to_multiset() == right.to_multiset(),
    ensures
        weighed(left, weight) == weighed(right, weight),
    decreases left.len(),
{
    broadcast use vstd::seq_lib::group_to_multiset_ensures;

    if left.len() == 0 {
        assert(right.to_multiset().len() == 0);
        assert(right =~= left);
    } else {
        let place = lemma_matched_last(left, right);
        lemma_weighed_same(left.drop_last(), right.remove(place), weight);
        lemma_weighed_without(right, weight, place);
    }
}

spec fn cache_weight() -> spec_fn(ItemView) -> nat {
    |item: ItemView|
        if item.kind == ResourceKind::BuildCache {
            known_size(item)
        } else {
            0
        }
}

spec fn selected_weight(removals: Seq<(Seq<char>, Seq<char>)>) -> spec_fn(ItemView) -> nat {
    |item: ItemView|
        if item.kind == ResourceKind::BuildCache && has_key(removals, item.id) {
            known_size(item)
        } else {
            0
        }
}

proof fn lemma_bytes_weighed(inventory: Seq<ItemView>, removals: Seq<(Seq<char>, Seq<char>)>)
    ensures
        cache_bytes(inventory) == weighed(inventory, cache_weight()),
        selected_bytes(inventory, removals) == weighed(inventory, selected_weight(removals)),
    decreases inventory.len(),
{
    if inventory.len() > 0 {
        lemma_bytes_weighed(inventory.drop_last(), removals);
    }
}

spec fn reason_of(item: ItemView, now: i64, threshold: u64) -> Seq<char> {
    age_reason(age_of(now, last_use(item)).unwrap(), threshold)
}

proof fn lemma_aged_reason(inventory: Seq<ItemView>, now: i64, threshold: u64, index: int)
    requires
        told_apart(inventory),
        0 <= index < inventory.len(),
        too_old(inventory[index], now, threshold),
    ensures
        value_of(aged_removals(inventory, now, threshold), inventory[index].id) == Some(
            reason_of(inventory[index], now, threshold),
        ),
    decreases inventory.len(),
{
    let rest = inventory.drop_last();
    let end = inventory.len() - 1;
    let item = inventory[end];
    let before = aged_removals(rest, now, threshold);
    lemma_aged(rest, now, threshold, item.id);
    assert forall|i: int, j: int|
        0 <= i < rest.len() && 0 <= j < rest.len() && rest[i].kind == rest[j].kind && rest[i].id
            == rest[j].id implies #[trigger] rest[i] == #[trigger] rest[j] by {
        assert(inventory[i] == inventory[j]);
    }
    if too_old(item, now, threshold) {
        lemma_put(before, item.id, reason_of(item, now, threshold), inventory[index].id);
        if inventory[index].id == item.id {
            assert(inventory[index] == inventory[end]);
        } else {
            assert(rest[index] == inventory[index]);
            lemma_aged_reason(rest, now, threshold, index);
        }
    } else {
        assert(rest[index] == inventory[index]);
        lemma_aged_reason(rest, now, threshold, index);
    }
}

proof fn lemma_aged_found(
    left: Seq<ItemView>,
    right: Seq<ItemView>,
    now: i64,
    threshold: u64,
    key: Seq<char>,
)
    requires
        left.to_multiset() == right.to_multiset(),
        told_apart(left),
        told_apart(right),
        has_key(aged_removals(left, now, threshold), key),
    ensures
        value_of(aged_removals(left, now, threshold), key) == value_of(
            aged_removals(right, now, threshold),
            key,
        ),
{
    lemma_aged(left, now, threshold, key);
    let i = choose|i: int|
        0 <= i < left.len() && too_old(#[trigger] left[i], now, threshold) && left[i].id == key;
    lemma_same_contents(left, right, i);
    let j = choose|j: int| 0 <= j < right.len() && right[j] == left[i];
    lemma_aged_reason(left, now, threshold, i);
    lemma_aged_reason(right, now, threshold, j);
}

proof fn lemma_told_apart_same(left: Seq<ItemView>, right: Seq<ItemView>)
    requires
        left.to_multiset() == right.to_multiset(),
        told_apart(left),
    ensures
        told_apart(right),
{
    assert forall|i: int, j: int|
        0 <= i < right.len() && 0 <= j < right.len() && right[i].kind == right[j].kind
            && right[i].id == right[j].id implies #[trigger] right[i] == #[trigger] right[j] by {
        lemma_same_contents(right, left, i);
        lemma_same_contents(right, left, j);
        let a = choose|a: int| 0 <= a < left.len() && left[a] == right[i];
        let b = choose|b: int| 0 <= b < left.len() && left[b] == right[j];
        assert(left[a] == left[b]);
    }
}

proof fn lemma_aged_same(left: Seq<ItemView>, right: Seq<ItemView>, now: i64, threshold: u64)
    requires
        left.to_multiset() == right.to_multiset(),
        told_apart(left),
    ensures
        aged_removals(left, now, threshold) == aged_removals(right, now, threshold),
{
    let l = aged_removals(left, now, threshold);
    let r = aged_removals(right, now, threshold);
    lemma_told_apart_same(left, right);
    lemma_aged(left, now, threshold, Seq::empty());
    lemma_aged(right, now, threshold, Seq::empty());
    assert forall|key: Seq<char>| #[trigger] value_of(l, key) == value_of(r, key) by {
        if has_key(l, key) {
            lemma_aged_found(left, right, now, threshold, key);
        } else if has_key(r, key) {
            lemma_aged_found(right, left, now, threshold, key);
        }
    }
    lemma_same_pairs(l, r);
}

spec fn candidate_of(item: ItemView) -> CacheCandidateView {
    CacheCandidateView {
        id: item.id,
        last_used: last_use(item).unwrap(),
        size: item.size.unwrap(),
    }
}

spec fn offered(item: ItemView, removals: Seq<(Seq<char>, Seq<char>)>) -> Multiset<
    CacheCandidateView,
> {
    if may_go(item, removals) {
        Multiset::singleton(candidate_of(item))
    } else {
        Multiset::empty()
    }
}

proof fn lemma_candidates_grow(inventory: Seq<ItemView>, removals: Seq<(Seq<char>, Seq<char>)>)
    requires
        inventory.len() > 0,
    ensures
        candidates(inventory, removals).to_multiset() == candidates(
            inventory.drop_last(),
            removals,
        ).to_multiset().add(offered(inventory.last(), removals)),
{
    let before = candidates(inventory.drop_last(), removals);
    let item = inventory.last();
    if may_go(item, removals) {
        vstd::seq_lib::to_multiset_build(before, candidate_of(item));
        assert(candidates(inventory, removals) == before.push(candidate_of(item)));
    }
    assert(candidates(inventory, removals).to_multiset() =~= before.to_multiset().add(
        offered(item, removals),
    ));
}

proof fn lemma_candidates_without(
    inventory: Seq<ItemView>,
    removals: Seq<(Seq<char>, Seq<char>)>,
    place: int,
)
    requires
        0 <= place < inventory.len(),
    ensures
        candidates(inventory, removals).to_multiset() == candidates(
            inventory.remove(place),
            removals,
        ).to_multiset().add(offered(inventory[place], removals)),
    decreases inventory.len(),
{
    let rest = inventory.remove(place);
    lemma_candidates_grow(inventory, removals);
    if place == inventory.len() - 1 {
        assert(rest =~= inventory.drop_last());
    } else {
        lemma_candidates_without(inventory.drop_last(), removals, place);
        assert(rest.drop_last() =~= inventory.drop_last().remove(place));
        assert(rest.last() == inventory.last());
        lemma_candidates_grow(rest, removals);
        assert(candidates(inventory, removals).to_multiset() =~= candidates(
            rest,
            removals,
        ).to_multiset().add(offered(inventory[place], removals)));
    }
}

proof fn lemma_candidates_same(
    left: Seq<ItemView>,
    right: Seq<ItemView>,
    removals: Seq<(Seq<char>, Seq<char>)>,
)
    requires
        left.to_multiset() == right.to_multiset(),
    ensures
        candidates(left, removals).to_multiset() == candidates(right, removals).to_multiset(),
    decreases left.len(),
{
    broadcast use vstd::seq_lib::group_to_multiset_ensures;

    if left.len() == 0 {
        assert(right.to_multiset().len() == 0);
        assert(right =~= left);
    } else {
        let place = lemma_matched_last(left, right);
        lemma_candidates_same(left.drop_last(), right.remove(place), removals);
        lemma_candidates_grow(left, removals);
        lemma_candidates_without(right, removals, place);
    }
}

proof fn lemma_candidate_source(
    inventory: Seq<ItemView>,
    removals: Seq<(Seq<char>, Seq<char>)>,
    index: int,
) -> (source: int)
    requires
        0 <= index < candidates(inventory, removals).len(),
    ensures
        0 <= source < inventory.len(),
        inventory[source].kind == ResourceKind::BuildCache,
        candidates(inventory, removals)[index] == candidate_of(inventory[source]),
    decreases inventory.len(),
{
    let before = candidates(inventory.drop_last(), removals);
    if index < before.len() {
        lemma_candidate_source(inventory.drop_last(), removals, index)
    } else {
        inventory.len() - 1
    }
}

proof fn lemma_queue_same(
    left: Seq<ItemView>,
    right: Seq<ItemView>,
    removals: Seq<(Seq<char>, Seq<char>)>,
)
    requires
        left.to_multiset() == right.to_multiset(),
        told_apart(left),
    ensures
        ranked::<CacheCandidate>(candidates(left, removals))
            == ranked::<CacheCandidate>(candidates(right, removals)),
{
    let queue = candidates(left, removals);
    lemma_candidates_same(left, right, removals);
    assert forall|i: int, j: int|
        0 <= i < queue.len() && 0 <= j < queue.len() && CacheCandidate::ranks(queue[i], queue[j])
            && CacheCandidate::ranks(queue[j], queue[i]) implies #[trigger] queue[i]
        == #[trigger] queue[j] by {
        let a = lemma_candidate_source(left, removals, i);
        let b = lemma_candidate_source(left, removals, j);
        lemma_text_lt_total(queue[i].id, queue[j].id);
        assert(left[a].id == left[b].id);
        assert(left[a] == left[b]);
    }
    lemma_ranked_same::<CacheCandidate>(queue, candidates(right, removals));
}

proof fn lemma_removals_same(
    older_than: Option<u64>,
    max_bytes: Option<u64>,
    left: Seq<ItemView>,
    right: Seq<ItemView>,
    now: i64,
)
    requires
        left.to_multiset() == right.to_multiset(),
        told_apart(left),
    ensures
        rule_removals(older_than, max_bytes, left, now) == rule_removals(
            older_than,
            max_bytes,
            right,
            now,
        ),
{
    let aged = match older_than {
        Some(threshold) => aged_removals(left, now, threshold),
        None => Seq::empty(),
    };
    if older_than is Some {
        lemma_aged_same(left, right, now, older_than.unwrap());
    }
    lemma_bytes_weighed(left, aged);
    lemma_bytes_weighed(right, aged);
    lemma_weighed_same(left, right, cache_weight());
    lemma_weighed_same(left, right, selected_weight(aged));
    lemma_queue_same(left, right, aged);
}

/// The plan for two listings of the same resources is the same, whatever the
/// order in which each lists them.
pub proof fn plans_do_not_depend_on_the_listing(
    config: ConfigView,
    left: Seq<ItemView>,
    right: Seq<ItemView>,
    now: i64,
    context: ContextView,
)
    requires
        left.to_multiset() == right.to_multiset(),
        told_apart(left),
    ensures
        cache_removals(policy_of(config), left, now) == cache_removals(
            policy_of(config),
            right,
            now,
        ),
        plan_for(config, left, now, context) == plan_for(config, right, now, context),
{
    let policy = policy_of(config);
    if policy.build_cache is Some {
        let rule = policy.build_cache.unwrap();
        lemma_removals_same(rule.older_than, rule.max_bytes, left, right, now);
    }
    let removals = cache_removals(policy, left, now);
    let decide = |item: ItemView| decision_for(policy, item, now, removals, context);
    let l = decisions_for(config, left, now, context);
    let r = decisions_for(config, right, now, context);
    assert(l =~= left.map_values(decide));
    assert(r =~= right.map_values(decide));
    lemma_mapped_multiset(left, right, decide);
    assert forall|i: int, j: int|
        0 <= i < l.len() && 0 <= j < l.len() && Decision::ranks(l[i], l[j]) && Decision::ranks(
            l[j],
            l[i],
        ) implies #[trigger] l[i] == #[trigger] l[j] by {
        removals_are_owned_or_authorized(policy, left[i], now, removals, context);
        removals_are_owned_or_authorized(policy, left[j], now, removals, context);
        lemma_text_lt_total(left[i].name, left[j].name);
        lemma_text_lt_total(left[i].id, left[j].id);
        if text_lt(left[i].name, left[j].name) && text_lt(left[j].name, left[i].name) {
            lemma_text_lt_transitive(left[i].name, left[j].name, left[i].name);
            lemma_text_lt_irreflexive(left[i].name);
        }
        assert(left[i] == left[j]);
    }
    lemma_ranked_same::<Decision>(l, r);
}

/// Evaluating a configuration against two listings of the same resources gives
/// the same plan, or the same error, whatever the order of each listing.
pub proof fn evaluations_do_not_depend_on_the_listing<'a>(
    config: Config,
    left: Vec<InventoryItem>,
    right: Vec<InventoryItem>,
    now: i64,
    context: PlanContext<'a>,
    first: Result<Plan, PlanError>,
    second: Result<Plan, PlanError>,
)
    requires
        views(left@).to_multiset() == views(right@).to_multiset(),
        told_apart(views(left@)),
        call_ensures(build_plan_with_context, (&config, left, now, &context), first),
        call_ensures(build_plan_with_context, (&config, right, now, &context), second),
    ensures
        match (first, second) {
            (Ok(one), Ok(other)) => one@ == other@,
            (Err(one), Err(other)) => one@ == other@,
            _ => false,
        },
{
    plans_do_not_depend_on_the_listing(config@, views(left@), views(right@), now, context@);
}

} // verus!
