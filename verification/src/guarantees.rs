//! What holds of every plan, whatever the configuration and the inventory.

use crate::cache::{
    aged_removals, budget_reason, candidates, last_use, may_go, rule_removals, too_old,
    within_budget, CacheCandidate, CacheCandidateView,
};
use crate::config::{default_rules, ConfigView};
use crate::duration::age_of;
use crate::observation::{
    carried_clock, empty_observations, entry_for, next_record, observation_of, observations_of,
    observed_age, observed_kind, ObservationEntry, ObservationEntryView, ObservedKind,
};
use crate::order::{
    in_rank_order, lemma_ranked_holds, lemma_ranked_is_sorted_permutation, ranked,
};
use crate::plan::{
    decisions_for, plan_for, removals_of, Action, ContextView, Decision, DecisionView,
    Disposition,
};
use crate::policy::{
    cache_removals, decide_container, decide_image, decide_network_rules, decide_volume,
    decision_for, policy_of, selection_reason, CompiledContainerView, CompiledImageView,
    CompiledNetworkView, CompiledVolumeView, PolicyView,
};
use crate::resource::{ItemView, ResourceKind};
use crate::state::protection_reason;
use crate::text_map::{has_key, keys_ascend, lemma_put, put, value_of};
use crate::unique::lemma_ordered_once;
use vstd::prelude::*;

verus! {

/// Whether an item is protected, by runtime state or by the configuration.
pub open spec fn is_protected(policy: PolicyView, item: ItemView, context: ContextView) -> bool {
    protection_reason(context.protection.entries, item) is Some || selection_reason(
        policy.protection,
        item,
    ) is Some
}

/// A protected resource is kept, whatever rule would select it.
pub proof fn protection_wins_over_every_rule(
    policy: PolicyView,
    item: ItemView,
    now: i64,
    removals: Seq<(Seq<char>, Seq<char>)>,
    context: ContextView,
)
    requires
        is_protected(policy, item, context),
    ensures
        decision_for(policy, item, now, removals, context).action == Action::Keep,
        decision_for(policy, item, now, removals, context).disposition == Disposition::Protected,
{
}

/// What holds of any decision: it speaks of its item; a removal names its rule
/// and stands on ownership or on explicit authorization.
pub open spec fn sound(decision: DecisionView, item: ItemView) -> bool {
    &&& decision.resource == item
    &&& decision.action == Action::Remove ==> {
        &&& decision.matched_rule is Some
        &&& decision.disposition == Disposition::Owned || decision.disposition
            == Disposition::AuthorizedUnscoped
    }
}

proof fn lemma_container_sound(rules: Seq<CompiledContainerView>, item: ItemView, now: i64)
    ensures
        sound(decide_container(rules, item, now), item),
    decreases rules.len(),
{
    if rules.len() > 0 {
        lemma_container_sound(rules.drop_first(), item, now);
    }
}

proof fn lemma_image_sound(rules: Seq<CompiledImageView>, item: ItemView, age: Option<u64>)
    ensures
        sound(decide_image(rules, item, age), item),
        decide_image(rules, item, age).action == Action::Remove ==> !item.referenced && age is Some,
    decreases rules.len(),
{
    if rules.len() > 0 {
        lemma_image_sound(rules.drop_first(), item, age);
    }
}

proof fn lemma_volume_sound(rules: Seq<CompiledVolumeView>, item: ItemView, age: Option<u64>)
    ensures
        sound(decide_volume(rules, item, age), item),
        decide_volume(rules, item, age).action == Action::Remove ==> !item.referenced && age is Some,
    decreases rules.len(),
{
    if rules.len() > 0 {
        lemma_volume_sound(rules.drop_first(), item, age);
    }
}

proof fn lemma_network_sound(rules: Seq<CompiledNetworkView>, item: ItemView, age: Option<u64>)
    ensures
        sound(decide_network_rules(rules, item, age), item),
        decide_network_rules(rules, item, age).action == Action::Remove ==> !item.referenced
            && age is Some,
    decreases rules.len(),
{
    if rules.len() > 0 {
        lemma_network_sound(rules.drop_first(), item, age);
    }
}

/// A resource that no rule selects, and a protected one, is never removed; a
/// removal names its rule and stands on ownership or on explicit
/// authorization.
pub proof fn removals_are_owned_or_authorized(
    policy: PolicyView,
    item: ItemView,
    now: i64,
    removals: Seq<(Seq<char>, Seq<char>)>,
    context: ContextView,
)
    ensures
        sound(decision_for(policy, item, now, removals, context), item),
{
    let age = observed_age(context.observations.entries, item, now);
    lemma_container_sound(policy.containers, item, now);
    lemma_image_sound(policy.images, item, age);
    lemma_volume_sound(policy.volumes, item, age);
    lemma_network_sound(policy.networks, item, age);
}

/// A referenced image, volume, network or build-cache record is never removed.
pub proof fn referenced_resources_are_kept(
    policy: PolicyView,
    item: ItemView,
    now: i64,
    removals: Seq<(Seq<char>, Seq<char>)>,
    context: ContextView,
)
    requires
        item.referenced,
        item.kind != ResourceKind::Container,
    ensures
        decision_for(policy, item, now, removals, context).action == Action::Keep,
{
    let age = observed_age(context.observations.entries, item, now);
    lemma_image_sound(policy.images, item, age);
    lemma_volume_sound(policy.volumes, item, age);
    lemma_network_sound(policy.networks, item, age);
}

/// A network that Docker made itself is kept.
pub proof fn system_networks_are_kept(
    policy: PolicyView,
    item: ItemView,
    now: i64,
    removals: Seq<(Seq<char>, Seq<char>)>,
    context: ContextView,
)
    requires
        item.kind == ResourceKind::Network,
        item.system,
    ensures
        decision_for(policy, item, now, removals, context).action == Action::Keep,
        decision_for(policy, item, now, removals, context).disposition == Disposition::Protected,
{
}

/// Without an observed age nothing that is measured by observation is removed.
pub proof fn unmeasured_resources_are_kept(
    policy: PolicyView,
    item: ItemView,
    now: i64,
    removals: Seq<(Seq<char>, Seq<char>)>,
    context: ContextView,
)
    requires
        observed_kind(item.kind) is Some,
        observed_age(context.observations.entries, item, now) is None,
    ensures
        decision_for(policy, item, now, removals, context).action == Action::Keep,
{
    lemma_image_sound(policy.images, item, None);
    lemma_volume_sound(policy.volumes, item, None);
    lemma_network_sound(policy.networks, item, None);
}

/// Without durable observations no image, volume or network is removed.
pub proof fn nothing_is_removed_without_observations(
    policy: PolicyView,
    item: ItemView,
    now: i64,
    removals: Seq<(Seq<char>, Seq<char>)>,
    context: ContextView,
)
    requires
        observed_kind(item.kind) is Some,
        context.observations == empty_observations(),
    ensures
        decision_for(policy, item, now, removals, context).action == Action::Keep,
{
    assert(observed_age(context.observations.entries, item, now) is None);
    unmeasured_resources_are_kept(policy, item, now, removals, context);
}

/// Whether every observed-age floor of a policy is at least `seconds`.
pub open spec fn floors_at_least(policy: PolicyView, seconds: u64) -> bool {
    &&& forall|i: int|
        0 <= i < policy.images.len() ==> match (#[trigger] policy.images[i]).unused_for {
            Some(floor) => floor >= seconds,
            None => true,
        }
    &&& forall|i: int|
        0 <= i < policy.volumes.len() ==> match (#[trigger] policy.volumes[i]).orphan_for {
            Some(floor) => floor >= seconds,
            None => true,
        }
    &&& forall|i: int|
        0 <= i < policy.networks.len() ==> match (#[trigger] policy.networks[i]).orphan_for {
            Some(floor) => floor >= seconds,
            None => true,
        }
}

proof fn lemma_image_below_floor(rules: Seq<CompiledImageView>, item: ItemView, age: u64)
    requires
        forall|i: int|
            0 <= i < rules.len() ==> match (#[trigger] rules[i]).unused_for {
                Some(floor) => floor > age || age == 0,
                None => true,
            },
    ensures
        decide_image(rules, item, Some(age)).action == Action::Keep,
    decreases rules.len(),
{
    if rules.len() > 0 {
        let rest = rules.drop_first();
        assert forall|i: int| 0 <= i < rest.len() implies match (#[trigger] rest[i]).unused_for {
            Some(floor) => floor > age || age == 0,
            None => true,
        } by {
            assert(rest[i] == rules[i + 1]);
        }
        lemma_image_below_floor(rest, item, age);
        assert(match rules[0].unused_for {
            Some(floor) => floor > age || age == 0,
            None => true,
        });
    }
}

proof fn lemma_volume_below_floor(rules: Seq<CompiledVolumeView>, item: ItemView, age: u64)
    requires
        forall|i: int|
            0 <= i < rules.len() ==> match (#[trigger] rules[i]).orphan_for {
                Some(floor) => floor > age || age == 0,
                None => true,
            },
    ensures
        decide_volume(rules, item, Some(age)).action == Action::Keep,
    decreases rules.len(),
{
    if rules.len() > 0 {
        let rest = rules.drop_first();
        assert forall|i: int| 0 <= i < rest.len() implies match (#[trigger] rest[i]).orphan_for {
            Some(floor) => floor > age || age == 0,
            None => true,
        } by {
            assert(rest[i] == rules[i + 1]);
        }
        lemma_volume_below_floor(rest, item, age);
        assert(match rules[0].orphan_for {
            Some(floor) => floor > age || age == 0,
            None => true,
        });
    }
}

proof fn lemma_network_below_floor(rules: Seq<CompiledNetworkView>, item: ItemView, age: u64)
    requires
        forall|i: int|
            0 <= i < rules.len() ==> match (#[trigger] rules[i]).orphan_for {
                Some(floor) => floor > age || age == 0,
                None => true,
            },
    ensures
        decide_network_rules(rules, item, Some(age)).action == Action::Keep,
    decreases rules.len(),
{
    if rules.len() > 0 {
        let rest = rules.drop_first();
        assert forall|i: int| 0 <= i < rest.len() implies match (#[trigger] rest[i]).orphan_for {
            Some(floor) => floor > age || age == 0,
            None => true,
        } by {
            assert(rest[i] == rules[i + 1]);
        }
        lemma_network_below_floor(rest, item, age);
        assert(match rules[0].orphan_for {
            Some(floor) => floor > age || age == 0,
            None => true,
        });
    }
}

/// A resource seen unreferenced for less time than every floor is kept.
pub proof fn floors_are_waited_for(
    policy: PolicyView,
    item: ItemView,
    now: i64,
    removals: Seq<(Seq<char>, Seq<char>)>,
    context: ContextView,
    seconds: u64,
)
    requires
        observed_kind(item.kind) is Some,
        floors_at_least(policy, seconds),
        match observed_age(context.observations.entries, item, now) {
            Some(age) => age < seconds,
            None => true,
        },
    ensures
        decision_for(policy, item, now, removals, context).action == Action::Keep,
{
    match observed_age(context.observations.entries, item, now) {
        Some(age) => {
            lemma_image_below_floor(policy.images, item, age);
            lemma_volume_below_floor(policy.volumes, item, age);
            lemma_network_below_floor(policy.networks, item, age);
        },
        None => {
            unmeasured_resources_are_kept(policy, item, now, removals, context);
        },
    }
}

/// Whether an item stands alone under its kind and id.
pub open spec fn stands_alone(inventory: Seq<ItemView>, index: int) -> bool {
    forall|i: int|
        0 <= i < inventory.len() && i != index ==> (#[trigger] inventory[i]).kind
            != inventory[index].kind || inventory[i].id != inventory[index].id
}

/// An entry is observed exactly when some item gives it.
pub proof fn lemma_observations_contain(
    entries: Seq<ObservationEntryView>,
    inventory: Seq<ItemView>,
    now: i64,
    entry: ObservationEntryView,
)
    ensures
        observations_of(entries, inventory, now).contains(entry) == exists|i: int|
            0 <= i < inventory.len() && observation_of(entries, #[trigger] inventory[i], now)
                == Some(entry),
    decreases inventory.len(),
{
    if inventory.len() > 0 {
        let rest = inventory.drop_last();
        let before = observations_of(entries, rest, now);
        let after = observations_of(entries, inventory, now);
        lemma_observations_contain(entries, rest, now, entry);
        if exists|i: int|
            0 <= i < inventory.len() && observation_of(entries, #[trigger] inventory[i], now)
                == Some(entry) {
            let i = choose|i: int|
                0 <= i < inventory.len() && observation_of(entries, #[trigger] inventory[i], now)
                    == Some(entry);
            if i < rest.len() {
                assert(rest[i] == inventory[i]);
                assert(before.contains(entry));
                let k = choose|k: int| 0 <= k < before.len() && before[k] == entry;
                assert(after[k] == entry);
            } else {
                assert(after[before.len() as int] == entry);
            }
        }
        if after.contains(entry) {
            let k = choose|k: int| 0 <= k < after.len() && after[k] == entry;
            if k < before.len() {
                assert(before[k] == entry);
                let i = choose|i: int|
                    0 <= i < rest.len() && observation_of(entries, #[trigger] rest[i], now)
                        == Some(entry);
                assert(inventory[i] == rest[i]);
            } else {
                assert(inventory[inventory.len() - 1] == inventory.last());
            }
        }
    }
}

proof fn lemma_entry_found(
    entries: Seq<ObservationEntryView>,
    kind: ObservedKind,
    id: Seq<char>,
    entry: ObservationEntryView,
)
    requires
        entries.contains(entry),
        entry.kind == kind,
        entry.id == id,
        forall|i: int|
            0 <= i < entries.len() && (#[trigger] entries[i]).kind == kind && entries[i].id == id
                ==> entries[i] == entry,
    ensures
        entry_for(entries, kind, id) == Some(entry),
    decreases entries.len(),
{
    let k = choose|k: int| 0 <= k < entries.len() && entries[k] == entry;
    if entries[0].kind == kind && entries[0].id == id {
    } else {
        let rest = entries.drop_first();
        assert(rest[k - 1] == entry);
        assert forall|i: int|
            0 <= i < rest.len() && (#[trigger] rest[i]).kind == kind && rest[i].id
                == id implies rest[i] == entry by {
            assert(entries[i + 1] == rest[i]);
        }
        lemma_entry_found(rest, kind, id, entry);
    }
}

proof fn lemma_entry_missing(entries: Seq<ObservationEntryView>, kind: ObservedKind, id: Seq<char>)
    requires
        forall|i: int|
            0 <= i < entries.len() ==> (#[trigger] entries[i]).kind != kind || entries[i].id != id,
    ensures
        entry_for(entries, kind, id) is None,
    decreases entries.len(),
{
    if entries.len() > 0 {
        let rest = entries.drop_first();
        assert(entries[0].kind != kind || entries[0].id != id);
        assert forall|i: int| 0 <= i < rest.len() implies (#[trigger] rest[i]).kind != kind
            || rest[i].id != id by {
            assert(entries[i + 1] == rest[i]);
        }
        lemma_entry_missing(rest, kind, id);
    }
}

/// The next record holds the clock of an unreferenced resource: the one it
/// carries on, or one that starts now.
pub proof fn unreferenced_resources_keep_their_clock(
    entries: Seq<ObservationEntryView>,
    inventory: Seq<ItemView>,
    now: i64,
    index: int,
)
    requires
        0 <= index < inventory.len(),
        observed_kind(inventory[index].kind) is Some,
        !inventory[index].referenced,
        stands_alone(inventory, index),
    ensures
        carried_clock(next_record(entries, inventory, now).entries, inventory[index]) == Some(
            match carried_clock(entries, inventory[index]) {
                Some(since) => since,
                None => now,
            },
        ),
{
    let item = inventory[index];
    let kind = observed_kind(item.kind).unwrap();
    let entry = observation_of(entries, item, now).unwrap();
    let listed = observations_of(entries, inventory, now);
    let next = next_record(entries, inventory, now).entries;
    lemma_observations_contain(entries, inventory, now, entry);
    lemma_ordered_once::<ObservationEntry>(listed);
    assert(listed.contains(entry));
    assert(next.contains(entry));
    assert forall|i: int|
        0 <= i < next.len() && (#[trigger] next[i]).kind == kind && next[i].id
            == item.id implies next[i] == entry by {
        assert(next.contains(next[i]));
        assert(listed.contains(next[i]));
        lemma_observations_contain(entries, inventory, now, next[i]);
        let k = choose|k: int|
            0 <= k < inventory.len() && observation_of(entries, #[trigger] inventory[k], now)
                == Some(next[i]);
        assert(k == index);
    }
    lemma_entry_found(next, kind, item.id, entry);
}

/// A resource that is seen unreferenced for the first time, or whose identity
/// was reused, has age zero, and the pass that starts its clock keeps it.
pub proof fn first_observation_never_removes(
    config: ConfigView,
    entries: Seq<ObservationEntryView>,
    inventory: Seq<ItemView>,
    now: i64,
    index: int,
    removals: Seq<(Seq<char>, Seq<char>)>,
    context: ContextView,
)
    requires
        0 <= index < inventory.len(),
        observed_kind(inventory[index].kind) is Some,
        !inventory[index].referenced,
        stands_alone(inventory, index),
        carried_clock(entries, inventory[index]) is None,
        context.observations == next_record(entries, inventory, now),
    ensures
        observed_age(context.observations.entries, inventory[index], now) == Some(0u64),
        decision_for(policy_of(config), inventory[index], now, removals, context).action
            == Action::Keep,
{
    unreferenced_resources_keep_their_clock(entries, inventory, now, index);
    lemma_image_below_floor(policy_of(config).images, inventory[index], 0);
    lemma_volume_below_floor(policy_of(config).volumes, inventory[index], 0);
    lemma_network_below_floor(policy_of(config).networks, inventory[index], 0);
}

/// A resource that is referenced, or gone, has no clock in the next record.
pub proof fn reattached_and_vanished_resources_lose_their_clock(
    entries: Seq<ObservationEntryView>,
    inventory: Seq<ItemView>,
    now: i64,
    item: ItemView,
)
    requires
        observed_kind(item.kind) is Some,
        forall|i: int|
            0 <= i < inventory.len() && (#[trigger] inventory[i]).kind == item.kind
                && inventory[i].id == item.id ==> inventory[i].referenced,
    ensures
        carried_clock(next_record(entries, inventory, now).entries, item) is None,
{
    let kind = observed_kind(item.kind).unwrap();
    let listed = observations_of(entries, inventory, now);
    let next = next_record(entries, inventory, now).entries;
    lemma_ordered_once::<ObservationEntry>(listed);
    assert forall|i: int| 0 <= i < next.len() implies (#[trigger] next[i]).kind != kind
        || next[i].id != item.id by {
        assert(next.contains(next[i]));
        assert(listed.contains(next[i]));
        lemma_observations_contain(entries, inventory, now, next[i]);
        let k = choose|k: int|
            0 <= k < inventory.len() && observation_of(entries, #[trigger] inventory[k], now)
                == Some(next[i]);
        assert(!inventory[k].referenced);
    }
    lemma_entry_missing(next, kind, item.id);
}

/// Only kinds that are measured by observation are recorded.
pub proof fn only_observed_kinds_are_recorded(
    entries: Seq<ObservationEntryView>,
    inventory: Seq<ItemView>,
    now: i64,
    index: int,
)
    requires
        0 <= index < next_record(entries, inventory, now).entries.len(),
    ensures
        exists|i: int|
            0 <= i < inventory.len() && !(#[trigger] inventory[i]).referenced && observed_kind(
                inventory[i].kind,
            ) == Some(next_record(entries, inventory, now).entries[index].kind)
                && inventory[i].id == next_record(entries, inventory, now).entries[index].id,
{
    let listed = observations_of(entries, inventory, now);
    let next = next_record(entries, inventory, now).entries;
    lemma_ordered_once::<ObservationEntry>(listed);
    assert(next.contains(next[index]));
    assert(listed.contains(next[index]));
    lemma_observations_contain(entries, inventory, now, next[index]);
    let k = choose|k: int|
        0 <= k < inventory.len() && observation_of(entries, #[trigger] inventory[k], now) == Some(
            next[index],
        );
    assert(!inventory[k].referenced);
}

/// A plan decides every resource once, and lists the decisions by kind, name
/// and id.
pub proof fn plans_are_complete_and_sorted(
    config: ConfigView,
    inventory: Seq<ItemView>,
    now: i64,
    context: ContextView,
)
    ensures
        in_rank_order::<Decision>(plan_for(config, inventory, now, context)),
        plan_for(config, inventory, now, context).to_multiset() == decisions_for(
            config,
            inventory,
            now,
            context,
        ).to_multiset(),
        plan_for(config, inventory, now, context).len() == inventory.len(),
        forall|i: int|
            0 <= i < inventory.len() ==> (#[trigger] decisions_for(
                config,
                inventory,
                now,
                context,
            )[i]).resource == inventory[i],
{
    lemma_ranked_is_sorted_permutation::<Decision>(decisions_for(config, inventory, now, context));
    let policy = policy_of(config);
    let removals = cache_removals(policy, inventory, now);
    assert forall|i: int| 0 <= i < inventory.len() implies (#[trigger] decisions_for(
        config,
        inventory,
        now,
        context,
    )[i]).resource == inventory[i] by {
        removals_are_owned_or_authorized(policy, inventory[i], now, removals, context);
    }
}

proof fn lemma_no_removals(decisions: Seq<DecisionView>)
    requires
        forall|i: int| 0 <= i < decisions.len() ==> (#[trigger] decisions[i]).action == Action::Keep,
    ensures
        removals_of(decisions) == Seq::<DecisionView>::empty(),
    decreases decisions.len(),
{
    if decisions.len() > 0 {
        assert(decisions.last().action == Action::Keep);
        lemma_no_removals(decisions.drop_last());
    }
}

/// Without a rule nothing is removed.
pub proof fn a_policy_without_rules_removes_nothing(
    config: ConfigView,
    inventory: Seq<ItemView>,
    now: i64,
    context: ContextView,
)
    requires
        config.rules == default_rules(),
    ensures
        removals_of(plan_for(config, inventory, now, context)) == Seq::<DecisionView>::empty(),
{
    let decisions = decisions_for(config, inventory, now, context);
    let plan = plan_for(config, inventory, now, context);
    assert forall|i: int| 0 <= i < plan.len() implies (#[trigger] plan[i]).action
        == Action::Keep by {
        lemma_ranked_holds::<Decision>(decisions, i);
    }
    lemma_no_removals(plan);
}

/// A record is removed for its age exactly when some record of that id is too
/// old.
pub proof fn lemma_aged(inventory: Seq<ItemView>, now: i64, threshold: u64, id: Seq<char>)
    ensures
        keys_ascend(aged_removals(inventory, now, threshold)),
        has_key(aged_removals(inventory, now, threshold), id) == exists|i: int|
            0 <= i < inventory.len() && too_old(#[trigger] inventory[i], now, threshold)
                && inventory[i].id == id,
    decreases inventory.len(),
{
    if inventory.len() > 0 {
        let rest = inventory.drop_last();
        let item = inventory.last();
        let before = aged_removals(rest, now, threshold);
        lemma_aged(rest, now, threshold, id);
        if too_old(item, now, threshold) {
            let reason = crate::cache::age_reason(
                age_of(now, last_use(item)).unwrap(),
                threshold,
            );
            lemma_put(before, item.id, reason, id);
            lemma_value_has_key(before, id);
            lemma_value_has_key(put(before, item.id, reason), id);
        }
        if exists|i: int|
            0 <= i < inventory.len() && too_old(#[trigger] inventory[i], now, threshold)
                && inventory[i].id == id {
            let i = choose|i: int|
                0 <= i < inventory.len() && too_old(#[trigger] inventory[i], now, threshold)
                    && inventory[i].id == id;
            if i < rest.len() {
                assert(rest[i] == inventory[i]);
            }
        }
        if exists|i: int|
            0 <= i < rest.len() && too_old(#[trigger] rest[i], now, threshold) && rest[i].id == id {
            let i = choose|i: int|
                0 <= i < rest.len() && too_old(#[trigger] rest[i], now, threshold) && rest[i].id
                    == id;
            assert(inventory[i] == rest[i]);
        }
        assert(inventory[inventory.len() - 1] == item);
    }
}

proof fn lemma_value_has_key(pairs: Seq<(Seq<char>, Seq<char>)>, key: Seq<char>)
    ensures
        (value_of(pairs, key) is Some) == has_key(pairs, key),
{
}

proof fn lemma_candidates(
    inventory: Seq<ItemView>,
    removals: Seq<(Seq<char>, Seq<char>)>,
    candidate: CacheCandidateView,
)
    requires
        candidates(inventory, removals).contains(candidate),
    ensures
        exists|i: int|
            0 <= i < inventory.len() && may_go(#[trigger] inventory[i], removals)
                && inventory[i].id == candidate.id,
    decreases inventory.len(),
{
    let all = candidates(inventory, removals);
    let k = choose|k: int| 0 <= k < all.len() && all[k] == candidate;
    let rest = inventory.drop_last();
    let before = candidates(rest, removals);
    if k < before.len() {
        assert(before[k] == candidate);
        lemma_candidates(rest, removals, candidate);
        let i = choose|i: int|
            0 <= i < rest.len() && may_go(#[trigger] rest[i], removals) && rest[i].id
                == candidate.id;
        assert(inventory[i] == rest[i]);
    } else {
        assert(inventory[inventory.len() - 1] == inventory.last());
    }
}

proof fn lemma_budget_keys(
    queue: Seq<CacheCandidateView>,
    removals: Seq<(Seq<char>, Seq<char>)>,
    retained: u64,
    limit: u64,
    total: u64,
    id: Seq<char>,
)
    requires
        keys_ascend(removals),
    ensures
        keys_ascend(within_budget(queue, removals, retained, limit, total)),
        has_key(within_budget(queue, removals, retained, limit, total), id) ==> has_key(
            removals,
            id,
        ) || exists|i: int| 0 <= i < queue.len() && (#[trigger] queue[i]).id == id,
        has_key(removals, id) ==> has_key(
            within_budget(queue, removals, retained, limit, total),
            id,
        ),
    decreases queue.len(),
{
    if queue.len() > 0 && retained > limit {
        let rest = queue.drop_first();
        let reason = budget_reason(total, limit);
        let next = put(removals, queue[0].id, reason);
        lemma_put(removals, queue[0].id, reason, id);
        lemma_value_has_key(removals, id);
        lemma_value_has_key(next, id);
        let left = if queue[0].size <= retained {
            (retained - queue[0].size) as u64
        } else {
            0
        };
        lemma_budget_keys(rest, next, left, limit, total, id);
        if exists|i: int| 0 <= i < rest.len() && (#[trigger] rest[i]).id == id {
            let i = choose|i: int| 0 <= i < rest.len() && (#[trigger] rest[i]).id == id;
            assert(queue[i + 1] == rest[i]);
        }
    }
}

/// A build-cache record is removed for its age or to meet the budget, never
/// while it is referenced, and never for the budget without a known size and a
/// known last use.
pub proof fn cache_removals_come_from_idle_records(
    older_than: Option<u64>,
    max_bytes: Option<u64>,
    inventory: Seq<ItemView>,
    now: i64,
    id: Seq<char>,
)
    requires
        has_key(rule_removals(older_than, max_bytes, inventory, now), id),
    ensures
        exists|i: int|
            0 <= i < inventory.len() && (#[trigger] inventory[i]).id == id && inventory[i].kind
                == ResourceKind::BuildCache && !inventory[i].referenced && (match older_than {
                Some(threshold) => too_old(inventory[i], now, threshold),
                None => false,
            } || max_bytes is Some && inventory[i].size is Some && last_use(inventory[i]) is Some),
{
    let aged = match older_than {
        Some(threshold) => aged_removals(inventory, now, threshold),
        None => Seq::empty(),
    };
    match older_than {
        Some(threshold) => {
            lemma_aged(inventory, now, threshold, id);
        },
        None => {},
    }
    if !has_key(aged, id) {
        let limit = max_bytes.unwrap();
        let total = crate::cache::capped(crate::cache::cache_bytes(inventory));
        let selected = crate::cache::capped(crate::cache::selected_bytes(inventory, aged));
        let retained = if selected <= total {
            (total - selected) as u64
        } else {
            0
        };
        let listed = candidates(inventory, aged);
        let queue = ranked::<CacheCandidate>(listed);
        lemma_budget_keys(queue, aged, retained, limit, total, id);
        lemma_ranked_is_sorted_permutation::<CacheCandidate>(listed);
        let k = choose|k: int| 0 <= k < queue.len() && (#[trigger] queue[k]).id == id;
        assert(queue.contains(queue[k]));
        assert(listed.contains(queue[k])) by {
            broadcast use vstd::seq_lib::group_to_multiset_ensures;

            assert(queue.to_multiset().count(queue[k]) > 0);
        }
        lemma_candidates(inventory, aged, queue[k]);
        let i = choose|i: int|
            0 <= i < inventory.len() && may_go(#[trigger] inventory[i], aged) && inventory[i].id
                == queue[k].id;
        assert(inventory[i].id == id);
    }
}

/// The bytes still retained once candidates have gone.
pub open spec fn retained_after(queue: Seq<CacheCandidateView>, retained: u64, limit: u64) -> u64
    decreases queue.len(),
{
    if queue.len() == 0 || retained <= limit {
        retained
    } else {
        retained_after(
            queue.drop_first(),
            if queue[0].size <= retained {
                (retained - queue[0].size) as u64
            } else {
                0
            },
            limit,
        )
    }
}

/// Removal for the budget goes on until the rest fits, or until no candidate is
/// left.
pub proof fn budget_is_met_or_exhausted(
    queue: Seq<CacheCandidateView>,
    removals: Seq<(Seq<char>, Seq<char>)>,
    retained: u64,
    limit: u64,
    total: u64,
)
    requires
        keys_ascend(removals),
    ensures
        retained_after(queue, retained, limit) <= limit || forall|i: int|
            0 <= i < queue.len() ==> has_key(
                within_budget(queue, removals, retained, limit, total),
                (#[trigger] queue[i]).id,
            ),
    decreases queue.len(),
{
    if queue.len() > 0 && retained > limit {
        let rest = queue.drop_first();
        let reason = budget_reason(total, limit);
        let next = put(removals, queue[0].id, reason);
        lemma_put(removals, queue[0].id, reason, queue[0].id);
        lemma_value_has_key(next, queue[0].id);
        let left = if queue[0].size <= retained {
            (retained - queue[0].size) as u64
        } else {
            0
        };
        budget_is_met_or_exhausted(rest, next, left, limit, total);
        lemma_budget_keys(rest, next, left, limit, total, queue[0].id);
        if retained_after(queue, retained, limit) > limit {
            assert forall|i: int| 0 <= i < queue.len() implies has_key(
                within_budget(queue, removals, retained, limit, total),
                (#[trigger] queue[i]).id,
            ) by {
                if i > 0 {
                    assert(rest[i - 1] == queue[i]);
                }
            }
        }
    }
}

} // verus!
