//! When a plan removes a resource and when it keeps it, said of the
//! configuration, the resource, the moment and the runtime state.

use crate::cache::rule_removals;
use crate::config::{
    CommonRuleView, Config, ConfigView, ContainerRuleView, ImageRuleView, NetworkRuleView,
    RuleScope, SelectorsView, VolumeRuleView,
};
use crate::duration::{duration_fault, duration_seconds};
use crate::guarantees::{plans_are_complete_and_sorted, removals_are_owned_or_authorized};
use crate::observation::{
    carried_clock, entry_for, observed_age, observed_kind, ObservationEntryView, ObservedKind,
};
use crate::order::{lemma_mapped_multiset, lemma_ranked_holds};
use crate::outside::{glob_matches, parsed_duration, regex_matches};
use crate::plan::{
    build_plan, build_plan_with_context, build_plan_with_protection, decisions_for, plan_for,
    Action, ContextView, Decision, DecisionView, Disposition, Plan, PlanContext, PlanError,
};
use crate::policy::{
    cache_removals, compiled_container, compiled_image, compiled_network, compiled_volume,
    container_fault, containers_fault, decide_container, decide_image, decide_network_rules,
    decide_volume, decision_for, first_label, image_fault, images_fault, label_matches,
    label_reason, name_holds, name_reason, network_fault, networks_fault, outlasts, part_reason,
    policy_fault, policy_of, selection_reason, tag_matches, volume_fault, volumes_fault,
    CompiledContainerView, CompiledImageView, CompiledNetworkView, CompiledVolumeView,
};
use crate::resource::{InventoryItem, ItemView, ResourceKind};
use crate::state::{
    name_matches, protecting_entry, protection_reason, protects, ProtectionEntryView,
    ProtectionKind, ProtectionState,
};
use crate::text::{occurs_in, stands_at, views};
use crate::text_map::has_key;
use vstd::prelude::*;

verus! {

/// Whether a label glob names an item, by the key of a label or by the whole
/// pair.
pub open spec fn picked_by_label(patterns: Seq<Seq<char>>, item: ItemView) -> bool {
    exists|p: int, l: int|
        0 <= p < patterns.len() && 0 <= l < item.labels.len() && (glob_matches(
            #[trigger] patterns[p],
            (#[trigger] item.labels[l]).0,
        ) || glob_matches(patterns[p], item.labels[l].0 + "="@ + item.labels[l].1))
}

/// Whether a name pattern finds one of an item's names.
pub open spec fn picked_by_name(patterns: Seq<Seq<char>>, item: ItemView) -> bool {
    exists|p: int, n: int|
        0 <= p < patterns.len() && 0 <= n < item.search_names.len() && regex_matches(
            #[trigger] patterns[p],
            #[trigger] item.search_names[n],
        )
}

/// Whether a text stands somewhere in another.
pub open spec fn lies_within(part: Seq<char>, text: Seq<char>) -> bool {
    exists|at: int|
        0 <= at && at + part.len() <= text.len() && #[trigger] text.subrange(at, at + part.len())
            == part
}

/// Whether a part lies within one of an item's names.
pub open spec fn picked_by_part(parts: Seq<Seq<char>>, item: ItemView) -> bool {
    exists|p: int, n: int|
        0 <= p < parts.len() && 0 <= n < item.search_names.len() && lies_within(
            #[trigger] parts[p],
            #[trigger] item.search_names[n],
        )
}

/// Whether selectors pick an item.
pub open spec fn picks(select: SelectorsView, item: ItemView) -> bool {
    ||| picked_by_label(select.labels, item)
    ||| picked_by_name(select.names, item)
    ||| picked_by_part(select.name_parts, item)
}

proof fn lemma_first_label(pattern: Seq<char>, labels: Seq<(Seq<char>, Seq<char>)>)
    ensures
        first_label(pattern, labels) is Some <==> exists|l: int|
            0 <= l < labels.len() && label_matches(pattern, #[trigger] labels[l]),
    decreases labels.len(),
{
    if labels.len() > 0 {
        let rest = labels.drop_first();
        lemma_first_label(pattern, rest);
        if first_label(pattern, labels) is Some && !label_matches(pattern, labels[0]) {
            let l = choose|l: int| 0 <= l < rest.len() && label_matches(pattern, #[trigger] rest[l]);
            assert(labels[l + 1] == rest[l]);
        }
        if exists|l: int| 0 <= l < labels.len() && label_matches(pattern, #[trigger] labels[l]) {
            let l = choose|l: int|
                0 <= l < labels.len() && label_matches(pattern, #[trigger] labels[l]);
            if l > 0 {
                assert(rest[l - 1] == labels[l]);
            }
        }
    }
}

proof fn lemma_label_reason(patterns: Seq<Seq<char>>, item: ItemView)
    ensures
        label_reason(patterns, item.labels) is Some <==> picked_by_label(patterns, item),
    decreases patterns.len(),
{
    if patterns.len() > 0 {
        let rest = patterns.drop_first();
        lemma_label_reason(rest, item);
        lemma_first_label(patterns[0], item.labels);
        if label_reason(patterns, item.labels) is Some {
            if first_label(patterns[0], item.labels) is Some {
                let l = choose|l: int|
                    0 <= l < item.labels.len() && label_matches(
                        patterns[0],
                        #[trigger] item.labels[l],
                    );
                assert(glob_matches(patterns[0], item.labels[l].0) || glob_matches(
                    patterns[0],
                    item.labels[l].0 + "="@ + item.labels[l].1,
                ));
            } else {
                let (p, l) = choose|p: int, l: int|
                    0 <= p < rest.len() && 0 <= l < item.labels.len() && (glob_matches(
                        #[trigger] rest[p],
                        (#[trigger] item.labels[l]).0,
                    ) || glob_matches(rest[p], item.labels[l].0 + "="@ + item.labels[l].1));
                assert(patterns[p + 1] == rest[p]);
            }
        }
        if picked_by_label(patterns, item) {
            let (p, l) = choose|p: int, l: int|
                0 <= p < patterns.len() && 0 <= l < item.labels.len() && (glob_matches(
                    #[trigger] patterns[p],
                    (#[trigger] item.labels[l]).0,
                ) || glob_matches(patterns[p], item.labels[l].0 + "="@ + item.labels[l].1));
            if p > 0 {
                assert(rest[p - 1] == patterns[p]);
            } else {
                assert(label_matches(patterns[0], item.labels[l]));
            }
        }
    }
}

proof fn lemma_name_reason(patterns: Seq<Seq<char>>, item: ItemView)
    ensures
        name_reason(patterns, item.search_names) is Some <==> picked_by_name(patterns, item),
    decreases patterns.len(),
{
    if patterns.len() > 0 {
        let rest = patterns.drop_first();
        lemma_name_reason(rest, item);
        if name_reason(patterns, item.search_names) is Some {
            if name_matches(item.search_names, patterns[0]) {
                let n = choose|n: int|
                    0 <= n < item.search_names.len() && regex_matches(
                        patterns[0],
                        #[trigger] item.search_names[n],
                    );
                assert(regex_matches(patterns[0], item.search_names[n]));
            } else {
                let (p, n) = choose|p: int, n: int|
                    0 <= p < rest.len() && 0 <= n < item.search_names.len() && regex_matches(
                        #[trigger] rest[p],
                        #[trigger] item.search_names[n],
                    );
                assert(patterns[p + 1] == rest[p]);
            }
        }
        if picked_by_name(patterns, item) {
            let (p, n) = choose|p: int, n: int|
                0 <= p < patterns.len() && 0 <= n < item.search_names.len() && regex_matches(
                    #[trigger] patterns[p],
                    #[trigger] item.search_names[n],
                );
            if p > 0 {
                assert(rest[p - 1] == patterns[p]);
            }
        }
    }
}

proof fn lemma_lies_within(part: Seq<char>, text: Seq<char>)
    ensures
        occurs_in(text, part) <==> lies_within(part, text),
{
    if occurs_in(text, part) {
        let at = choose|at: int| #[trigger] stands_at(text, part, at);
        assert(text.subrange(at, at + part.len()) == part);
    }
    if lies_within(part, text) {
        let at = choose|at: int|
            0 <= at && at + part.len() <= text.len() && #[trigger] text.subrange(
                at,
                at + part.len(),
            ) == part;
        assert(stands_at(text, part, at));
    }
}

proof fn lemma_part_reason(parts: Seq<Seq<char>>, item: ItemView)
    ensures
        part_reason(parts, item.search_names) is Some <==> picked_by_part(parts, item),
    decreases parts.len(),
{
    if parts.len() > 0 {
        let rest = parts.drop_first();
        lemma_part_reason(rest, item);
        if part_reason(parts, item.search_names) is Some {
            if name_holds(item.search_names, parts[0]) {
                let n = choose|n: int|
                    0 <= n < item.search_names.len() && occurs_in(
                        #[trigger] item.search_names[n],
                        parts[0],
                    );
                lemma_lies_within(parts[0], item.search_names[n]);
            } else {
                let (p, n) = choose|p: int, n: int|
                    0 <= p < rest.len() && 0 <= n < item.search_names.len() && lies_within(
                        #[trigger] rest[p],
                        #[trigger] item.search_names[n],
                    );
                assert(parts[p + 1] == rest[p]);
            }
        }
        if picked_by_part(parts, item) {
            let (p, n) = choose|p: int, n: int|
                0 <= p < parts.len() && 0 <= n < item.search_names.len() && lies_within(
                    #[trigger] parts[p],
                    #[trigger] item.search_names[n],
                );
            if p > 0 {
                assert(rest[p - 1] == parts[p]);
            } else {
                lemma_lies_within(parts[0], item.search_names[n]);
            }
        }
    }
}

/// Selectors give a reason for an item exactly when one of their label globs
/// accepts a label of it, one of their patterns finds one of its names, or one
/// of their parts lies within one of its names.
pub proof fn selectors_pick_by_label_name_or_part(select: SelectorsView, item: ItemView)
    ensures
        selection_reason(select, item) is Some <==> picks(select, item),
{
    lemma_label_reason(select.labels, item);
    lemma_name_reason(select.names, item);
    lemma_part_reason(select.name_parts, item);
}

/// Whether a runtime entry holds an item: an entry of the item's kind by its id
/// or one of its names, for a container also by a pattern that finds a name, and
/// a label entry by a label that the item carries.
pub open spec fn holds_fast(entry: ProtectionEntryView, item: ItemView) -> bool {
    ||| entry.kind == ProtectionKind::Label && exists|l: int|
        0 <= l < item.labels.len() && (#[trigger] item.labels[l]).0 + "="@ + item.labels[l].1
            == entry.value
    ||| {
        &&& {
            ||| entry.kind == ProtectionKind::Container && item.kind == ResourceKind::Container
            ||| entry.kind == ProtectionKind::Image && item.kind == ResourceKind::Image
            ||| entry.kind == ProtectionKind::Volume && item.kind == ResourceKind::Volume
            ||| entry.kind == ProtectionKind::Network && item.kind == ResourceKind::Network
        }
        &&& {
            ||| entry.value == item.id
            ||| entry.value == item.name
            ||| item.search_names.contains(entry.value)
            ||| item.kind == ResourceKind::Container && regex_matches(entry.value, item.name)
            ||| item.kind == ResourceKind::Container && exists|n: int|
                0 <= n < item.search_names.len() && regex_matches(
                    entry.value,
                    #[trigger] item.search_names[n],
                )
        }
    }
}

/// Whether an item is out of every rule's reach: some runtime entry holds it, or
/// the configuration protects one of its labels or names.
pub open spec fn shielded(
    config: ConfigView,
    entries: Seq<ProtectionEntryView>,
    item: ItemView,
) -> bool {
    ||| exists|e: int| 0 <= e < entries.len() && holds_fast(#[trigger] entries[e], item)
    ||| picked_by_label(config.protect.labels, item)
    ||| picked_by_name(config.protect.names, item)
}

/// An entry protects an item exactly when some entry holds it.
pub proof fn lemma_entry_holds(entries: Seq<ProtectionEntryView>, item: ItemView)
    ensures
        protecting_entry(entries, item) is Some <==> exists|e: int|
            0 <= e < entries.len() && holds_fast(#[trigger] entries[e], item),
    decreases entries.len(),
{
    if entries.len() > 0 {
        let rest = entries.drop_first();
        lemma_entry_holds(rest, item);
        assert(protects(entries[0], item) == holds_fast(entries[0], item));
        if exists|e: int| 0 <= e < rest.len() && holds_fast(#[trigger] rest[e], item) {
            let e = choose|e: int| 0 <= e < rest.len() && holds_fast(#[trigger] rest[e], item);
            assert(entries[e + 1] == rest[e]);
        }
        if exists|e: int| 0 <= e < entries.len() && holds_fast(#[trigger] entries[e], item) {
            let e = choose|e: int|
                0 <= e < entries.len() && holds_fast(#[trigger] entries[e], item);
            if e > 0 {
                assert(rest[e - 1] == entries[e]);
            }
        }
    }
}

proof fn lemma_shielded(config: ConfigView, entries: Seq<ProtectionEntryView>, item: ItemView)
    ensures
        shielded(config, entries, item) <==> protection_reason(entries, item) is Some
            || selection_reason(policy_of(config).protection, item) is Some,
{
    lemma_entry_holds(entries, item);
    selectors_pick_by_label_name_or_part(policy_of(config).protection, item);
    assert(policy_of(config).protection.labels == config.protect.labels);
    assert(policy_of(config).protection.names == config.protect.names);
    assert(!picked_by_part(policy_of(config).protection.name_parts, item));
}

proof fn lemma_source(
    config: ConfigView,
    inventory: Seq<ItemView>,
    now: i64,
    context: ContextView,
    place: int,
)
    requires
        0 <= place < plan_for(config, inventory, now, context).len(),
    ensures
        ({
            let decision = plan_for(config, inventory, now, context)[place];
            &&& inventory.contains(decision.resource)
            &&& decision == decision_for(
                policy_of(config),
                decision.resource,
                now,
                cache_removals(policy_of(config), inventory, now),
                context,
            )
        }),
{
    let listed = decisions_for(config, inventory, now, context);
    let policy = policy_of(config);
    let removals = cache_removals(policy, inventory, now);
    lemma_ranked_holds::<Decision>(listed, place);
    let decision = plan_for(config, inventory, now, context)[place];
    let k = choose|k: int| 0 <= k < listed.len() && listed[k] == decision;
    removals_are_owned_or_authorized(policy, inventory[k], now, removals, context);
    assert(inventory[k] == decision.resource);
}

/// The resources of a plan are those of the inventory, each as often.
pub proof fn a_plan_speaks_of_every_resource(
    config: ConfigView,
    inventory: Seq<ItemView>,
    now: i64,
    context: ContextView,
)
    ensures
        plan_for(config, inventory, now, context).map_values(
            |decision: DecisionView| decision.resource,
        ).to_multiset() == inventory.to_multiset(),
{
    let plan = plan_for(config, inventory, now, context);
    let listed = decisions_for(config, inventory, now, context);
    let named = |decision: DecisionView| decision.resource;
    plans_are_complete_and_sorted(config, inventory, now, context);
    lemma_mapped_multiset(plan, listed, named);
    assert(listed.map_values(named) =~= inventory);
}

/// What is shielded is kept as protected, under no rule, whatever the rules say;
/// nothing else is called protected but Docker's own networks.
pub proof fn what_is_shielded_is_kept(
    config: ConfigView,
    inventory: Seq<ItemView>,
    now: i64,
    context: ContextView,
    place: int,
)
    requires
        0 <= place < plan_for(config, inventory, now, context).len(),
    ensures
        ({
            let decision = plan_for(config, inventory, now, context)[place];
            let item = decision.resource;
            &&& shielded(config, context.protection.entries, item) ==> {
                &&& decision.action == Action::Keep
                &&& decision.disposition == Disposition::Protected
                &&& decision.matched_rule is None
            }
            &&& decision.disposition == Disposition::Protected ==> shielded(
                config,
                context.protection.entries,
                item,
            ) || item.kind == ResourceKind::Network && item.system
        }),
{
    lemma_source(config, inventory, now, context, place);
    let decision = plan_for(config, inventory, now, context)[place];
    let item = decision.resource;
    let policy = policy_of(config);
    let age = observed_age(context.observations.entries, item, now);
    lemma_shielded(config, context.protection.entries, item);
    lemma_rule_disposition_container(policy.containers, item, now);
    lemma_rule_disposition_image(policy.images, item, age);
    lemma_rule_disposition_volume(policy.volumes, item, age);
    lemma_rule_disposition_network(policy.networks, item, age);
}

proof fn lemma_rule_disposition_container(
    rules: Seq<CompiledContainerView>,
    item: ItemView,
    now: i64,
)
    ensures
        decide_container(rules, item, now).disposition != Disposition::Protected,
    decreases rules.len(),
{
    if rules.len() > 0 {
        lemma_rule_disposition_container(rules.drop_first(), item, now);
    }
}

proof fn lemma_rule_disposition_image(
    rules: Seq<CompiledImageView>,
    item: ItemView,
    age: Option<u64>,
)
    ensures
        decide_image(rules, item, age).disposition != Disposition::Protected,
    decreases rules.len(),
{
    if rules.len() > 0 {
        lemma_rule_disposition_image(rules.drop_first(), item, age);
    }
}

proof fn lemma_rule_disposition_volume(
    rules: Seq<CompiledVolumeView>,
    item: ItemView,
    age: Option<u64>,
)
    ensures
        decide_volume(rules, item, age).disposition != Disposition::Protected,
    decreases rules.len(),
{
    if rules.len() > 0 {
        lemma_rule_disposition_volume(rules.drop_first(), item, age);
    }
}

proof fn lemma_rule_disposition_network(
    rules: Seq<CompiledNetworkView>,
    item: ItemView,
    age: Option<u64>,
)
    ensures
        decide_network_rules(rules, item, age).disposition != Disposition::Protected,
    decreases rules.len(),
{
    if rules.len() > 0 {
        lemma_rule_disposition_network(rules.drop_first(), item, age);
    }
}

/// A runtime entry of an item's own kind keeps the item under its id and under
/// each of its names, whatever the configuration says.
pub proof fn an_entry_keeps_what_it_names(
    config: ConfigView,
    inventory: Seq<ItemView>,
    now: i64,
    context: ContextView,
    place: int,
    entry: int,
)
    requires
        0 <= place < plan_for(config, inventory, now, context).len(),
        0 <= entry < context.protection.entries.len(),
        ({
            let held = context.protection.entries[entry];
            let item = plan_for(config, inventory, now, context)[place].resource;
            &&& held.value == item.id || held.value == item.name || item.search_names.contains(
                held.value,
            )
            &&& match item.kind {
                ResourceKind::Container => held.kind == ProtectionKind::Container,
                ResourceKind::Image => held.kind == ProtectionKind::Image,
                ResourceKind::Volume => held.kind == ProtectionKind::Volume,
                ResourceKind::Network => held.kind == ProtectionKind::Network,
                ResourceKind::BuildCache => false,
            }
        }),
    ensures
        plan_for(config, inventory, now, context)[place].action == Action::Keep,
        plan_for(config, inventory, now, context)[place].disposition == Disposition::Protected,
{
    what_is_shielded_is_kept(config, inventory, now, context, place);
    let item = plan_for(config, inventory, now, context)[place].resource;
    assert(holds_fast(context.protection.entries[entry], item));
}

/// What a rule's scope makes of the resources it picks.
pub open spec fn scoped(rule: CommonRuleView) -> Disposition {
    if rule.scope == RuleScope::Owned {
        Disposition::Owned
    } else {
        Disposition::AuthorizedUnscoped
    }
}

/// Whether a written duration has passed since a moment.
pub open spec fn has_passed(text: Option<Seq<char>>, since: Option<i64>, now: i64) -> bool {
    &&& text is Some
    &&& since is Some
    &&& parsed_duration(text->0) is Ok
    &&& 0 <= now - since->0 <= i64::MAX
    &&& now - since->0 >= parsed_duration(text->0)->Ok_0.0
}

/// Whether the rule at `k` is the first container rule that picks an item.
pub open spec fn first_container_rule(
    rules: Seq<ContainerRuleView>,
    item: ItemView,
    k: int,
) -> bool {
    &&& 0 <= k < rules.len()
    &&& picks(rules[k].common.select, item)
    &&& forall|j: int| 0 <= j < k ==> !picks((#[trigger] rules[j]).common.select, item)
}

/// Whether the rule at `k` is the first image rule that picks an item.
pub open spec fn first_image_rule(rules: Seq<ImageRuleView>, item: ItemView, k: int) -> bool {
    &&& 0 <= k < rules.len()
    &&& picks(rules[k].common.select, item)
    &&& forall|j: int| 0 <= j < k ==> !picks((#[trigger] rules[j]).common.select, item)
}

/// Whether the rule at `k` is the first volume rule that picks an item.
pub open spec fn first_volume_rule(rules: Seq<VolumeRuleView>, item: ItemView, k: int) -> bool {
    &&& 0 <= k < rules.len()
    &&& picks(rules[k].common.select, item)
    &&& forall|j: int| 0 <= j < k ==> !picks((#[trigger] rules[j]).common.select, item)
}

/// Whether the rule at `k` is the first network rule that picks an item.
pub open spec fn first_network_rule(rules: Seq<NetworkRuleView>, item: ItemView, k: int) -> bool {
    &&& 0 <= k < rules.len()
    &&& picks(rules[k].common.select, item)
    &&& forall|j: int| 0 <= j < k ==> !picks((#[trigger] rules[j]).common.select, item)
}

proof fn lemma_first_container(
    rules: Seq<ContainerRuleView>,
    compiled: Seq<CompiledContainerView>,
    item: ItemView,
    now: i64,
    k: int,
)
    requires
        compiled == rules.map_values(|rule: ContainerRuleView| compiled_container(rule)),
        first_container_rule(rules, item, k),
    ensures
        decide_container(compiled, item, now) == decide_container(
            seq![compiled_container(rules[k])],
            item,
            now,
        ),
        selection_reason(compiled_container(rules[k]).common.selector, item) is Some,
    decreases rules.len(),
{
    selectors_pick_by_label_name_or_part(rules[0].common.select, item);
    assert(compiled[0] == compiled_container(rules[0]));
    if k > 0 {
        let rest = rules.drop_first();
        assert(!picks(rules[0].common.select, item));
        assert(compiled.drop_first() =~= rest.map_values(
            |rule: ContainerRuleView| compiled_container(rule),
        ));
        assert(rest[k - 1] == rules[k]);
        assert forall|j: int| 0 <= j < k - 1 implies !picks(
            (#[trigger] rest[j]).common.select,
            item,
        ) by {
            assert(rest[j] == rules[j + 1]);
        }
        lemma_first_container(rest, compiled.drop_first(), item, now, k - 1);
    }
}

proof fn lemma_no_container(
    rules: Seq<ContainerRuleView>,
    compiled: Seq<CompiledContainerView>,
    item: ItemView,
    now: i64,
)
    requires
        compiled == rules.map_values(|rule: ContainerRuleView| compiled_container(rule)),
        forall|j: int| 0 <= j < rules.len() ==> !picks((#[trigger] rules[j]).common.select, item),
    ensures
        decide_container(compiled, item, now).action == Action::Keep,
        decide_container(compiled, item, now).disposition == Disposition::Unowned,
        decide_container(compiled, item, now).matched_rule is None,
    decreases rules.len(),
{
    if rules.len() > 0 {
        let rest = rules.drop_first();
        selectors_pick_by_label_name_or_part(rules[0].common.select, item);
        assert(compiled.drop_first() =~= rest.map_values(
            |rule: ContainerRuleView| compiled_container(rule),
        ));
        assert forall|j: int| 0 <= j < rest.len() implies !picks(
            (#[trigger] rest[j]).common.select,
            item,
        ) by {
            assert(rest[j] == rules[j + 1]);
        }
        lemma_no_container(rest, compiled.drop_first(), item, now);
    }
}

proof fn lemma_container_compiles(rules: Seq<ContainerRuleView>, from: int, k: int)
    requires
        containers_fault(rules, from) is None,
        0 <= from <= k < rules.len(),
    ensures
        container_fault(k, rules[k]) is None,
    decreases rules.len() - from,
{
    if from < k {
        lemma_container_compiles(rules, from + 1, k);
    }
}

/// An unshielded container goes exactly when the first rule that picks it sets
/// a time for the state that it is in and that time has passed since the state
/// began; the decision names the rule, and a removal the age.
pub proof fn containers_go_by_the_age_of_their_state(
    config: ConfigView,
    inventory: Seq<ItemView>,
    now: i64,
    context: ContextView,
    place: int,
    k: int,
)
    requires
        policy_fault(config) is None,
        0 <= place < plan_for(config, inventory, now, context).len(),
        plan_for(config, inventory, now, context)[place].resource.kind == ResourceKind::Container,
        !shielded(
            config,
            context.protection.entries,
            plan_for(config, inventory, now, context)[place].resource,
        ),
        first_container_rule(
            config.rules.containers,
            plan_for(config, inventory, now, context)[place].resource,
            k,
        ),
    ensures
        ({
            let decision = plan_for(config, inventory, now, context)[place];
            let item = decision.resource;
            let rule = config.rules.containers[k];
            &&& decision.action == Action::Remove <==> {
                ||| item.state is Running && has_passed(rule.running_ttl, item.state_since, now)
                ||| item.state is Stopped && has_passed(rule.stopped_ttl, item.state_since, now)
            }
            &&& decision.action == Action::Remove ==> decision.age_seconds == Some(
                (now - item.state_since->0) as u64,
            )
            &&& decision.matched_rule == Some(rule.common.name)
            &&& decision.disposition == scoped(rule.common)
        }),
{
    lemma_source(config, inventory, now, context, place);
    let item = plan_for(config, inventory, now, context)[place].resource;
    lemma_shielded(config, context.protection.entries, item);
    lemma_first_container(
        config.rules.containers,
        policy_of(config).containers,
        item,
        now,
        k,
    );
    lemma_container_compiles(config.rules.containers, 0, k);
}

/// A container that no rule picks is kept, as nobody's.
pub proof fn unpicked_containers_are_kept(
    config: ConfigView,
    inventory: Seq<ItemView>,
    now: i64,
    context: ContextView,
    place: int,
)
    requires
        0 <= place < plan_for(config, inventory, now, context).len(),
        plan_for(config, inventory, now, context)[place].resource.kind == ResourceKind::Container,
        !shielded(
            config,
            context.protection.entries,
            plan_for(config, inventory, now, context)[place].resource,
        ),
        forall|j: int|
            0 <= j < config.rules.containers.len() ==> !picks(
                (#[trigger] config.rules.containers[j]).common.select,
                plan_for(config, inventory, now, context)[place].resource,
            ),
    ensures
        plan_for(config, inventory, now, context)[place].action == Action::Keep,
        plan_for(config, inventory, now, context)[place].disposition == Disposition::Unowned,
        plan_for(config, inventory, now, context)[place].matched_rule is None,
{
    lemma_source(config, inventory, now, context, place);
    let item = plan_for(config, inventory, now, context)[place].resource;
    lemma_shielded(config, context.protection.entries, item);
    lemma_no_container(config.rules.containers, policy_of(config).containers, item, now);
}

/// Whether an observation tells of an item: of its kind and under its id.
pub open spec fn tells_of(entry: ObservationEntryView, item: ItemView) -> bool {
    &&& entry.id == item.id
    &&& {
        ||| entry.kind == ObservedKind::Image && item.kind == ResourceKind::Image
        ||| entry.kind == ObservedKind::Volume && item.kind == ResourceKind::Volume
        ||| entry.kind == ObservedKind::Network && item.kind == ResourceKind::Network
    }
}

/// Whether the record has an item, and not another one under its id, unused
/// since a moment.
pub open spec fn unused_since(
    entries: Seq<ObservationEntryView>,
    item: ItemView,
    since: i64,
) -> bool {
    exists|e: int|
        0 <= e < entries.len() && tells_of(#[trigger] entries[e], item) && entries[e].created_at
            == item.created_at && entries[e].first_unreferenced_at == since && forall|j: int|
            0 <= j < e ==> !tells_of(#[trigger] entries[j], item)
}

/// Whether an item has been seen unused for at least a written duration, and not
/// only just now.
pub open spec fn waited_out(
    text: Option<Seq<char>>,
    entries: Seq<ObservationEntryView>,
    item: ItemView,
    now: i64,
) -> bool {
    exists|since: i64| #[trigger]
        unused_since(entries, item, since) && now > since && has_passed(text, Some(since), now)
}

proof fn lemma_entry_for(
    entries: Seq<ObservationEntryView>,
    item: ItemView,
    kind: ObservedKind,
)
    requires
        observed_kind(item.kind) == Some(kind),
    ensures
        match entry_for(entries, kind, item.id) {
            Some(entry) => exists|e: int|
                0 <= e < entries.len() && #[trigger] entries[e] == entry && tells_of(
                    entries[e],
                    item,
                ) && forall|j: int| 0 <= j < e ==> !tells_of(#[trigger] entries[j], item),
            None => forall|j: int|
                0 <= j < entries.len() ==> !tells_of(#[trigger] entries[j], item),
        },
    decreases entries.len(),
{
    if entries.len() > 0 {
        let rest = entries.drop_first();
        assert(tells_of(entries[0], item) == (entries[0].kind == kind && entries[0].id == item.id));
        if tells_of(entries[0], item) {
            assert(entries[0] == entry_for(entries, kind, item.id)->0);
        } else {
            lemma_entry_for(rest, item, kind);
            match entry_for(entries, kind, item.id) {
                Some(entry) => {
                    let e = choose|e: int|
                        0 <= e < rest.len() && #[trigger] rest[e] == entry && tells_of(
                            rest[e],
                            item,
                        ) && forall|j: int| 0 <= j < e ==> !tells_of(#[trigger] rest[j], item);
                    assert(entries[e + 1] == rest[e]);
                    assert forall|j: int| 0 <= j < e + 1 implies !tells_of(
                        #[trigger] entries[j],
                        item,
                    ) by {
                        if j > 0 {
                            assert(entries[j] == rest[j - 1]);
                        }
                    }
                },
                None => {
                    assert forall|j: int| 0 <= j < entries.len() implies !tells_of(
                        #[trigger] entries[j],
                        item,
                    ) by {
                        if j > 0 {
                            assert(entries[j] == rest[j - 1]);
                        }
                    }
                },
            }
        }
    }
}

/// The clock of an item is the moment since when the record has it unused, and
/// its age the seconds since then.
pub proof fn the_clock_of_an_item(
    entries: Seq<ObservationEntryView>,
    item: ItemView,
    now: i64,
    since: i64,
)
    ensures
        carried_clock(entries, item) == Some(since) <==> unused_since(entries, item, since),
        unused_since(entries, item, since) && 0 <= now - since <= i64::MAX ==> observed_age(
            entries,
            item,
            now,
        ) == Some((now - since) as u64),
        observed_age(entries, item, now) is Some ==> exists|start: i64|
            #[trigger] unused_since(entries, item, start) && observed_age(entries, item, now)->0
                == now - start,
{
    match observed_kind(item.kind) {
        Some(kind) => {
            lemma_entry_for(entries, item, kind);
            match entry_for(entries, kind, item.id) {
                Some(entry) => {
                    let e = choose|e: int|
                        0 <= e < entries.len() && #[trigger] entries[e] == entry && tells_of(
                            entries[e],
                            item,
                        ) && forall|j: int| 0 <= j < e ==> !tells_of(#[trigger] entries[j], item);
                    assert forall|moment: i64| #[trigger]
                        unused_since(entries, item, moment) implies entry.created_at
                        == item.created_at && entry.first_unreferenced_at == moment by {
                        let f = choose|f: int|
                            0 <= f < entries.len() && tells_of(#[trigger] entries[f], item)
                                && entries[f].created_at == item.created_at
                                && entries[f].first_unreferenced_at == moment && forall|j: int|
                                0 <= j < f ==> !tells_of(#[trigger] entries[j], item);
                        if e < f {
                            assert(!tells_of(entries[e], item));
                        } else if f < e {
                            assert(!tells_of(entries[f], item));
                        }
                    }
                    if entry.created_at == item.created_at {
                        assert(unused_since(entries, item, entry.first_unreferenced_at));
                    }
                },
                None => {},
            }
        },
        None => {},
    }
}

proof fn lemma_waited(
    text: Option<Seq<char>>,
    entries: Seq<ObservationEntryView>,
    item: ItemView,
    now: i64,
)
    requires
        text is Some,
        duration_fault(text->0) is None,
    ensures
        outlasts(observed_age(entries, item, now), duration_seconds(text->0)) <==> waited_out(
            text,
            entries,
            item,
            now,
        ),
{
    let age = observed_age(entries, item, now);
    the_clock_of_an_item(entries, item, now, 0);
    if outlasts(age, duration_seconds(text->0)) {
        let start = choose|start: i64| #[trigger]
            unused_since(entries, item, start) && age->0 == now - start;
        assert(has_passed(text, Some(start), now));
    }
    if waited_out(text, entries, item, now) {
        let since = choose|since: i64| #[trigger]
            unused_since(entries, item, since) && now > since && has_passed(
                text,
                Some(since),
                now,
            );
        the_clock_of_an_item(entries, item, now, since);
    }
}

proof fn lemma_first_image(
    rules: Seq<ImageRuleView>,
    compiled: Seq<CompiledImageView>,
    item: ItemView,
    age: Option<u64>,
    k: int,
)
    requires
        compiled == rules.map_values(|rule: ImageRuleView| compiled_image(rule)),
        first_image_rule(rules, item, k),
    ensures
        decide_image(compiled, item, age) == decide_image(seq![compiled_image(rules[k])], item, age),
        selection_reason(compiled_image(rules[k]).common.selector, item) is Some,
    decreases rules.len(),
{
    selectors_pick_by_label_name_or_part(rules[0].common.select, item);
    assert(compiled[0] == compiled_image(rules[0]));
    if k > 0 {
        let rest = rules.drop_first();
        assert(!picks(rules[0].common.select, item));
        assert(compiled.drop_first() =~= rest.map_values(
            |rule: ImageRuleView| compiled_image(rule),
        ));
        assert(rest[k - 1] == rules[k]);
        assert forall|j: int| 0 <= j < k - 1 implies !picks(
            (#[trigger] rest[j]).common.select,
            item,
        ) by {
            assert(rest[j] == rules[j + 1]);
        }
        lemma_first_image(rest, compiled.drop_first(), item, age, k - 1);
    }
}

proof fn lemma_no_image(
    rules: Seq<ImageRuleView>,
    compiled: Seq<CompiledImageView>,
    item: ItemView,
    age: Option<u64>,
)
    requires
        compiled == rules.map_values(|rule: ImageRuleView| compiled_image(rule)),
        forall|j: int| 0 <= j < rules.len() ==> !picks((#[trigger] rules[j]).common.select, item),
    ensures
        decide_image(compiled, item, age).action == Action::Keep,
        decide_image(compiled, item, age).disposition == Disposition::Unowned,
        decide_image(compiled, item, age).matched_rule is None,
    decreases rules.len(),
{
    if rules.len() > 0 {
        let rest = rules.drop_first();
        selectors_pick_by_label_name_or_part(rules[0].common.select, item);
        assert(compiled.drop_first() =~= rest.map_values(
            |rule: ImageRuleView| compiled_image(rule),
        ));
        assert forall|j: int| 0 <= j < rest.len() implies !picks(
            (#[trigger] rest[j]).common.select,
            item,
        ) by {
            assert(rest[j] == rules[j + 1]);
        }
        lemma_no_image(rest, compiled.drop_first(), item, age);
    }
}

proof fn lemma_image_compiles(rules: Seq<ImageRuleView>, from: int, k: int)
    requires
        images_fault(rules, from) is None,
        0 <= from <= k < rules.len(),
    ensures
        image_fault(k, rules[k]) is None,
    decreases rules.len() - from,
{
    if from < k {
        lemma_image_compiles(rules, from + 1, k);
    }
}

proof fn lemma_first_volume(
    rules: Seq<VolumeRuleView>,
    compiled: Seq<CompiledVolumeView>,
    item: ItemView,
    age: Option<u64>,
    k: int,
)
    requires
        compiled == rules.map_values(|rule: VolumeRuleView| compiled_volume(rule)),
        first_volume_rule(rules, item, k),
    ensures
        decide_volume(compiled, item, age) == decide_volume(seq![compiled_volume(rules[k])], item, age),
        selection_reason(compiled_volume(rules[k]).common.selector, item) is Some,
    decreases rules.len(),
{
    selectors_pick_by_label_name_or_part(rules[0].common.select, item);
    assert(compiled[0] == compiled_volume(rules[0]));
    if k > 0 {
        let rest = rules.drop_first();
        assert(!picks(rules[0].common.select, item));
        assert(compiled.drop_first() =~= rest.map_values(
            |rule: VolumeRuleView| compiled_volume(rule),
        ));
        assert(rest[k - 1] == rules[k]);
        assert forall|j: int| 0 <= j < k - 1 implies !picks(
            (#[trigger] rest[j]).common.select,
            item,
        ) by {
            assert(rest[j] == rules[j + 1]);
        }
        lemma_first_volume(rest, compiled.drop_first(), item, age, k - 1);
    }
}

proof fn lemma_no_volume(
    rules: Seq<VolumeRuleView>,
    compiled: Seq<CompiledVolumeView>,
    item: ItemView,
    age: Option<u64>,
)
    requires
        compiled == rules.map_values(|rule: VolumeRuleView| compiled_volume(rule)),
        forall|j: int| 0 <= j < rules.len() ==> !picks((#[trigger] rules[j]).common.select, item),
    ensures
        decide_volume(compiled, item, age).action == Action::Keep,
        decide_volume(compiled, item, age).disposition == Disposition::Unowned,
        decide_volume(compiled, item, age).matched_rule is None,
    decreases rules.len(),
{
    if rules.len() > 0 {
        let rest = rules.drop_first();
        selectors_pick_by_label_name_or_part(rules[0].common.select, item);
        assert(compiled.drop_first() =~= rest.map_values(
            |rule: VolumeRuleView| compiled_volume(rule),
        ));
        assert forall|j: int| 0 <= j < rest.len() implies !picks(
            (#[trigger] rest[j]).common.select,
            item,
        ) by {
            assert(rest[j] == rules[j + 1]);
        }
        lemma_no_volume(rest, compiled.drop_first(), item, age);
    }
}

proof fn lemma_volume_compiles(rules: Seq<VolumeRuleView>, from: int, k: int)
    requires
        volumes_fault(rules, from) is None,
        0 <= from <= k < rules.len(),
    ensures
        volume_fault(k, rules[k]) is None,
    decreases rules.len() - from,
{
    if from < k {
        lemma_volume_compiles(rules, from + 1, k);
    }
}

proof fn lemma_first_network(
    rules: Seq<NetworkRuleView>,
    compiled: Seq<CompiledNetworkView>,
    item: ItemView,
    age: Option<u64>,
    k: int,
)
    requires
        compiled == rules.map_values(|rule: NetworkRuleView| compiled_network(rule)),
        first_network_rule(rules, item, k),
    ensures
        decide_network_rules(compiled, item, age) == decide_network_rules(seq![compiled_network(rules[k])], item, age),
        selection_reason(compiled_network(rules[k]).common.selector, item) is Some,
    decreases rules.len(),
{
    selectors_pick_by_label_name_or_part(rules[0].common.select, item);
    assert(compiled[0] == compiled_network(rules[0]));
    if k > 0 {
        let rest = rules.drop_first();
        assert(!picks(rules[0].common.select, item));
        assert(compiled.drop_first() =~= rest.map_values(
            |rule: NetworkRuleView| compiled_network(rule),
        ));
        assert(rest[k - 1] == rules[k]);
        assert forall|j: int| 0 <= j < k - 1 implies !picks(
            (#[trigger] rest[j]).common.select,
            item,
        ) by {
            assert(rest[j] == rules[j + 1]);
        }
        lemma_first_network(rest, compiled.drop_first(), item, age, k - 1);
    }
}

proof fn lemma_no_network(
    rules: Seq<NetworkRuleView>,
    compiled: Seq<CompiledNetworkView>,
    item: ItemView,
    age: Option<u64>,
)
    requires
        compiled == rules.map_values(|rule: NetworkRuleView| compiled_network(rule)),
        forall|j: int| 0 <= j < rules.len() ==> !picks((#[trigger] rules[j]).common.select, item),
    ensures
        decide_network_rules(compiled, item, age).action == Action::Keep,
        decide_network_rules(compiled, item, age).disposition == Disposition::Unowned,
        decide_network_rules(compiled, item, age).matched_rule is None,
    decreases rules.len(),
{
    if rules.len() > 0 {
        let rest = rules.drop_first();
        selectors_pick_by_label_name_or_part(rules[0].common.select, item);
        assert(compiled.drop_first() =~= rest.map_values(
            |rule: NetworkRuleView| compiled_network(rule),
        ));
        assert forall|j: int| 0 <= j < rest.len() implies !picks(
            (#[trigger] rest[j]).common.select,
            item,
        ) by {
            assert(rest[j] == rules[j + 1]);
        }
        lemma_no_network(rest, compiled.drop_first(), item, age);
    }
}

proof fn lemma_network_compiles(rules: Seq<NetworkRuleView>, from: int, k: int)
    requires
        networks_fault(rules, from) is None,
        0 <= from <= k < rules.len(),
    ensures
        network_fault(k, rules[k]) is None,
    decreases rules.len() - from,
{
    if from < k {
        lemma_network_compiles(rules, from + 1, k);
    }
}

/// Whether a tag pattern accepts one of an image's names.
pub open spec fn accepts_a_tag(patterns: Seq<Seq<char>>, names: Seq<Seq<char>>) -> bool {
    exists|p: int, n: int|
        0 <= p < patterns.len() && 0 <= n < names.len() && glob_matches(
            #[trigger] patterns[p],
            #[trigger] names[n],
        )
}

/// An unshielded image goes exactly when it is unreferenced, the first rule that
/// picks it reaches one of its tags or dangling images, and it has been seen
/// unused for the time which that rule sets.
pub proof fn images_go_when_seen_unused_long_enough(
    config: ConfigView,
    inventory: Seq<ItemView>,
    now: i64,
    context: ContextView,
    place: int,
    k: int,
)
    requires
        policy_fault(config) is None,
        0 <= place < plan_for(config, inventory, now, context).len(),
        plan_for(config, inventory, now, context)[place].resource.kind == ResourceKind::Image,
        !shielded(
            config,
            context.protection.entries,
            plan_for(config, inventory, now, context)[place].resource,
        ),
        first_image_rule(
            config.rules.images,
            plan_for(config, inventory, now, context)[place].resource,
            k,
        ),
    ensures
        ({
            let decision = plan_for(config, inventory, now, context)[place];
            let item = decision.resource;
            let rule = config.rules.images[k];
            &&& decision.action == Action::Remove <==> {
                &&& !item.referenced
                &&& rule.dangling && item.dangling || accepts_a_tag(
                    rule.image_tag_patterns,
                    item.search_names,
                )
                &&& waited_out(rule.unused_for, context.observations.entries, item, now)
            }
            &&& decision.action == Action::Remove ==> decision.age_seconds is Some
                && unused_since(
                context.observations.entries,
                item,
                (now - decision.age_seconds->0) as i64,
            )
            &&& decision.matched_rule == Some(rule.common.name)
            &&& decision.disposition == scoped(rule.common)
        }),
{
    lemma_source(config, inventory, now, context, place);
    let item = plan_for(config, inventory, now, context)[place].resource;
    let entries = context.observations.entries;
    let age = observed_age(entries, item, now);
    lemma_shielded(config, context.protection.entries, item);
    lemma_first_image(config.rules.images, policy_of(config).images, item, age, k);
    lemma_image_compiles(config.rules.images, 0, k);
    the_clock_of_an_item(entries, item, now, 0);
    let rule = config.rules.images[k];
    assert(accepts_a_tag(config.rules.images[k].image_tag_patterns, item.search_names)
        == tag_matches(config.rules.images[k].image_tag_patterns, item.search_names));
    if rule.unused_for is Some {
        lemma_waited(rule.unused_for, entries, item, now);
    }
}

/// An image that no rule picks is kept, as nobody's.
pub proof fn unpicked_images_are_kept(
    config: ConfigView,
    inventory: Seq<ItemView>,
    now: i64,
    context: ContextView,
    place: int,
)
    requires
        0 <= place < plan_for(config, inventory, now, context).len(),
        plan_for(config, inventory, now, context)[place].resource.kind == ResourceKind::Image,
        !shielded(
            config,
            context.protection.entries,
            plan_for(config, inventory, now, context)[place].resource,
        ),
        forall|j: int|
            0 <= j < config.rules.images.len() ==> !picks(
                (#[trigger] config.rules.images[j]).common.select,
                plan_for(config, inventory, now, context)[place].resource,
            ),
    ensures
        plan_for(config, inventory, now, context)[place].action == Action::Keep,
        plan_for(config, inventory, now, context)[place].disposition == Disposition::Unowned,
        plan_for(config, inventory, now, context)[place].matched_rule is None,
{
    lemma_source(config, inventory, now, context, place);
    let item = plan_for(config, inventory, now, context)[place].resource;
    let age = observed_age(context.observations.entries, item, now);
    lemma_shielded(config, context.protection.entries, item);
    lemma_no_image(config.rules.images, policy_of(config).images, item, age);
}

/// An unshielded volume goes exactly when it is unattached and has been seen so
/// for the time which the first rule that picks it sets.
pub proof fn volumes_go_when_seen_unattached_long_enough(
    config: ConfigView,
    inventory: Seq<ItemView>,
    now: i64,
    context: ContextView,
    place: int,
    k: int,
)
    requires
        policy_fault(config) is None,
        0 <= place < plan_for(config, inventory, now, context).len(),
        plan_for(config, inventory, now, context)[place].resource.kind == ResourceKind::Volume,
        !shielded(
            config,
            context.protection.entries,
            plan_for(config, inventory, now, context)[place].resource,
        ),
        first_volume_rule(
            config.rules.volumes,
            plan_for(config, inventory, now, context)[place].resource,
            k,
        ),
    ensures
        ({
            let decision = plan_for(config, inventory, now, context)[place];
            let item = decision.resource;
            let rule = config.rules.volumes[k];
            &&& decision.action == Action::Remove <==> {
                &&& !item.referenced
                &&& waited_out(rule.orphan_for, context.observations.entries, item, now)
            }
            &&& decision.action == Action::Remove ==> decision.age_seconds is Some
                && unused_since(
                context.observations.entries,
                item,
                (now - decision.age_seconds->0) as i64,
            )
            &&& decision.matched_rule == Some(rule.common.name)
            &&& decision.disposition == scoped(rule.common)
        }),
{
    lemma_source(config, inventory, now, context, place);
    let item = plan_for(config, inventory, now, context)[place].resource;
    let entries = context.observations.entries;
    let age = observed_age(entries, item, now);
    lemma_shielded(config, context.protection.entries, item);
    lemma_first_volume(config.rules.volumes, policy_of(config).volumes, item, age, k);
    lemma_volume_compiles(config.rules.volumes, 0, k);
    the_clock_of_an_item(entries, item, now, 0);
    let rule = config.rules.volumes[k];
    if rule.orphan_for is Some {
        lemma_waited(rule.orphan_for, entries, item, now);
    }
}

/// A volume that no rule picks is kept, as nobody's.
pub proof fn unpicked_volumes_are_kept(
    config: ConfigView,
    inventory: Seq<ItemView>,
    now: i64,
    context: ContextView,
    place: int,
)
    requires
        0 <= place < plan_for(config, inventory, now, context).len(),
        plan_for(config, inventory, now, context)[place].resource.kind == ResourceKind::Volume,
        !shielded(
            config,
            context.protection.entries,
            plan_for(config, inventory, now, context)[place].resource,
        ),
        forall|j: int|
            0 <= j < config.rules.volumes.len() ==> !picks(
                (#[trigger] config.rules.volumes[j]).common.select,
                plan_for(config, inventory, now, context)[place].resource,
            ),
    ensures
        plan_for(config, inventory, now, context)[place].action == Action::Keep,
        plan_for(config, inventory, now, context)[place].disposition == Disposition::Unowned,
        plan_for(config, inventory, now, context)[place].matched_rule is None,
{
    lemma_source(config, inventory, now, context, place);
    let item = plan_for(config, inventory, now, context)[place].resource;
    let age = observed_age(context.observations.entries, item, now);
    lemma_shielded(config, context.protection.entries, item);
    lemma_no_volume(config.rules.volumes, policy_of(config).volumes, item, age);
}

/// An unshielded network that Docker did not make itself goes exactly when it is
/// empty, the first rule that picks it cleans up empty networks, and it has been
/// seen empty for the time which that rule sets.
pub proof fn networks_go_when_seen_empty_long_enough(
    config: ConfigView,
    inventory: Seq<ItemView>,
    now: i64,
    context: ContextView,
    place: int,
    k: int,
)
    requires
        policy_fault(config) is None,
        0 <= place < plan_for(config, inventory, now, context).len(),
        plan_for(config, inventory, now, context)[place].resource.kind == ResourceKind::Network,
        !plan_for(config, inventory, now, context)[place].resource.system,
        !shielded(
            config,
            context.protection.entries,
            plan_for(config, inventory, now, context)[place].resource,
        ),
        first_network_rule(
            config.rules.networks,
            plan_for(config, inventory, now, context)[place].resource,
            k,
        ),
    ensures
        ({
            let decision = plan_for(config, inventory, now, context)[place];
            let item = decision.resource;
            let rule = config.rules.networks[k];
            &&& decision.action == Action::Remove <==> {
                &&& !item.referenced
                &&& rule.orphan
                &&& waited_out(rule.orphan_for, context.observations.entries, item, now)
            }
            &&& decision.action == Action::Remove ==> decision.age_seconds is Some
                && unused_since(
                context.observations.entries,
                item,
                (now - decision.age_seconds->0) as i64,
            )
            &&& decision.matched_rule == Some(rule.common.name)
            &&& decision.disposition == scoped(rule.common)
        }),
{
    lemma_source(config, inventory, now, context, place);
    let item = plan_for(config, inventory, now, context)[place].resource;
    let entries = context.observations.entries;
    let age = observed_age(entries, item, now);
    lemma_shielded(config, context.protection.entries, item);
    lemma_first_network(config.rules.networks, policy_of(config).networks, item, age, k);
    lemma_network_compiles(config.rules.networks, 0, k);
    the_clock_of_an_item(entries, item, now, 0);
    let rule = config.rules.networks[k];
    if rule.orphan_for is Some {
        lemma_waited(rule.orphan_for, entries, item, now);
    }
}

/// A network that no rule picks is kept, as nobody's.
pub proof fn unpicked_networks_are_kept(
    config: ConfigView,
    inventory: Seq<ItemView>,
    now: i64,
    context: ContextView,
    place: int,
)
    requires
        0 <= place < plan_for(config, inventory, now, context).len(),
        plan_for(config, inventory, now, context)[place].resource.kind == ResourceKind::Network,
        !plan_for(config, inventory, now, context)[place].resource.system,
        !shielded(
            config,
            context.protection.entries,
            plan_for(config, inventory, now, context)[place].resource,
        ),
        forall|j: int|
            0 <= j < config.rules.networks.len() ==> !picks(
                (#[trigger] config.rules.networks[j]).common.select,
                plan_for(config, inventory, now, context)[place].resource,
            ),
    ensures
        plan_for(config, inventory, now, context)[place].action == Action::Keep,
        plan_for(config, inventory, now, context)[place].disposition == Disposition::Unowned,
        plan_for(config, inventory, now, context)[place].matched_rule is None,
{
    lemma_source(config, inventory, now, context, place);
    let item = plan_for(config, inventory, now, context)[place].resource;
    let age = observed_age(context.observations.entries, item, now);
    lemma_shielded(config, context.protection.entries, item);
    lemma_no_network(config.rules.networks, policy_of(config).networks, item, age);
}

/// Docker's own networks are kept as protected.
pub proof fn docker_networks_are_kept(
    config: ConfigView,
    inventory: Seq<ItemView>,
    now: i64,
    context: ContextView,
    place: int,
)
    requires
        0 <= place < plan_for(config, inventory, now, context).len(),
        plan_for(config, inventory, now, context)[place].resource.kind == ResourceKind::Network,
        plan_for(config, inventory, now, context)[place].resource.system,
    ensures
        plan_for(config, inventory, now, context)[place].action == Action::Keep,
        plan_for(config, inventory, now, context)[place].disposition == Disposition::Protected,
        plan_for(config, inventory, now, context)[place].matched_rule is None,
{
    lemma_source(config, inventory, now, context, place);
}

/// The whole seconds of an optional duration that can be read.
pub open spec fn read_seconds(text: Option<Seq<char>>) -> Option<u64> {
    match text {
        Some(words) => Some(parsed_duration(words)->Ok_0.0),
        None => None,
    }
}

/// Whether an age is how long ago a moment was, none where that is not known.
pub open spec fn is_age(age: Option<u64>, since: Option<i64>, now: i64) -> bool {
    &&& age is Some <==> since is Some && 0 <= now - since->0 <= i64::MAX
    &&& age is Some ==> age->0 == now - since->0
}

/// An unshielded build-cache record goes exactly when there is a build-cache
/// rule, the record is unreferenced, and the age and the budget that the rule
/// writes name it.
pub proof fn cache_records_go_by_the_cache_rule(
    config: ConfigView,
    inventory: Seq<ItemView>,
    now: i64,
    context: ContextView,
    place: int,
)
    requires
        policy_fault(config) is None,
        0 <= place < plan_for(config, inventory, now, context).len(),
        plan_for(config, inventory, now, context)[place].resource.kind == ResourceKind::BuildCache,
        !shielded(
            config,
            context.protection.entries,
            plan_for(config, inventory, now, context)[place].resource,
        ),
    ensures
        ({
            let decision = plan_for(config, inventory, now, context)[place];
            let item = decision.resource;
            match config.rules.build_cache {
                None => {
                    &&& decision.action == Action::Keep
                    &&& decision.disposition == Disposition::Unowned
                    &&& decision.matched_rule is None
                },
                Some(rule) => {
                    &&& decision.action == Action::Remove <==> !item.referenced && has_key(
                        rule_removals(
                            read_seconds(rule.older_than),
                            rule.max_bytes,
                            inventory,
                            now,
                        ),
                        item.id,
                    )
                    &&& decision.disposition == Disposition::AuthorizedUnscoped
                    &&& decision.matched_rule == Some("build-cache"@)
                    &&& decision.action == Action::Remove ==> is_age(
                        decision.age_seconds,
                        if item.state_since is Some {
                            item.state_since
                        } else {
                            item.created_at
                        },
                        now,
                    )
                },
            }
        }),
{
    lemma_source(config, inventory, now, context, place);
    let item = plan_for(config, inventory, now, context)[place].resource;
    lemma_shielded(config, context.protection.entries, item);
    if config.rules.build_cache is Some {
        let rule = config.rules.build_cache->0;
        assert(policy_of(config).build_cache->0.older_than == read_seconds(rule.older_than));
    }
}

/// A plan is made of the configuration, the inventory, the moment and the whole
/// runtime state that it was asked with; it fails exactly where the
/// configuration does not compile.
pub proof fn an_evaluation_uses_what_it_is_given<'a>(
    config: Config,
    inventory: Vec<InventoryItem>,
    now: i64,
    context: PlanContext<'a>,
    outcome: Result<Plan, PlanError>,
)
    requires
        call_ensures(build_plan_with_context, (&config, inventory, now, &context), outcome),
    ensures
        outcome is Err <==> policy_fault(config@) is Some,
        outcome is Ok ==> views(outcome->Ok_0.decisions@) == plan_for(
            config@,
            views(inventory@),
            now,
            (ContextView {
                protection: context.protection@,
                observations: context.observations@,
            }),
        ),
{
}

/// Without runtime state a plan goes by no entry and no observation; with
/// protection alone it goes by no observation.
pub proof fn smaller_evaluations_add_nothing(
    config: Config,
    inventory: Vec<InventoryItem>,
    now: i64,
    protection: ProtectionState,
    plain: Result<Plan, PlanError>,
    shielding: Result<Plan, PlanError>,
)
    requires
        call_ensures(build_plan, (&config, inventory, now), plain),
        call_ensures(build_plan_with_protection, (&config, inventory, now, &protection), shielding),
    ensures
        plain is Err <==> policy_fault(config@) is Some,
        shielding is Err <==> policy_fault(config@) is Some,
        plain is Ok ==> exists|context: ContextView|
            context.protection.entries.len() == 0 && context.observations.entries.len() == 0
                && views(plain->Ok_0.decisions@) == #[trigger] plan_for(
                config@,
                views(inventory@),
                now,
                context,
            ),
        shielding is Ok ==> exists|context: ContextView|
            context.protection == protection@ && context.observations.entries.len() == 0
                && views(shielding->Ok_0.decisions@) == #[trigger] plan_for(
                config@,
                views(inventory@),
                now,
                context,
            ),
{
}

} // verus!
