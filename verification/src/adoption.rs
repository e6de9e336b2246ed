//! What holds of the rules that the configurator writes, as a whole.

use crate::candidate::{named_kind, CandidateFamilyView, CandidateSelectorView};
use crate::config::{
    CommonRuleView, ContainerRule, ImageRule, NetworkRule, RuleScope, RulesView, SelectorsView,
    VolumeRule,
};
use crate::generate::{
    chosen_rules, has_kind, label_selectors, managed_common, managed_rules, prefix_selectors,
    present_ids, rule_id_slots, sorted_rule_ids, sorted_rules, with_family_rules, with_kind_rule,
    with_managed_rule, MANAGED_ID_PREFIX,
};
use crate::order::{lemma_ranked_holds, lemma_ranked_keeps};
use crate::profile::SettingsView;
use crate::resource::{kind_text, ResourceKind};
use crate::setup::{manages, manages_cache, names_family, without_cache_rule};
use vstd::prelude::*;
use vstd::string::*;

verus! {

/// Whether an id is one that the configurator gives.
pub open spec fn managed_id(id: Option<Seq<char>>) -> bool {
    match id {
        Some(text) => MANAGED_ID_PREFIX@.is_prefix_of(text),
        None => false,
    }
}

/// Whether a rule carries such an id and reaches only what its selectors own.
pub open spec fn well_scoped(common: CommonRuleView) -> bool {
    managed_id(common.id) && common.scope == RuleScope::Owned && !common.allow_unscoped
}

/// Whether all rules are so. The build cache has no selectors: its rule says
/// that it is authorized.
pub open spec fn all_well_scoped(rules: RulesView) -> bool {
    &&& forall|i: int|
        0 <= i < rules.containers.len() ==> well_scoped((#[trigger] rules.containers[i]).common)
    &&& forall|i: int|
        0 <= i < rules.images.len() ==> well_scoped((#[trigger] rules.images[i]).common)
    &&& forall|i: int|
        0 <= i < rules.volumes.len() ==> well_scoped((#[trigger] rules.volumes[i]).common)
    &&& forall|i: int|
        0 <= i < rules.networks.len() ==> well_scoped((#[trigger] rules.networks[i]).common)
    &&& rules.build_cache matches Some(rule) ==> managed_id(rule.id) && rule.allow_unscoped
}

proof fn lemma_managed_prefix(family: CandidateFamilyView, kind: ResourceKind, select: SelectorsView)
    ensures
        well_scoped(managed_common(family, kind, select)),
{
    let id = MANAGED_ID_PREFIX@ + family.id + "/"@ + kind_text(kind);
    assert(MANAGED_ID_PREFIX@ =~= id.subrange(0, MANAGED_ID_PREFIX@.len() as int));
}

proof fn lemma_kind_rule_scoped(
    rules: RulesView,
    family: CandidateFamilyView,
    kind: ResourceKind,
    select: SelectorsView,
    policy: SettingsView,
)
    requires
        all_well_scoped(rules),
    ensures
        all_well_scoped(with_managed_rule(rules, family, kind, select, policy)),
        all_well_scoped(with_kind_rule(rules, family, kind, select, policy)),
{
    lemma_managed_prefix(family, kind, select);
}

proof fn lemma_chosen_scoped(
    cache_taken: bool,
    families: Seq<CandidateFamilyView>,
    policy: SettingsView,
)
    requires
        chosen_rules(cache_taken, families, policy) is Ok,
    ensures
        all_well_scoped(chosen_rules(cache_taken, families, policy)->Ok_0),
    decreases families.len(),
{
    if families.len() > 0 {
        lemma_chosen_scoped(cache_taken, families.drop_last(), policy);
        let rules = chosen_rules(cache_taken, families.drop_last(), policy)->Ok_0;
        let family = families.last();
        match family.selector {
            CandidateSelectorView::ExactLabel { key, value } => {
                let select = label_selectors(key, value);
                let a = with_kind_rule(rules, family, ResourceKind::Container, select, policy);
                let b = with_kind_rule(a, family, ResourceKind::Image, select, policy);
                let c = with_kind_rule(b, family, ResourceKind::Volume, select, policy);
                lemma_kind_rule_scoped(rules, family, ResourceKind::Container, select, policy);
                lemma_kind_rule_scoped(a, family, ResourceKind::Image, select, policy);
                lemma_kind_rule_scoped(b, family, ResourceKind::Volume, select, policy);
                lemma_kind_rule_scoped(c, family, ResourceKind::Network, select, policy);
            },
            CandidateSelectorView::NamePrefix { resource_kind, prefix } => {
                if let Some(kind) = named_kind(resource_kind) {
                    lemma_kind_rule_scoped(rules, family, kind, prefix_selectors(prefix), policy);
                }
            },
            CandidateSelectorView::BuildCache => {
                let id = MANAGED_ID_PREFIX@ + "build-cache"@;
                assert(MANAGED_ID_PREFIX@ =~= id.subrange(0, MANAGED_ID_PREFIX@.len() as int));
            },
        }
    }
}

/// Every rule that the configurator writes carries an id of its own kind and
/// reaches only what its selectors own; only the rule for the build cache, which
/// has no selectors, is authorized beyond that.
pub proof fn generated_rules_are_marked_and_scoped(
    cache_taken: bool,
    families: Seq<CandidateFamilyView>,
    policy: SettingsView,
)
    requires
        managed_rules(cache_taken, families, policy) is Ok,
    ensures
        all_well_scoped(managed_rules(cache_taken, families, policy)->Ok_0),
{
    let rules = chosen_rules(cache_taken, families, policy)->Ok_0;
    lemma_chosen_scoped(cache_taken, families, policy);
    let sorted = sorted_rules(rules);
    assert forall|i: int| 0 <= i < sorted.containers.len() implies well_scoped(
        (#[trigger] sorted.containers[i]).common,
    ) by {
        lemma_ranked_holds::<ContainerRule>(rules.containers, i);
    }
    assert forall|i: int| 0 <= i < sorted.images.len() implies well_scoped(
        (#[trigger] sorted.images[i]).common,
    ) by {
        lemma_ranked_holds::<ImageRule>(rules.images, i);
    }
    assert forall|i: int| 0 <= i < sorted.volumes.len() implies well_scoped(
        (#[trigger] sorted.volumes[i]).common,
    ) by {
        lemma_ranked_holds::<VolumeRule>(rules.volumes, i);
    }
    assert forall|i: int| 0 <= i < sorted.networks.len() implies well_scoped(
        (#[trigger] sorted.networks[i]).common,
    ) by {
        lemma_ranked_holds::<NetworkRule>(rules.networks, i);
    }
}

/// Whether a rule that selects resources carries an id.
pub open spec fn carries_id(rules: RulesView, id: Seq<char>) -> bool {
    ||| exists|i: int|
        0 <= i < rules.containers.len() && (#[trigger] rules.containers[i]).common.id == Some(id)
    ||| exists|i: int|
        0 <= i < rules.images.len() && (#[trigger] rules.images[i]).common.id == Some(id)
    ||| exists|i: int|
        0 <= i < rules.volumes.len() && (#[trigger] rules.volumes[i]).common.id == Some(id)
    ||| exists|i: int|
        0 <= i < rules.networks.len() && (#[trigger] rules.networks[i]).common.id == Some(id)
}

/// The id of the rule for a family's resources of one kind.
pub open spec fn family_rule_id(family: CandidateFamilyView, kind: ResourceKind) -> Seq<char> {
    MANAGED_ID_PREFIX@ + family.id + "/"@ + kind_text(kind)
}

/// Whether a family comes to a rule at all.
pub open spec fn gets_rule(family: CandidateFamilyView) -> bool {
    match family.selector {
        CandidateSelectorView::ExactLabel { .. } => {
            ||| has_kind(family.resources, ResourceKind::Container)
            ||| has_kind(family.resources, ResourceKind::Image)
            ||| has_kind(family.resources, ResourceKind::Volume)
            ||| has_kind(family.resources, ResourceKind::Network)
        },
        CandidateSelectorView::NamePrefix { resource_kind, .. } => named_kind(resource_kind) is Some
            && named_kind(resource_kind) != Some(ResourceKind::BuildCache),
        CandidateSelectorView::BuildCache => family.id == "build-cache"@,
    }
}

proof fn lemma_push_keeps_ids(
    rules: RulesView,
    family: CandidateFamilyView,
    kind: ResourceKind,
    select: SelectorsView,
    policy: SettingsView,
    id: Seq<char>,
)
    ensures
        carries_id(rules, id) ==> carries_id(
            with_managed_rule(rules, family, kind, select, policy),
            id,
        ),
        carries_id(rules, id) ==> carries_id(
            with_kind_rule(rules, family, kind, select, policy),
            id,
        ),
        kind != ResourceKind::BuildCache ==> carries_id(
            with_managed_rule(rules, family, kind, select, policy),
            family_rule_id(family, kind),
        ),
{
    let next = with_managed_rule(rules, family, kind, select, policy);
    if carries_id(rules, id) {
        if exists|i: int|
            0 <= i < rules.containers.len() && (#[trigger] rules.containers[i]).common.id == Some(
                id,
            ) {
            let i = choose|i: int|
                0 <= i < rules.containers.len() && (#[trigger] rules.containers[i]).common.id
                    == Some(id);
            assert(next.containers[i] == rules.containers[i]);
        } else if exists|i: int|
            0 <= i < rules.images.len() && (#[trigger] rules.images[i]).common.id == Some(id) {
            let i = choose|i: int|
                0 <= i < rules.images.len() && (#[trigger] rules.images[i]).common.id == Some(id);
            assert(next.images[i] == rules.images[i]);
        } else if exists|i: int|
            0 <= i < rules.volumes.len() && (#[trigger] rules.volumes[i]).common.id == Some(id) {
            let i = choose|i: int|
                0 <= i < rules.volumes.len() && (#[trigger] rules.volumes[i]).common.id == Some(id);
            assert(next.volumes[i] == rules.volumes[i]);
        } else {
            let i = choose|i: int|
                0 <= i < rules.networks.len() && (#[trigger] rules.networks[i]).common.id == Some(
                    id,
                );
            assert(next.networks[i] == rules.networks[i]);
        }
    }
    let own = family_rule_id(family, kind);
    match kind {
        ResourceKind::Container => {
            assert(next.containers[rules.containers.len() as int].common.id == Some(own));
        },
        ResourceKind::Image => {
            assert(next.images[rules.images.len() as int].common.id == Some(own));
        },
        ResourceKind::Volume => {
            assert(next.volumes[rules.volumes.len() as int].common.id == Some(own));
        },
        ResourceKind::Network => {
            assert(next.networks[rules.networks.len() as int].common.id == Some(own));
        },
        ResourceKind::BuildCache => {},
    }
}

/// Whether rules stand for a family by one of its ids.
pub open spec fn stands_for(rules: RulesView, family: CandidateFamilyView) -> bool {
    if family.selector is BuildCache {
        manages_cache(rules)
    } else {
        exists|kind: ResourceKind| carries_id(rules, #[trigger] family_rule_id(family, kind))
    }
}

proof fn lemma_family_rules(
    rules: RulesView,
    family: CandidateFamilyView,
    policy: SettingsView,
    kept: CandidateFamilyView,
)
    requires
        !(family.selector is BuildCache),
        with_family_rules(rules, family, policy) is Ok,
    ensures
        gets_rule(family) ==> stands_for(with_family_rules(rules, family, policy)->Ok_0, family),
        stands_for(rules, kept) ==> stands_for(
            with_family_rules(rules, family, policy)->Ok_0,
            kept,
        ),
{
    let next = with_family_rules(rules, family, policy)->Ok_0;
    match family.selector {
        CandidateSelectorView::ExactLabel { key, value } => {
            let select = label_selectors(key, value);
            let a = with_kind_rule(rules, family, ResourceKind::Container, select, policy);
            let b = with_kind_rule(a, family, ResourceKind::Image, select, policy);
            let c = with_kind_rule(b, family, ResourceKind::Volume, select, policy);
            assert forall|id: Seq<char>|
                (carries_id(rules, id) ==> carries_id(a, id)) && (carries_id(a, id) ==> carries_id(
                    b,
                    id,
                )) && (carries_id(b, id) ==> carries_id(c, id)) && (carries_id(c, id)
                    ==> #[trigger] carries_id(next, id)) by {
                lemma_push_keeps_ids(rules, family, ResourceKind::Container, select, policy, id);
                lemma_push_keeps_ids(a, family, ResourceKind::Image, select, policy, id);
                lemma_push_keeps_ids(b, family, ResourceKind::Volume, select, policy, id);
                lemma_push_keeps_ids(c, family, ResourceKind::Network, select, policy, id);
            }
            if has_kind(family.resources, ResourceKind::Container) {
                lemma_push_keeps_ids(
                    rules,
                    family,
                    ResourceKind::Container,
                    select,
                    policy,
                    Seq::empty(),
                );
                assert(carries_id(next, family_rule_id(family, ResourceKind::Container)));
            } else if has_kind(family.resources, ResourceKind::Image) {
                lemma_push_keeps_ids(a, family, ResourceKind::Image, select, policy, Seq::empty());
                assert(carries_id(next, family_rule_id(family, ResourceKind::Image)));
            } else if has_kind(family.resources, ResourceKind::Volume) {
                lemma_push_keeps_ids(b, family, ResourceKind::Volume, select, policy, Seq::empty());
                assert(carries_id(next, family_rule_id(family, ResourceKind::Volume)));
            } else if has_kind(family.resources, ResourceKind::Network) {
                lemma_push_keeps_ids(
                    c,
                    family,
                    ResourceKind::Network,
                    select,
                    policy,
                    Seq::empty(),
                );
                assert(carries_id(next, family_rule_id(family, ResourceKind::Network)));
            }
            if stands_for(rules, kept) {
                if kept.selector is BuildCache {
                    assert(next.build_cache == rules.build_cache);
                } else {
                    let kind = choose|kind: ResourceKind|
                        carries_id(rules, #[trigger] family_rule_id(kept, kind));
                    assert(carries_id(next, family_rule_id(kept, kind)));
                }
            }
        },
        CandidateSelectorView::NamePrefix { resource_kind, prefix } => {
            let kind = named_kind(resource_kind)->0;
            let select = prefix_selectors(prefix);
            lemma_push_keeps_ids(rules, family, kind, select, policy, Seq::empty());
            if stands_for(rules, kept) && !(kept.selector is BuildCache) {
                let held = choose|held: ResourceKind|
                    carries_id(rules, #[trigger] family_rule_id(kept, held));
                lemma_push_keeps_ids(
                    rules,
                    family,
                    kind,
                    select,
                    policy,
                    family_rule_id(kept, held),
                );
            }
        },
        CandidateSelectorView::BuildCache => {},
    }
}

proof fn lemma_chosen_stand(
    cache_taken: bool,
    families: Seq<CandidateFamilyView>,
    policy: SettingsView,
    index: int,
)
    requires
        chosen_rules(cache_taken, families, policy) is Ok,
        0 <= index < families.len(),
        gets_rule(families[index]),
    ensures
        stands_for(chosen_rules(cache_taken, families, policy)->Ok_0, families[index]),
    decreases families.len(),
{
    let rest = families.drop_last();
    let rules = chosen_rules(cache_taken, rest, policy)->Ok_0;
    let family = families.last();
    if index < rest.len() {
        lemma_chosen_stand(cache_taken, rest, policy, index);
        assert(rest[index] == families[index]);
    }
    if family.selector is BuildCache {
        reveal_strlit("docker-maid.configure/build-cache");
        reveal_strlit("docker-maid.configure/");
        reveal_strlit("build-cache");
        let next = chosen_rules(cache_taken, families, policy)->Ok_0;
        assert(MANAGED_ID_PREFIX@ + "build-cache"@ =~= "docker-maid.configure/build-cache"@);
        assert(manages_cache(next));
        if index < rest.len() && !(families[index].selector is BuildCache) {
            let kind = choose|kind: ResourceKind|
                carries_id(rules, #[trigger] family_rule_id(families[index], kind));
            assert(carries_id(next, family_rule_id(families[index], kind)));
        }
    } else {
        lemma_family_rules(rules, family, policy, families[index]);
    }
}

proof fn lemma_sorted_carries(rules: RulesView, id: Seq<char>)
    requires
        carries_id(rules, id),
    ensures
        carries_id(sorted_rules(rules), id),
{
    let sorted = sorted_rules(rules);
    if exists|i: int|
        0 <= i < rules.containers.len() && (#[trigger] rules.containers[i]).common.id == Some(id) {
        let i = choose|i: int|
            0 <= i < rules.containers.len() && (#[trigger] rules.containers[i]).common.id == Some(
                id,
            );
        lemma_ranked_keeps::<ContainerRule>(rules.containers, i);
        let j = choose|j: int|
            0 <= j < sorted.containers.len() && sorted.containers[j] == rules.containers[i];
        assert(sorted.containers[j].common.id == Some(id));
    } else if exists|i: int|
        0 <= i < rules.images.len() && (#[trigger] rules.images[i]).common.id == Some(id) {
        let i = choose|i: int|
            0 <= i < rules.images.len() && (#[trigger] rules.images[i]).common.id == Some(id);
        lemma_ranked_keeps::<ImageRule>(rules.images, i);
        let j = choose|j: int| 0 <= j < sorted.images.len() && sorted.images[j] == rules.images[i];
        assert(sorted.images[j].common.id == Some(id));
    } else if exists|i: int|
        0 <= i < rules.volumes.len() && (#[trigger] rules.volumes[i]).common.id == Some(id) {
        let i = choose|i: int|
            0 <= i < rules.volumes.len() && (#[trigger] rules.volumes[i]).common.id == Some(id);
        lemma_ranked_keeps::<VolumeRule>(rules.volumes, i);
        let j = choose|j: int|
            0 <= j < sorted.volumes.len() && sorted.volumes[j] == rules.volumes[i];
        assert(sorted.volumes[j].common.id == Some(id));
    } else {
        let i = choose|i: int|
            0 <= i < rules.networks.len() && (#[trigger] rules.networks[i]).common.id == Some(id);
        lemma_ranked_keeps::<NetworkRule>(rules.networks, i);
        let j = choose|j: int|
            0 <= j < sorted.networks.len() && sorted.networks[j] == rules.networks[i];
        assert(sorted.networks[j].common.id == Some(id));
    }
}

proof fn lemma_present(ids: Seq<Option<Seq<char>>>, index: int)
    requires
        0 <= index < ids.len(),
        ids[index] is Some,
    ensures
        present_ids(ids).contains(ids[index]->0),
    decreases ids.len(),
{
    let rest = present_ids(ids.drop_last());
    let all = present_ids(ids);
    if index < ids.len() - 1 {
        lemma_present(ids.drop_last(), index);
        let i = choose|i: int| 0 <= i < rest.len() && rest[i] == ids[index]->0;
        assert(all[i] == ids[index]->0);
    } else {
        assert(all[all.len() - 1] == ids[index]->0);
    }
}

proof fn lemma_carried_is_listed(rules: RulesView, id: Seq<char>)
    requires
        carries_id(rules, id),
    ensures
        sorted_rule_ids(rules).contains(id),
{
    let slots = rule_id_slots(rules);
    let containers = rules.containers.len() as int;
    let images = containers + rules.images.len();
    let volumes = images + rules.volumes.len();
    let place = if exists|i: int|
        0 <= i < rules.containers.len() && (#[trigger] rules.containers[i]).common.id == Some(id) {
        choose|i: int|
            0 <= i < rules.containers.len() && (#[trigger] rules.containers[i]).common.id == Some(
                id,
            )
    } else if exists|i: int|
        0 <= i < rules.images.len() && (#[trigger] rules.images[i]).common.id == Some(id) {
        containers + choose|i: int|
            0 <= i < rules.images.len() && (#[trigger] rules.images[i]).common.id == Some(id)
    } else if exists|i: int|
        0 <= i < rules.volumes.len() && (#[trigger] rules.volumes[i]).common.id == Some(id) {
        images + choose|i: int|
            0 <= i < rules.volumes.len() && (#[trigger] rules.volumes[i]).common.id == Some(id)
    } else {
        volumes + choose|i: int|
            0 <= i < rules.networks.len() && (#[trigger] rules.networks[i]).common.id == Some(id)
    };
    assert(slots[place] == Some(id));
    lemma_present(slots, place);
    let present = present_ids(slots);
    let i = choose|i: int| 0 <= i < present.len() && present[i] == id;
    lemma_ranked_keeps::<String>(present, i);
}

proof fn lemma_rule_id_names_family(family: CandidateFamilyView, kind: ResourceKind)
    ensures
        names_family(family_rule_id(family, kind), family.id),
{
    let prefix = MANAGED_ID_PREFIX@ + family.id + "/"@;
    let id = family_rule_id(family, kind);
    assert(id.subrange(0, prefix.len() as int) =~= prefix);
    assert(id.skip(prefix.len() as int) =~= kind_text(kind));
    reveal_strlit("container");
    reveal_strlit("image");
    reveal_strlit("volume");
    reveal_strlit("network");
    reveal_strlit("build-cache");
    assert(!kind_text(kind).contains('/'));
}

/// A family that comes to a rule is found again by the ids of the rules that
/// were written for it.
pub proof fn chosen_families_are_found_again(
    cache_taken: bool,
    families: Seq<CandidateFamilyView>,
    policy: SettingsView,
    index: int,
)
    requires
        managed_rules(cache_taken, families, policy) is Ok,
        0 <= index < families.len(),
        gets_rule(families[index]),
    ensures
        manages(managed_rules(cache_taken, families, policy)->Ok_0, families[index].id),
{
    let rules = chosen_rules(cache_taken, families, policy)->Ok_0;
    let sorted = sorted_rules(rules);
    let family = families[index];
    lemma_chosen_stand(cache_taken, families, policy, index);
    if !(family.selector is BuildCache) {
        let kind = choose|kind: ResourceKind|
            carries_id(rules, #[trigger] family_rule_id(family, kind));
        let id = family_rule_id(family, kind);
        lemma_sorted_carries(rules, id);
        let scoped = without_cache_rule(sorted);
        assert(carries_id(scoped, id));
        lemma_carried_is_listed(scoped, id);
        lemma_rule_id_names_family(family, kind);
        let ids = sorted_rule_ids(scoped);
        let i = choose|i: int| 0 <= i < ids.len() && ids[i] == id;
        assert(names_family(ids[i], family.id));
    }
}

} // verus!
