//! What the rules that the configurator writes say: of whom, and for how long.

use crate::candidate::{
    CandidateFamilyView, CandidateResourceView, CandidateSelectorView, ConfiguratorError,
};
use crate::config::{
    CommonRuleView, Config, ContainerRule, ContainerRuleView, ImageRule, ImageRuleView,
    NetworkRule, NetworkRuleView, RuleScope, RulesView, SelectorsView, VolumeRule, VolumeRuleView,
};
use crate::generate::{
    chosen_rules, has_kind, label_selectors, managed_rules, prefix_selectors, sorted_rules,
    with_family_rules, with_kind_rule, with_managed_rule, MANAGED_ID_PREFIX,
};
use crate::naming::glob_escaped;
use crate::order::{lemma_ranked_holds, lemma_ranked_keeps};
use crate::outside::regex_escaped;
use crate::profile::SettingsView;
use crate::proposal::{choice_of, proposed_rules, Choice, ProposalRequest};
use crate::resource::ResourceKind;
use crate::text::views;
use vstd::prelude::*;

verus! {

/// Whether selectors pick a family: by its one label, or by its one prefix, and
/// by nothing else.
pub open spec fn selects_family(select: SelectorsView, family: CandidateFamilyView) -> bool {
    &&& select.name_parts.len() == 0
    &&& match family.selector {
        CandidateSelectorView::ExactLabel { key, value } => {
            &&& select.labels == seq![glob_escaped(key + "="@ + value)]
            &&& select.names.len() == 0
        },
        CandidateSelectorView::NamePrefix { prefix, .. } => {
            &&& select.names == seq!["^"@ + regex_escaped(prefix)]
            &&& select.labels.len() == 0
        },
        CandidateSelectorView::BuildCache => false,
    }
}

/// Whether the common part of a rule is that of a family's rule for a kind.
pub open spec fn is_common_for(
    common: CommonRuleView,
    family: CandidateFamilyView,
    kind: Seq<char>,
) -> bool {
    &&& common.id == Some(MANAGED_ID_PREFIX@ + family.id + "/"@ + kind)
    &&& selects_family(common.select, family)
    &&& common.scope == RuleScope::Owned
    &&& !common.allow_unscoped
}

/// Whether a container rule is the one that settings ask for on a family.
pub open spec fn is_container_rule_for(
    rule: ContainerRuleView,
    family: CandidateFamilyView,
    policy: SettingsView,
) -> bool {
    &&& is_common_for(rule.common, family, "container"@)
    &&& rule.stopped_ttl == Some(policy.stopped_container_ttl)
    &&& rule.running_ttl is None
}

/// Whether a container rule is asked for by some family.
pub open spec fn container_rule_is_asked_for(
    rule: ContainerRuleView,
    families: Seq<CandidateFamilyView>,
    policy: SettingsView,
) -> bool {
    exists|f: int|
        0 <= f < families.len() && is_container_rule_for(rule, #[trigger] families[f], policy)
}

/// Whether some container rule is the one that settings ask for on a family.
pub open spec fn has_container_rule(
    rules: Seq<ContainerRuleView>,
    family: CandidateFamilyView,
    policy: SettingsView,
) -> bool {
    exists|i: int| 0 <= i < rules.len() && is_container_rule_for(#[trigger] rules[i], family, policy)
}

/// Whether a image rule is the one that settings ask for on a family.
pub open spec fn is_image_rule_for(
    rule: ImageRuleView,
    family: CandidateFamilyView,
    policy: SettingsView,
) -> bool {
    &&& is_common_for(rule.common, family, "image"@)
    &&& rule.unused_for == Some(policy.image_ttl)
    &&& rule.dangling
    &&& match family.selector {
        CandidateSelectorView::ExactLabel { .. } => rule.image_tag_patterns == seq!["*"@],
        CandidateSelectorView::NamePrefix { prefix, .. } => rule.image_tag_patterns == seq![
            glob_escaped(prefix) + "*"@,
        ],
        CandidateSelectorView::BuildCache => false,
    }
}

/// Whether a image rule is asked for by some family.
pub open spec fn image_rule_is_asked_for(
    rule: ImageRuleView,
    families: Seq<CandidateFamilyView>,
    policy: SettingsView,
) -> bool {
    exists|f: int|
        0 <= f < families.len() && is_image_rule_for(rule, #[trigger] families[f], policy)
}

/// Whether some image rule is the one that settings ask for on a family.
pub open spec fn has_image_rule(
    rules: Seq<ImageRuleView>,
    family: CandidateFamilyView,
    policy: SettingsView,
) -> bool {
    exists|i: int| 0 <= i < rules.len() && is_image_rule_for(#[trigger] rules[i], family, policy)
}

/// Whether a volume rule is the one that settings ask for on a family.
pub open spec fn is_volume_rule_for(
    rule: VolumeRuleView,
    family: CandidateFamilyView,
    policy: SettingsView,
) -> bool {
    &&& is_common_for(rule.common, family, "volume"@)
    &&& rule.orphan_for == Some(policy.volume_ttl)
}

/// Whether a volume rule is asked for by some family.
pub open spec fn volume_rule_is_asked_for(
    rule: VolumeRuleView,
    families: Seq<CandidateFamilyView>,
    policy: SettingsView,
) -> bool {
    exists|f: int|
        0 <= f < families.len() && is_volume_rule_for(rule, #[trigger] families[f], policy)
}

/// Whether some volume rule is the one that settings ask for on a family.
pub open spec fn has_volume_rule(
    rules: Seq<VolumeRuleView>,
    family: CandidateFamilyView,
    policy: SettingsView,
) -> bool {
    exists|i: int| 0 <= i < rules.len() && is_volume_rule_for(#[trigger] rules[i], family, policy)
}

/// Whether a network rule is the one that settings ask for on a family.
pub open spec fn is_network_rule_for(
    rule: NetworkRuleView,
    family: CandidateFamilyView,
    policy: SettingsView,
) -> bool {
    &&& is_common_for(rule.common, family, "network"@)
    &&& rule.orphan
    &&& rule.orphan_for is None
}

/// Whether a network rule is asked for by some family.
pub open spec fn network_rule_is_asked_for(
    rule: NetworkRuleView,
    families: Seq<CandidateFamilyView>,
    policy: SettingsView,
) -> bool {
    exists|f: int|
        0 <= f < families.len() && is_network_rule_for(rule, #[trigger] families[f], policy)
}

/// Whether some network rule is the one that settings ask for on a family.
pub open spec fn has_network_rule(
    rules: Seq<NetworkRuleView>,
    family: CandidateFamilyView,
    policy: SettingsView,
) -> bool {
    exists|i: int| 0 <= i < rules.len() && is_network_rule_for(#[trigger] rules[i], family, policy)
}

/// Whether a family asks for a rule on a kind: a label family where it has a
/// resource of the kind, a prefix family for the kind of the prefix.
pub open spec fn asks_for(family: CandidateFamilyView, kind: Seq<char>) -> bool {
    match family.selector {
        CandidateSelectorView::ExactLabel { .. } => exists|r: int|
            0 <= r < family.resources.len() && (#[trigger] family.resources[r]).resource_kind
                == kind,
        CandidateSelectorView::NamePrefix { resource_kind, .. } => resource_kind == kind,
        CandidateSelectorView::BuildCache => false,
    }
}

/// Whether every rule is asked for by some family, and the build-cache rule by
/// the settings.
pub open spec fn every_rule_is_asked_for(
    rules: RulesView,
    families: Seq<CandidateFamilyView>,
    policy: SettingsView,
) -> bool {
    &&& forall|i: int|
        0 <= i < rules.containers.len() ==> container_rule_is_asked_for(
            #[trigger] rules.containers[i],
            families,
            policy,
        )
    &&& forall|i: int|
        0 <= i < rules.images.len() ==> image_rule_is_asked_for(
            #[trigger] rules.images[i],
            families,
            policy,
        )
    &&& forall|i: int|
        0 <= i < rules.volumes.len() ==> volume_rule_is_asked_for(
            #[trigger] rules.volumes[i],
            families,
            policy,
        )
    &&& forall|i: int|
        0 <= i < rules.networks.len() ==> network_rule_is_asked_for(
            #[trigger] rules.networks[i],
            families,
            policy,
        )
    &&& rules.build_cache is Some <==> exists|f: int|
        0 <= f < families.len() && (#[trigger] families[f]).selector is BuildCache
    &&& rules.build_cache matches Some(rule) ==> {
        &&& rule.older_than == Some(policy.build_cache_ttl)
        &&& rule.max_bytes == Some(policy.build_cache_max_bytes)
        &&& rule.allow_unscoped
    }
}

/// Whether a family has every rule that it asks for.
pub open spec fn family_is_covered(
    rules: RulesView,
    family: CandidateFamilyView,
    policy: SettingsView,
) -> bool {
    &&& asks_for(family, "container"@) ==> has_container_rule(rules.containers, family, policy)
    &&& asks_for(family, "image"@) ==> has_image_rule(rules.images, family, policy)
    &&& asks_for(family, "volume"@) ==> has_volume_rule(rules.volumes, family, policy)
    &&& asks_for(family, "network"@) ==> has_network_rule(rules.networks, family, policy)
}

/// Whether rules are the rules so far and more.
spec fn extends(before: RulesView, after: RulesView) -> bool {
    &&& before.containers.len() <= after.containers.len()
    &&& forall|i: int|
        0 <= i < before.containers.len() ==> #[trigger] after.containers[i] == before.containers[i]
    &&& before.images.len() <= after.images.len()
    &&& forall|i: int|
        0 <= i < before.images.len() ==> #[trigger] after.images[i] == before.images[i]
    &&& before.volumes.len() <= after.volumes.len()
    &&& forall|i: int|
        0 <= i < before.volumes.len() ==> #[trigger] after.volumes[i] == before.volumes[i]
    &&& before.networks.len() <= after.networks.len()
    &&& forall|i: int|
        0 <= i < before.networks.len() ==> #[trigger] after.networks[i] == before.networks[i]
}

spec fn own_rule(
    rules: RulesView,
    family: CandidateFamilyView,
    kind: ResourceKind,
    policy: SettingsView,
) -> bool {
    match kind {
        ResourceKind::Container => has_container_rule(rules.containers, family, policy),
        ResourceKind::Image => has_image_rule(rules.images, family, policy),
        ResourceKind::Volume => has_volume_rule(rules.volumes, family, policy),
        ResourceKind::Network => has_network_rule(rules.networks, family, policy),
        ResourceKind::BuildCache => true,
    }
}

/// Whether the rules that came behind others are all those of one family.
spec fn adds_only(
    before: RulesView,
    after: RulesView,
    family: CandidateFamilyView,
    policy: SettingsView,
) -> bool {
    &&& extends(before, after)
    &&& before.build_cache == after.build_cache
    &&& forall|i: int|
        before.containers.len() <= i < after.containers.len() ==> is_container_rule_for(
            #[trigger] after.containers[i],
            family,
            policy,
        )
    &&& forall|i: int|
        before.images.len() <= i < after.images.len() ==> is_image_rule_for(
            #[trigger] after.images[i],
            family,
            policy,
        )
    &&& forall|i: int|
        before.volumes.len() <= i < after.volumes.len() ==> is_volume_rule_for(
            #[trigger] after.volumes[i],
            family,
            policy,
        )
    &&& forall|i: int|
        before.networks.len() <= i < after.networks.len() ==> is_network_rule_for(
            #[trigger] after.networks[i],
            family,
            policy,
        )
}

proof fn lemma_one_rule(
    rules: RulesView,
    family: CandidateFamilyView,
    kind: ResourceKind,
    select: SelectorsView,
    policy: SettingsView,
)
    requires
        selects_family(select, family),
    ensures
        adds_only(rules, with_managed_rule(rules, family, kind, select, policy), family, policy),
        own_rule(with_managed_rule(rules, family, kind, select, policy), family, kind, policy),
{
    let after = with_managed_rule(rules, family, kind, select, policy);
    match kind {
        ResourceKind::Container => {
            let i = rules.containers.len() as int;
            assert(is_container_rule_for(after.containers[i], family, policy));
        },
        ResourceKind::Image => {
            let i = rules.images.len() as int;
            assert(is_image_rule_for(after.images[i], family, policy));
        },
        ResourceKind::Volume => {
            let i = rules.volumes.len() as int;
            assert(is_volume_rule_for(after.volumes[i], family, policy));
        },
        ResourceKind::Network => {
            let i = rules.networks.len() as int;
            assert(is_network_rule_for(after.networks[i], family, policy));
        },
        ResourceKind::BuildCache => {},
    }
}

proof fn lemma_own_stays(
    before: RulesView,
    after: RulesView,
    family: CandidateFamilyView,
    kind: ResourceKind,
    policy: SettingsView,
)
    requires
        extends(before, after),
        own_rule(before, family, kind, policy),
    ensures
        own_rule(after, family, kind, policy),
{
    match kind {
        ResourceKind::Container => {
            let i = choose|i: int|
                0 <= i < before.containers.len() && is_container_rule_for(
                    #[trigger] before.containers[i],
                    family,
                    policy,
                );
            assert(after.containers[i] == before.containers[i]);
        },
        ResourceKind::Image => {
            let i = choose|i: int|
                0 <= i < before.images.len() && is_image_rule_for(
                    #[trigger] before.images[i],
                    family,
                    policy,
                );
            assert(after.images[i] == before.images[i]);
        },
        ResourceKind::Volume => {
            let i = choose|i: int|
                0 <= i < before.volumes.len() && is_volume_rule_for(
                    #[trigger] before.volumes[i],
                    family,
                    policy,
                );
            assert(after.volumes[i] == before.volumes[i]);
        },
        ResourceKind::Network => {
            let i = choose|i: int|
                0 <= i < before.networks.len() && is_network_rule_for(
                    #[trigger] before.networks[i],
                    family,
                    policy,
                );
            assert(after.networks[i] == before.networks[i]);
        },
        ResourceKind::BuildCache => {},
    }
}

proof fn lemma_kind_words()
    ensures
        "container"@ != "image"@,
        "container"@ != "volume"@,
        "container"@ != "network"@,
        "image"@ != "volume"@,
        "image"@ != "network"@,
        "volume"@ != "network"@,
        "container"@ != "build-cache"@,
        "image"@ != "build-cache"@,
        "volume"@ != "build-cache"@,
        "network"@ != "build-cache"@,
{
    reveal_strlit("container");
    reveal_strlit("image");
    reveal_strlit("volume");
    reveal_strlit("network");
    reveal_strlit("build-cache");
    assert("container"@[0] == 'c' && "image"@[0] == 'i' && "volume"@[0] == 'v');
    assert("network"@[0] == 'n' && "build-cache"@[0] == 'b');
}

proof fn lemma_has_kind(resources: Seq<CandidateResourceView>, r: int)
    requires
        0 <= r < resources.len(),
    ensures
        resources[r].resource_kind == "container"@ ==> has_kind(resources, ResourceKind::Container),
        resources[r].resource_kind == "image"@ ==> has_kind(resources, ResourceKind::Image),
        resources[r].resource_kind == "volume"@ ==> has_kind(resources, ResourceKind::Volume),
        resources[r].resource_kind == "network"@ ==> has_kind(resources, ResourceKind::Network),
{
    lemma_kind_words();
}

proof fn lemma_family_rules(rules: RulesView, family: CandidateFamilyView, policy: SettingsView)
    requires
        with_family_rules(rules, family, policy) is Ok,
        !(family.selector is BuildCache),
    ensures
        adds_only(rules, with_family_rules(rules, family, policy)->Ok_0, family, policy),
        family_is_covered(with_family_rules(rules, family, policy)->Ok_0, family, policy),
{
    let all = with_family_rules(rules, family, policy)->Ok_0;
    lemma_kind_words();
    match family.selector {
        CandidateSelectorView::ExactLabel { key, value } => {
            let select = label_selectors(key, value);
            let a = with_kind_rule(rules, family, ResourceKind::Container, select, policy);
            let b = with_kind_rule(a, family, ResourceKind::Image, select, policy);
            let c = with_kind_rule(b, family, ResourceKind::Volume, select, policy);
            let d = with_kind_rule(c, family, ResourceKind::Network, select, policy);
            lemma_one_rule(rules, family, ResourceKind::Container, select, policy);
            lemma_one_rule(a, family, ResourceKind::Image, select, policy);
            lemma_one_rule(b, family, ResourceKind::Volume, select, policy);
            lemma_one_rule(c, family, ResourceKind::Network, select, policy);
            assert(adds_only(rules, a, family, policy));
            assert(adds_only(a, b, family, policy));
            assert(adds_only(b, c, family, policy));
            assert(adds_only(c, d, family, policy));
            assert(extends(a, d));
            assert(extends(b, d));
            if has_kind(family.resources, ResourceKind::Container) {
                lemma_own_stays(a, d, family, ResourceKind::Container, policy);
            }
            if has_kind(family.resources, ResourceKind::Image) {
                lemma_own_stays(b, d, family, ResourceKind::Image, policy);
            }
            if has_kind(family.resources, ResourceKind::Volume) {
                lemma_own_stays(c, d, family, ResourceKind::Volume, policy);
            }
            if asks_for(family, "container"@) {
                let r = choose|r: int|
                    0 <= r < family.resources.len() && (
                    #[trigger] family.resources[r]).resource_kind == "container"@;
                lemma_has_kind(family.resources, r);
            }
            if asks_for(family, "image"@) {
                let r = choose|r: int|
                    0 <= r < family.resources.len() && (
                    #[trigger] family.resources[r]).resource_kind == "image"@;
                lemma_has_kind(family.resources, r);
            }
            if asks_for(family, "volume"@) {
                let r = choose|r: int|
                    0 <= r < family.resources.len() && (
                    #[trigger] family.resources[r]).resource_kind == "volume"@;
                lemma_has_kind(family.resources, r);
            }
            if asks_for(family, "network"@) {
                let r = choose|r: int|
                    0 <= r < family.resources.len() && (
                    #[trigger] family.resources[r]).resource_kind == "network"@;
                lemma_has_kind(family.resources, r);
            }
        },
        CandidateSelectorView::NamePrefix { resource_kind, prefix } => {
            let kind = crate::candidate::named_kind(resource_kind)->0;
            lemma_one_rule(rules, family, kind, prefix_selectors(prefix), policy);
        },
        CandidateSelectorView::BuildCache => {},
    }
}

proof fn lemma_chosen(
    cache_taken: bool,
    families: Seq<CandidateFamilyView>,
    policy: SettingsView,
)
    requires
        chosen_rules(cache_taken, families, policy) is Ok,
    ensures
        every_rule_is_asked_for(
            chosen_rules(cache_taken, families, policy)->Ok_0,
            families,
            policy,
        ),
        forall|f: int|
            0 <= f < families.len() ==> family_is_covered(
                chosen_rules(cache_taken, families, policy)->Ok_0,
                #[trigger] families[f],
                policy,
            ),
    decreases families.len(),
{
    if families.len() > 0 {
        let rest = families.drop_last();
        let end = families.len() - 1;
        let family = families[end];
        let before = chosen_rules(cache_taken, rest, policy)->Ok_0;
        let after = chosen_rules(cache_taken, families, policy)->Ok_0;
        lemma_chosen(cache_taken, rest, policy);
        if !(family.selector is BuildCache) {
            lemma_family_rules(before, family, policy);
        }
        assert(extends(before, after));
        assert forall|i: int| 0 <= i < after.containers.len() implies container_rule_is_asked_for(
            #[trigger] after.containers[i],
            families,
            policy,
        ) by {
            if i < before.containers.len() {
                assert(after.containers[i] == before.containers[i]);
                assert(container_rule_is_asked_for(before.containers[i], rest, policy));
                let f = choose|f: int|
                    0 <= f < rest.len() && is_container_rule_for(
                        before.containers[i],
                        #[trigger] rest[f],
                        policy,
                    );
                assert(families[f] == rest[f]);
            } else {
                assert(is_container_rule_for(after.containers[i], families[end], policy));
            }
        }
        assert forall|i: int| 0 <= i < after.images.len() implies image_rule_is_asked_for(
            #[trigger] after.images[i],
            families,
            policy,
        ) by {
            if i < before.images.len() {
                assert(after.images[i] == before.images[i]);
                assert(image_rule_is_asked_for(before.images[i], rest, policy));
                let f = choose|f: int|
                    0 <= f < rest.len() && is_image_rule_for(
                        before.images[i],
                        #[trigger] rest[f],
                        policy,
                    );
                assert(families[f] == rest[f]);
            } else {
                assert(is_image_rule_for(after.images[i], families[end], policy));
            }
        }
        assert forall|i: int| 0 <= i < after.volumes.len() implies volume_rule_is_asked_for(
            #[trigger] after.volumes[i],
            families,
            policy,
        ) by {
            if i < before.volumes.len() {
                assert(after.volumes[i] == before.volumes[i]);
                assert(volume_rule_is_asked_for(before.volumes[i], rest, policy));
                let f = choose|f: int|
                    0 <= f < rest.len() && is_volume_rule_for(
                        before.volumes[i],
                        #[trigger] rest[f],
                        policy,
                    );
                assert(families[f] == rest[f]);
            } else {
                assert(is_volume_rule_for(after.volumes[i], families[end], policy));
            }
        }
        assert forall|i: int| 0 <= i < after.networks.len() implies network_rule_is_asked_for(
            #[trigger] after.networks[i],
            families,
            policy,
        ) by {
            if i < before.networks.len() {
                assert(after.networks[i] == before.networks[i]);
                assert(network_rule_is_asked_for(before.networks[i], rest, policy));
                let f = choose|f: int|
                    0 <= f < rest.len() && is_network_rule_for(
                        before.networks[i],
                        #[trigger] rest[f],
                        policy,
                    );
                assert(families[f] == rest[f]);
            } else {
                assert(is_network_rule_for(after.networks[i], families[end], policy));
            }
        }
        if exists|f: int| 0 <= f < rest.len() && (#[trigger] rest[f]).selector is BuildCache {
            let f = choose|f: int| 0 <= f < rest.len() && (#[trigger] rest[f]).selector is BuildCache;
            assert(families[f].selector is BuildCache);
        }
        if exists|f: int| 0 <= f < families.len() && (#[trigger] families[f]).selector is BuildCache {
            let f = choose|f: int|
                0 <= f < families.len() && (#[trigger] families[f]).selector is BuildCache;
            if f < end {
                assert(rest[f].selector is BuildCache);
            }
        }
        assert forall|f: int| 0 <= f < families.len() implies family_is_covered(
            after,
            #[trigger] families[f],
            policy,
        ) by {
            if f < end {
                assert(rest[f] == families[f]);
                assert(family_is_covered(before, rest[f], policy));
                if asks_for(families[f], "container"@) {
                    lemma_own_stays(before, after, families[f], ResourceKind::Container, policy);
                }
                if asks_for(families[f], "image"@) {
                    lemma_own_stays(before, after, families[f], ResourceKind::Image, policy);
                }
                if asks_for(families[f], "volume"@) {
                    lemma_own_stays(before, after, families[f], ResourceKind::Volume, policy);
                }
                if asks_for(families[f], "network"@) {
                    lemma_own_stays(before, after, families[f], ResourceKind::Network, policy);
                }
            }
        }
    }
}

/// Every rule that the configurator writes is asked for by a chosen family and
/// keeps what it picks for the time that the settings give its kind; every chosen
/// family has the rules that it asks for; and there is a build-cache rule, with
/// the age and the budget of the settings, exactly where the build cache was
/// chosen.
pub proof fn generated_rules_keep_to_the_settings(
    cache_taken: bool,
    families: Seq<CandidateFamilyView>,
    policy: SettingsView,
)
    requires
        managed_rules(cache_taken, families, policy) is Ok,
    ensures
        every_rule_is_asked_for(
            managed_rules(cache_taken, families, policy)->Ok_0,
            families,
            policy,
        ),
        forall|f: int|
            0 <= f < families.len() ==> family_is_covered(
                managed_rules(cache_taken, families, policy)->Ok_0,
                #[trigger] families[f],
                policy,
            ),
{
    let rules = chosen_rules(cache_taken, families, policy)->Ok_0;
    let sorted = sorted_rules(rules);
    lemma_chosen(cache_taken, families, policy);
    assert forall|i: int| 0 <= i < sorted.containers.len() implies container_rule_is_asked_for(
        #[trigger] sorted.containers[i],
        families,
        policy,
    ) by {
        lemma_ranked_holds::<ContainerRule>(rules.containers, i);
        let k = choose|k: int| 0 <= k < rules.containers.len() && rules.containers[k] == sorted.containers[i];
        assert(container_rule_is_asked_for(rules.containers[k], families, policy));
    }
    assert forall|i: int| 0 <= i < sorted.images.len() implies image_rule_is_asked_for(
        #[trigger] sorted.images[i],
        families,
        policy,
    ) by {
        lemma_ranked_holds::<ImageRule>(rules.images, i);
        let k = choose|k: int| 0 <= k < rules.images.len() && rules.images[k] == sorted.images[i];
        assert(image_rule_is_asked_for(rules.images[k], families, policy));
    }
    assert forall|i: int| 0 <= i < sorted.volumes.len() implies volume_rule_is_asked_for(
        #[trigger] sorted.volumes[i],
        families,
        policy,
    ) by {
        lemma_ranked_holds::<VolumeRule>(rules.volumes, i);
        let k = choose|k: int| 0 <= k < rules.volumes.len() && rules.volumes[k] == sorted.volumes[i];
        assert(volume_rule_is_asked_for(rules.volumes[k], families, policy));
    }
    assert forall|i: int| 0 <= i < sorted.networks.len() implies network_rule_is_asked_for(
        #[trigger] sorted.networks[i],
        families,
        policy,
    ) by {
        lemma_ranked_holds::<NetworkRule>(rules.networks, i);
        let k = choose|k: int| 0 <= k < rules.networks.len() && rules.networks[k] == sorted.networks[i];
        assert(network_rule_is_asked_for(rules.networks[k], families, policy));
    }
    assert forall|f: int| 0 <= f < families.len() implies family_is_covered(
        sorted,
        #[trigger] families[f],
        policy,
    ) by {
        let family = families[f];
        assert(family_is_covered(rules, family, policy));
        if asks_for(family, "container"@) {
            let i = choose|i: int|
                0 <= i < rules.containers.len() && is_container_rule_for(
                    #[trigger] rules.containers[i],
                    family,
                    policy,
                );
            lemma_ranked_keeps::<ContainerRule>(rules.containers, i);
            let k = choose|k: int|
                0 <= k < sorted.containers.len() && sorted.containers[k] == rules.containers[i];
            assert(is_container_rule_for(sorted.containers[k], family, policy));
        }
        if asks_for(family, "image"@) {
            let i = choose|i: int|
                0 <= i < rules.images.len() && is_image_rule_for(
                    #[trigger] rules.images[i],
                    family,
                    policy,
                );
            lemma_ranked_keeps::<ImageRule>(rules.images, i);
            let k = choose|k: int|
                0 <= k < sorted.images.len() && sorted.images[k] == rules.images[i];
            assert(is_image_rule_for(sorted.images[k], family, policy));
        }
        if asks_for(family, "volume"@) {
            let i = choose|i: int|
                0 <= i < rules.volumes.len() && is_volume_rule_for(
                    #[trigger] rules.volumes[i],
                    family,
                    policy,
                );
            lemma_ranked_keeps::<VolumeRule>(rules.volumes, i);
            let k = choose|k: int|
                0 <= k < sorted.volumes.len() && sorted.volumes[k] == rules.volumes[i];
            assert(is_volume_rule_for(sorted.volumes[k], family, policy));
        }
        if asks_for(family, "network"@) {
            let i = choose|i: int|
                0 <= i < rules.networks.len() && is_network_rule_for(
                    #[trigger] rules.networks[i],
                    family,
                    policy,
                );
            lemma_ranked_keeps::<NetworkRule>(rules.networks, i);
            let k = choose|k: int|
                0 <= k < sorted.networks.len() && sorted.networks[k] == rules.networks[i];
            assert(is_network_rule_for(sorted.networks[k], family, policy));
        }
    }
}

/// The rules that a proposal is rendered from are those of the chosen families
/// and of the settings of the request: the ones given, else those of its profile.
pub proof fn a_proposal_keeps_to_its_settings<'a>(
    request: ProposalRequest<'a>,
    manual: Config,
    outcome: Result<Choice, ConfiguratorError>,
)
    requires
        call_ensures(proposed_rules, (&request, &manual), outcome),
        outcome is Ok,
    ensures
        ({
            let policy = match request.policy {
                Some(given) => given@,
                None => crate::profile::profile_settings(request.profile),
            };
            let families = views(outcome->Ok_0.selected@);
            &&& every_rule_is_asked_for(outcome->Ok_0.rules@, families, policy)
            &&& forall|f: int|
                0 <= f < families.len() ==> family_is_covered(
                    outcome->Ok_0.rules@,
                    #[trigger] families[f],
                    policy,
                )
        }),
{
    let choice = choice_of(request@, manual@)->Ok_0;
    generated_rules_keep_to_the_settings(
        manual@.rules.build_cache is Some,
        choice.selected,
        request@.policy,
    );
}

} // verus!
