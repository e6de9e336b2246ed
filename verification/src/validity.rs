//! What a configuration that draws no complaint promises.

use crate::config::{
    cache_complaints, common_complaints, complaints, container_commons, container_complaints,
    containers_complaints, duration_complaint, ids_of, image_commons, image_complaints,
    images_complaints, listed, network_commons, network_complaints, networks_complaints,
    regex_complaint, regex_complaints, rule_field, volume_commons, volume_complaints,
    volumes_complaints, CommonRuleView, Config, ConfigView, ContainerRuleView, ImageRuleView,
    NetworkRuleView, VolumeRuleView,
};
use crate::duration::duration_fault;
use crate::outside::regex_fault;
use crate::policy::{
    containers_fault, globs_build, globs_fault, images_fault, networks_fault, policy_fault, regexes_fault,
    volumes_fault,
};
use crate::plan::{build_plan, Plan, PlanError};
use crate::resource::InventoryItem;
use crate::text::decimal;
use vstd::prelude::*;

verus! {

/// Whether the expression of every glob in a configuration can be built.
pub open spec fn every_glob_builds(config: ConfigView) -> bool {
    &&& globs_build(config.protect.labels)
    &&& forall|i: int|
        0 <= i < config.rules.containers.len() ==> globs_build(
            #[trigger] config.rules.containers[i].common.select.labels,
        )
    &&& forall|i: int|
        0 <= i < config.rules.images.len() ==> globs_build(
            #[trigger] config.rules.images[i].common.select.labels,
        )
    &&& forall|i: int|
        0 <= i < config.rules.images.len() ==> globs_build(
            #[trigger] config.rules.images[i].image_tag_patterns,
        )
    &&& forall|i: int|
        0 <= i < config.rules.volumes.len() ==> globs_build(
            #[trigger] config.rules.volumes[i].common.select.labels,
        )
    &&& forall|i: int|
        0 <= i < config.rules.networks.len() ==> globs_build(
            #[trigger] config.rules.networks[i].common.select.labels,
        )
}

spec fn regexes_hold(values: Seq<Seq<char>>) -> bool {
    forall|i: int| 0 <= i < values.len() ==> regex_fault(#[trigger] values[i]) is None
}

spec fn span_holds(value: Option<Seq<char>>) -> bool {
    value is Some ==> duration_fault(value.unwrap()) is None
}

proof fn lemma_regexes_hold(field: Seq<char>, values: Seq<Seq<char>>)
    requires
        regex_complaints(field, values).len() == 0,
    ensures
        regexes_hold(values),
    decreases values.len(),
{
    if values.len() > 0 {
        lemma_regexes_hold(field, values.drop_last());
        assert(regex_complaint(field, values.len() - 1, values.last()) is None);
        assert forall|i: int| 0 <= i < values.len() implies regex_fault(
            #[trigger] values[i],
        ) is None by {
            if i < values.len() - 1 {
                assert(values.drop_last()[i] == values[i]);
            }
        }
    }
}

proof fn lemma_no_regex_fault(field: Seq<char>, values: Seq<Seq<char>>, index: int)
    requires
        regexes_hold(values),
    ensures
        regexes_fault(field, values, index) is None,
    decreases values.len() - index,
{
    if 0 <= index < values.len() {
        lemma_no_regex_fault(field, values, index + 1);
    }
}

proof fn lemma_no_glob_fault(field: Seq<char>, values: Seq<Seq<char>>, index: int)
    requires
        globs_build(values),
    ensures
        globs_fault(field, values, index) is None,
    decreases values.len() - index,
{
    if 0 <= index < values.len() {
        lemma_no_glob_fault(field, values, index + 1);
    }
}

proof fn lemma_common_holds(field: Seq<char>, rule: CommonRuleView)
    requires
        common_complaints(field, rule).len() == 0,
    ensures
        regexes_hold(rule.select.names),
{
    assert(regex_complaints(field + ".select.names"@, rule.select.names).len() == 0);
    lemma_regexes_hold(field + ".select.names"@, rule.select.names);
}

proof fn lemma_span_holds(field: Seq<char>, value: Option<Seq<char>>)
    requires
        listed(duration_complaint(field, value)).len() == 0,
    ensures
        span_holds(value),
{
}

spec fn container_holds(rule: ContainerRuleView) -> bool {
    &&& regexes_hold(rule.common.select.names)
    &&& span_holds(rule.stopped_ttl)
    &&& span_holds(rule.running_ttl)
}

proof fn lemma_containers_hold(rules: Seq<ContainerRuleView>, earlier: Seq<Seq<char>>)
    requires
        containers_complaints(rules, earlier).len() == 0,
    ensures
        forall|i: int| 0 <= i < rules.len() ==> container_holds(#[trigger] rules[i]),
    decreases rules.len(),
{
    if rules.len() > 0 {
        let rule = rules.last();
        let ids = earlier + ids_of(container_commons(rules.drop_last()));
        let field = rule_field("rules.containers"@, rules.len() - 1);
        lemma_containers_hold(rules.drop_last(), earlier);
        assert(container_complaints(rules.len() - 1, rule, ids).len() == 0);
        lemma_common_holds(field, rule.common);
        lemma_span_holds(field + ".stopped_ttl"@, rule.stopped_ttl);
        lemma_span_holds(field + ".running_ttl"@, rule.running_ttl);
        assert forall|i: int| 0 <= i < rules.len() implies container_holds(#[trigger] rules[i]) by {
            if i < rules.len() - 1 {
                assert(rules.drop_last()[i] == rules[i]);
            }
        }
    }
}

proof fn lemma_no_container_fault(rules: Seq<ContainerRuleView>, index: int)
    requires
        forall|i: int| 0 <= i < rules.len() ==> container_holds(#[trigger] rules[i]),
        forall|i: int|
            0 <= i < rules.len() ==> globs_build(#[trigger] rules[i].common.select.labels),
    ensures
        containers_fault(rules, index) is None,
    decreases rules.len() - index,
{
    if 0 <= index < rules.len() {
        let rule = rules[index];
        let field = "rules.containers"@ + "["@ + decimal(index as nat) + "]"@;
        assert(container_holds(rule));
        assert(globs_build(rule.common.select.labels));
        lemma_no_glob_fault(field + ".select"@ + ".labels"@, rule.common.select.labels, 0);
        lemma_no_regex_fault(field + ".select"@ + ".names"@, rule.common.select.names, 0);
        lemma_no_container_fault(rules, index + 1);
    }
}

spec fn image_holds(rule: ImageRuleView) -> bool {
    &&& regexes_hold(rule.common.select.names)
    &&& span_holds(rule.unused_for)
}

proof fn lemma_images_hold(rules: Seq<ImageRuleView>, earlier: Seq<Seq<char>>)
    requires
        images_complaints(rules, earlier).len() == 0,
    ensures
        forall|i: int| 0 <= i < rules.len() ==> image_holds(#[trigger] rules[i]),
    decreases rules.len(),
{
    if rules.len() > 0 {
        let rule = rules.last();
        let ids = earlier + ids_of(image_commons(rules.drop_last()));
        let field = rule_field("rules.images"@, rules.len() - 1);
        lemma_images_hold(rules.drop_last(), earlier);
        assert(image_complaints(rules.len() - 1, rule, ids).len() == 0);
        lemma_common_holds(field, rule.common);
        lemma_span_holds(field + ".unused_for"@, rule.unused_for);
        assert forall|i: int| 0 <= i < rules.len() implies image_holds(#[trigger] rules[i]) by {
            if i < rules.len() - 1 {
                assert(rules.drop_last()[i] == rules[i]);
            }
        }
    }
}

proof fn lemma_no_image_fault(rules: Seq<ImageRuleView>, index: int)
    requires
        forall|i: int| 0 <= i < rules.len() ==> image_holds(#[trigger] rules[i]),
        forall|i: int|
            0 <= i < rules.len() ==> globs_build(#[trigger] rules[i].common.select.labels),
        forall|i: int| 0 <= i < rules.len() ==> globs_build(#[trigger] rules[i].image_tag_patterns),
    ensures
        images_fault(rules, index) is None,
    decreases rules.len() - index,
{
    if 0 <= index < rules.len() {
        let rule = rules[index];
        let field = "rules.images"@ + "["@ + decimal(index as nat) + "]"@;
        assert(image_holds(rule));
        assert(globs_build(rule.common.select.labels));
        lemma_no_glob_fault(field + ".select"@ + ".labels"@, rule.common.select.labels, 0);
        lemma_no_regex_fault(field + ".select"@ + ".names"@, rule.common.select.names, 0);
        assert(globs_build(rule.image_tag_patterns));
        lemma_no_glob_fault(field + ".image_tag_patterns"@, rule.image_tag_patterns, 0);
        lemma_no_image_fault(rules, index + 1);
    }
}

spec fn volume_holds(rule: VolumeRuleView) -> bool {
    &&& regexes_hold(rule.common.select.names)
    &&& span_holds(rule.orphan_for)
}

proof fn lemma_volumes_hold(rules: Seq<VolumeRuleView>, earlier: Seq<Seq<char>>)
    requires
        volumes_complaints(rules, earlier).len() == 0,
    ensures
        forall|i: int| 0 <= i < rules.len() ==> volume_holds(#[trigger] rules[i]),
    decreases rules.len(),
{
    if rules.len() > 0 {
        let rule = rules.last();
        let ids = earlier + ids_of(volume_commons(rules.drop_last()));
        let field = rule_field("rules.volumes"@, rules.len() - 1);
        lemma_volumes_hold(rules.drop_last(), earlier);
        assert(volume_complaints(rules.len() - 1, rule, ids).len() == 0);
        lemma_common_holds(field, rule.common);
        lemma_span_holds(field + ".orphan_for"@, rule.orphan_for);
        assert forall|i: int| 0 <= i < rules.len() implies volume_holds(#[trigger] rules[i]) by {
            if i < rules.len() - 1 {
                assert(rules.drop_last()[i] == rules[i]);
            }
        }
    }
}

proof fn lemma_no_volume_fault(rules: Seq<VolumeRuleView>, index: int)
    requires
        forall|i: int| 0 <= i < rules.len() ==> volume_holds(#[trigger] rules[i]),
        forall|i: int|
            0 <= i < rules.len() ==> globs_build(#[trigger] rules[i].common.select.labels),
    ensures
        volumes_fault(rules, index) is None,
    decreases rules.len() - index,
{
    if 0 <= index < rules.len() {
        let rule = rules[index];
        let field = "rules.volumes"@ + "["@ + decimal(index as nat) + "]"@;
        assert(volume_holds(rule));
        assert(globs_build(rule.common.select.labels));
        lemma_no_glob_fault(field + ".select"@ + ".labels"@, rule.common.select.labels, 0);
        lemma_no_regex_fault(field + ".select"@ + ".names"@, rule.common.select.names, 0);
        lemma_no_volume_fault(rules, index + 1);
    }
}

spec fn network_holds(rule: NetworkRuleView) -> bool {
    &&& regexes_hold(rule.common.select.names)
    &&& span_holds(rule.orphan_for)
}

proof fn lemma_networks_hold(rules: Seq<NetworkRuleView>, earlier: Seq<Seq<char>>)
    requires
        networks_complaints(rules, earlier).len() == 0,
    ensures
        forall|i: int| 0 <= i < rules.len() ==> network_holds(#[trigger] rules[i]),
    decreases rules.len(),
{
    if rules.len() > 0 {
        let rule = rules.last();
        let ids = earlier + ids_of(network_commons(rules.drop_last()));
        let field = rule_field("rules.networks"@, rules.len() - 1);
        lemma_networks_hold(rules.drop_last(), earlier);
        assert(network_complaints(rules.len() - 1, rule, ids).len() == 0);
        lemma_common_holds(field, rule.common);
        lemma_span_holds(field + ".orphan_for"@, rule.orphan_for);
        assert forall|i: int| 0 <= i < rules.len() implies network_holds(#[trigger] rules[i]) by {
            if i < rules.len() - 1 {
                assert(rules.drop_last()[i] == rules[i]);
            }
        }
    }
}

proof fn lemma_no_network_fault(rules: Seq<NetworkRuleView>, index: int)
    requires
        forall|i: int| 0 <= i < rules.len() ==> network_holds(#[trigger] rules[i]),
        forall|i: int|
            0 <= i < rules.len() ==> globs_build(#[trigger] rules[i].common.select.labels),
    ensures
        networks_fault(rules, index) is None,
    decreases rules.len() - index,
{
    if 0 <= index < rules.len() {
        let rule = rules[index];
        let field = "rules.networks"@ + "["@ + decimal(index as nat) + "]"@;
        assert(network_holds(rule));
        assert(globs_build(rule.common.select.labels));
        lemma_no_glob_fault(field + ".select"@ + ".labels"@, rule.common.select.labels, 0);
        lemma_no_regex_fault(field + ".select"@ + ".names"@, rule.common.select.names, 0);
        lemma_no_network_fault(rules, index + 1);
    }
}

/// A configuration that draws no complaint can be compiled, given that the
/// expression of each of its globs can be built.
pub proof fn a_valid_configuration_compiles(config: ConfigView)
    ensures
        complaints(config).len() == 0 && every_glob_builds(config) ==> policy_fault(config) is None,
{
    if complaints(config).len() == 0 && every_glob_builds(config) {
        let containers = ids_of(container_commons(config.rules.containers));
        let images = containers + ids_of(image_commons(config.rules.images));
        let volumes = images + ids_of(volume_commons(config.rules.volumes));
        let networks = volumes + ids_of(network_commons(config.rules.networks));
        lemma_regexes_hold("protect.names"@, config.protect.names);
        lemma_no_regex_fault("protect"@ + ".names"@, config.protect.names, 0);
        lemma_no_glob_fault("protect"@ + ".labels"@, config.protect.labels, 0);
        lemma_containers_hold(config.rules.containers, Seq::empty());
        lemma_no_container_fault(config.rules.containers, 0);
        lemma_images_hold(config.rules.images, containers);
        lemma_no_image_fault(config.rules.images, 0);
        lemma_volumes_hold(config.rules.volumes, images);
        lemma_no_volume_fault(config.rules.volumes, 0);
        lemma_networks_hold(config.rules.networks, volumes);
        lemma_no_network_fault(config.rules.networks, 0);
        assert(cache_complaints(config.rules.build_cache, networks).len() == 0);
        if config.rules.build_cache is Some {
            lemma_span_holds(
                "rules.build_cache.older_than"@,
                config.rules.build_cache.unwrap().older_than,
            );
        }
    }
}

/// A configuration that draws no complaint has a plan for every inventory at
/// every moment, given that the expression of each of its globs can be built.
pub proof fn a_valid_configuration_has_a_plan(
    config: Config,
    inventory: Vec<InventoryItem>,
    now: i64,
    outcome: Result<Plan, PlanError>,
)
    ensures
        complaints(config@).len() == 0 && every_glob_builds(config@) && call_ensures(
            build_plan,
            (&config, inventory, now),
            outcome,
        ) ==> outcome is Ok,
{
    a_valid_configuration_compiles(config@);
}

} // verus!
