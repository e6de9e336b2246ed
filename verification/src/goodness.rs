//! When a configuration is valid, said of what it holds.

use crate::config::{
    cache_complaints, common_complaints, complaints, container_commons, container_complaints,
    containers_complaints, duration_complaint, glob_complaint, glob_complaints, id_complaint,
    ids_of, image_commons, image_complaints, images_complaints, listed, listed_id,
    network_commons, network_complaints, networks_complaints, regex_complaint, regex_complaints,
    rule_field, volume_commons, volume_complaints, volumes_complaints, BuildCacheRuleView,
    CommonRuleView, Config, ConfigError, ConfigView, ContainerRuleView, ImageRuleView,
    NetworkRuleView, RuleScope, VolumeRuleView,
};
use crate::outside::{glob_fault, overruns, parsed_duration, regex_fault};
use crate::text::is_blank;
use vstd::prelude::*;

verus! {

/// Whether every pattern is a regular expression that is not blank.
pub open spec fn good_patterns(patterns: Seq<Seq<char>>) -> bool {
    forall|i: int|
        0 <= i < patterns.len() ==> !is_blank(#[trigger] patterns[i]) && regex_fault(patterns[i])
            is None
}

/// Whether every pattern is a glob that is not blank.
pub open spec fn good_globs(patterns: Seq<Seq<char>>) -> bool {
    forall|i: int|
        0 <= i < patterns.len() ==> !is_blank(#[trigger] patterns[i]) && glob_fault(patterns[i])
            is None
}

/// Whether no text is blank.
pub open spec fn none_blank(texts: Seq<Seq<char>>) -> bool {
    forall|i: int| 0 <= i < texts.len() ==> !is_blank(#[trigger] texts[i])
}

/// Whether a duration, where one is written, can be read and is not zero.
pub open spec fn good_span(text: Option<Seq<char>>) -> bool {
    text is Some ==> {
        &&& !overruns(text->0)
        &&& parsed_duration(text->0) is Ok
        &&& parsed_duration(text->0)->Ok_0 != (0u64, 0u32)
    }
}

/// Whether the common part of a rule is good: it is named, it selects by
/// something, nothing that it selects by is blank or unreadable, and it reaches
/// all resources exactly where that is allowed.
pub open spec fn good_common(rule: CommonRuleView) -> bool {
    &&& !is_blank(rule.name)
    &&& rule.select.labels.len() + rule.select.names.len() + rule.select.name_parts.len() > 0
    &&& good_globs(rule.select.labels)
    &&& good_patterns(rule.select.names)
    &&& none_blank(rule.select.name_parts)
    &&& rule.scope == RuleScope::All <==> rule.allow_unscoped
    &&& rule.id is Some ==> !is_blank(rule.id->0)
}

/// Whether a container rule is good.
pub open spec fn good_container(rule: ContainerRuleView) -> bool {
    &&& good_common(rule.common)
    &&& good_span(rule.stopped_ttl)
    &&& good_span(rule.running_ttl)
}

/// The ids of container rules, in their order.
pub open spec fn container_ids(rules: Seq<ContainerRuleView>) -> Seq<Option<Seq<char>>> {
    rules.map_values(|rule: ContainerRuleView| rule.common.id)
}

/// Whether a image rule is good.
pub open spec fn good_image(rule: ImageRuleView) -> bool {
    &&& good_common(rule.common)
    &&& good_globs(rule.image_tag_patterns)
    &&& good_span(rule.unused_for)
}

/// The ids of image rules, in their order.
pub open spec fn image_ids(rules: Seq<ImageRuleView>) -> Seq<Option<Seq<char>>> {
    rules.map_values(|rule: ImageRuleView| rule.common.id)
}

/// Whether a volume rule is good.
pub open spec fn good_volume(rule: VolumeRuleView) -> bool {
    &&& good_common(rule.common)
    &&& good_span(rule.orphan_for)
}

/// The ids of volume rules, in their order.
pub open spec fn volume_ids(rules: Seq<VolumeRuleView>) -> Seq<Option<Seq<char>>> {
    rules.map_values(|rule: VolumeRuleView| rule.common.id)
}

/// Whether a network rule is good.
pub open spec fn good_network(rule: NetworkRuleView) -> bool {
    &&& good_common(rule.common)
    &&& good_span(rule.orphan_for)
}

/// The ids of network rules, in their order.
pub open spec fn network_ids(rules: Seq<NetworkRuleView>) -> Seq<Option<Seq<char>>> {
    rules.map_values(|rule: NetworkRuleView| rule.common.id)
}

/// Whether a build-cache rule is good: it is authorized, it sets an age, a budget
/// or both, and its age can be read.
pub open spec fn good_cache(rule: BuildCacheRuleView) -> bool {
    &&& rule.id is Some ==> !is_blank(rule.id->0)
    &&& rule.allow_unscoped
    &&& rule.older_than is Some || rule.max_bytes is Some
    &&& good_span(rule.older_than)
}

/// The id of the build-cache rule, where there is one.
pub open spec fn cache_ids(rule: Option<BuildCacheRuleView>) -> Seq<Option<Seq<char>>> {
    if rule is Some {
        seq![rule->0.id]
    } else {
        Seq::empty()
    }
}

/// The ids of all rules.
pub open spec fn every_id(config: ConfigView) -> Seq<Option<Seq<char>>> {
    container_ids(config.rules.containers) + image_ids(config.rules.images) + volume_ids(
        config.rules.volumes,
    ) + network_ids(config.rules.networks) + cache_ids(config.rules.build_cache)
}

/// Whether no id is given twice.
pub open spec fn ids_differ(ids: Seq<Option<Seq<char>>>) -> bool {
    forall|i: int, j: int|
        0 <= i < j < ids.len() && ids[i] is Some ==> #[trigger] ids[i] != #[trigger] ids[j]
}

/// Whether a configuration is good as a whole.
pub open spec fn good_config(config: ConfigView) -> bool {
    &&& good_patterns(config.protect.names)
    &&& good_globs(config.protect.labels)
    &&& good_span(config.defaults.interval)
    &&& good_span(config.tui.refresh)
    &&& forall|i: int|
        0 <= i < config.rules.containers.len() ==> good_container(#[trigger] config.rules.containers[i])
    &&& forall|i: int|
        0 <= i < config.rules.images.len() ==> good_image(#[trigger] config.rules.images[i])
    &&& forall|i: int|
        0 <= i < config.rules.volumes.len() ==> good_volume(#[trigger] config.rules.volumes[i])
    &&& forall|i: int|
        0 <= i < config.rules.networks.len() ==> good_network(#[trigger] config.rules.networks[i])
    &&& config.rules.build_cache is Some ==> good_cache(config.rules.build_cache->0)
    &&& ids_differ(every_id(config))
}

proof fn lemma_patterns(field: Seq<char>, values: Seq<Seq<char>>)
    ensures
        regex_complaints(field, values).len() == 0 <==> good_patterns(values),
    decreases values.len(),
{
    if values.len() > 0 {
        let rest = values.drop_last();
        let end = values.len() - 1;
        lemma_patterns(field, rest);
        assert(regex_complaints(field, values).len() == regex_complaints(field, rest).len()
            + listed(regex_complaint(field, end, values.last())).len());
        if good_patterns(values) {
            assert forall|i: int| 0 <= i < rest.len() implies !is_blank(#[trigger] rest[i])
                && regex_fault(rest[i]) is None by {
                assert(rest[i] == values[i]);
            }
            assert(!is_blank(values[end]));
        }
        if good_patterns(rest) && regex_complaint(field, end, values.last()) is None {
            assert forall|i: int| 0 <= i < values.len() implies !is_blank(#[trigger] values[i])
                && regex_fault(values[i]) is None by {
                if i < end {
                    assert(rest[i] == values[i]);
                }
            }
        }
    }
}

proof fn lemma_globs(field: Seq<char>, values: Seq<Seq<char>>)
    ensures
        glob_complaints(field, values).len() == 0 <==> good_globs(values),
    decreases values.len(),
{
    if values.len() > 0 {
        let rest = values.drop_last();
        let end = values.len() - 1;
        lemma_globs(field, rest);
        assert(glob_complaints(field, values).len() == glob_complaints(field, rest).len() + listed(
            glob_complaint(field, end, values.last()),
        ).len());
        if good_globs(values) {
            assert forall|i: int| 0 <= i < rest.len() implies !is_blank(#[trigger] rest[i])
                && glob_fault(rest[i]) is None by {
                assert(rest[i] == values[i]);
            }
            assert(!is_blank(values[end]));
        }
        if good_globs(rest) && glob_complaint(field, end, values.last()) is None {
            assert forall|i: int| 0 <= i < values.len() implies !is_blank(#[trigger] values[i])
                && glob_fault(values[i]) is None by {
                if i < end {
                    assert(rest[i] == values[i]);
                }
            }
        }
    }
}

proof fn lemma_span(field: Seq<char>, value: Option<Seq<char>>)
    ensures
        listed(duration_complaint(field, value)).len() == 0 <==> good_span(value),
{
}

proof fn lemma_common(field: Seq<char>, rule: CommonRuleView, earlier: Seq<Seq<char>>)
    ensures
        common_complaints(field, rule).len() == 0 && listed(
            id_complaint(field, rule.id, earlier),
        ).len() == 0 <==> good_common(rule) && (rule.id is Some ==> !earlier.contains(rule.id->0)),
{
    lemma_patterns(field + ".select.names"@, rule.select.names);
    lemma_globs(field + ".select.labels"@, rule.select.labels);
    lemma_blanks(rule.select.labels);
    lemma_blanks(rule.select.names);
    lemma_blanks(rule.select.name_parts);
}

proof fn lemma_blanks(texts: Seq<Seq<char>>)
    ensures
        crate::text::has_blank(texts) <==> !none_blank(texts),
{
}

/// Whether a list of texts holds the ids of rules.
spec fn holds_ids(texts: Seq<Seq<char>>, ids: Seq<Option<Seq<char>>>) -> bool {
    forall|text: Seq<char>|
        !is_blank(text) ==> (#[trigger] texts.contains(text) <==> ids.contains(Some(text)))
}

/// Whether ids are new against others and among themselves.
spec fn ids_are_new(ids: Seq<Option<Seq<char>>>, others: Seq<Option<Seq<char>>>) -> bool {
    forall|i: int|
        0 <= i < ids.len() && ids[i] is Some ==> !others.contains(#[trigger] ids[i]) && !ids.take(
            i,
        ).contains(ids[i])
}

proof fn lemma_contains_joined<A>(left: Seq<A>, right: Seq<A>, value: A)
    ensures
        (left + right).contains(value) <==> left.contains(value) || right.contains(value),
{
    if left.contains(value) {
        let i = choose|i: int| 0 <= i < left.len() && left[i] == value;
        assert((left + right)[i] == value);
    }
    if right.contains(value) {
        let i = choose|i: int| 0 <= i < right.len() && right[i] == value;
        assert((left + right)[left.len() + i] == value);
    }
    if (left + right).contains(value) {
        let i = choose|i: int| 0 <= i < (left + right).len() && (left + right)[i] == value;
        if i < left.len() {
            assert(left[i] == value);
        } else {
            assert(right[i - left.len()] == value);
        }
    }
}

proof fn lemma_differ(left: Seq<Option<Seq<char>>>, right: Seq<Option<Seq<char>>>)
    ensures
        ids_differ(left + right) <==> ids_differ(left) && ids_are_new(right, left),
{
    let all = left + right;
    if ids_differ(all) {
        assert forall|i: int, j: int| 0 <= i < j < left.len() && left[i] is Some implies #[trigger]
        left[i] != #[trigger] left[j] by {
            assert(all[i] != all[j]);
        }
        assert forall|i: int| 0 <= i < right.len() && right[i] is Some implies !left.contains(
            #[trigger] right[i],
        ) && !right.take(i).contains(right[i]) by {
            let at = left.len() + i;
            assert(all[at] == right[i]);
            if left.contains(right[i]) {
                let k = choose|k: int| 0 <= k < left.len() && left[k] == right[i];
                assert(all[k] != all[at]);
            }
            if right.take(i).contains(right[i]) {
                let k = choose|k: int| 0 <= k < i && right.take(i)[k] == right[i];
                assert(all[left.len() + k] != all[at]);
            }
        }
    }
    if ids_differ(left) && ids_are_new(right, left) {
        assert forall|i: int, j: int| 0 <= i < j < all.len() && all[i] is Some implies #[trigger]
        all[i] != #[trigger] all[j] by {
            if j < left.len() {
                assert(left[i] != left[j]);
            } else {
                let b = j - left.len();
                if right[b] == all[i] {
                    assert(!left.contains(right[b]) && !right.take(b).contains(right[b]));
                    if i < left.len() {
                        assert(left[i] == right[b]);
                    } else {
                        assert(right.take(b)[i - left.len()] == right[b]);
                    }
                }
            }
        }
    }
}

proof fn lemma_containers(
    rules: Seq<ContainerRuleView>,
    earlier: Seq<Seq<char>>,
    before: Seq<Option<Seq<char>>>,
)
    requires
        holds_ids(earlier, before),
    ensures
        containers_complaints(rules, earlier).len() == 0 <==> (forall|i: int|
            0 <= i < rules.len() ==> good_container(#[trigger] rules[i])) && ids_are_new(
            container_ids(rules),
            before,
        ),
        containers_complaints(rules, earlier).len() == 0 ==> holds_ids(
            earlier + ids_of(container_commons(rules)),
            before + container_ids(rules),
        ),
    decreases rules.len(),
{
    let ids = container_ids(rules);
    if rules.len() > 0 {
        let rest = rules.drop_last();
        let end = rules.len() - 1;
        let rule = rules[end];
        let field = rule_field("rules.containers"@, end);
        let known = earlier + ids_of(container_commons(rest));
        let rest_ids = container_ids(rest);
        lemma_containers(rest, earlier, before);
        lemma_common(field, rule.common, known);
        lemma_span(field + ".stopped_ttl"@, rule.stopped_ttl);
        lemma_span(field + ".running_ttl"@, rule.running_ttl);
        assert(containers_complaints(rules, earlier).len() == containers_complaints(rest, earlier).len()
            + container_complaints(end, rule, known).len());
        assert(container_commons(rules).drop_last() =~= container_commons(rest));
        assert(container_commons(rules).last() == rule.common);
        assert(rest_ids =~= ids.take(end));
        assert(ids[end] == rule.common.id);
        if (forall|i: int| 0 <= i < rules.len() ==> good_container(#[trigger] rules[i])) {
            assert forall|i: int| 0 <= i < rest.len() implies good_container(#[trigger] rest[i]) by {
                assert(rest[i] == rules[i]);
            }
            assert(good_container(rules[end]));
        }
        if ids_are_new(ids, before) {
            assert forall|i: int| 0 <= i < rest_ids.len() && rest_ids[i] is Some implies
                !before.contains(#[trigger] rest_ids[i]) && !rest_ids.take(i).contains(rest_ids[i]) by {
                assert(rest_ids[i] == ids[i]);
                assert(rest_ids.take(i) =~= ids.take(i));
            }
        }
        if containers_complaints(rest, earlier).len() == 0 {
            if rule.common.id is Some && !is_blank(rule.common.id->0) {
                lemma_contains_joined(before, rest_ids, rule.common.id);
                assert(known.contains(rule.common.id->0) <==> (before + rest_ids).contains(
                    rule.common.id,
                ));
            }
            if good_container(rule) && (rule.common.id is Some ==> !known.contains(rule.common.id->0)) {
                assert forall|i: int| 0 <= i < rules.len() implies good_container(#[trigger] rules[i]) by {
                    if i < end {
                        assert(rest[i] == rules[i]);
                    }
                }
                assert forall|i: int| 0 <= i < ids.len() && ids[i] is Some implies !before.contains(
                    #[trigger] ids[i],
                ) && !ids.take(i).contains(ids[i]) by {
                    if i < end {
                        assert(rest_ids[i] == ids[i]);
                        assert(rest_ids.take(i) =~= ids.take(i));
                    }
                }
                let now = earlier + ids_of(container_commons(rules));
                assert(now =~= known + listed_id(rule.common.id));
                assert(ids =~= rest_ids.push(rule.common.id));
                let joined = before + ids;
                assert forall|text: Seq<char>| !is_blank(text) implies (#[trigger] now.contains(
                    text,
                ) <==> joined.contains(Some(text))) by {
                    lemma_contains_joined(known, listed_id(rule.common.id), text);
                    assert(joined =~= (before + rest_ids) + seq![rule.common.id]);
                    lemma_contains_joined(before + rest_ids, seq![rule.common.id], Some(text));
                    assert(known.contains(text) <==> (before + rest_ids).contains(Some(text)));
                    assert(seq![rule.common.id][0] == rule.common.id);
                    if rule.common.id is Some {
                        assert(listed_id(rule.common.id)[0] == rule.common.id->0);
                    }
                }
            }
        }
    } else {
        assert(earlier + ids_of(container_commons(rules)) =~= earlier);
        assert(before + ids =~= before);
    }
}

proof fn lemma_images(
    rules: Seq<ImageRuleView>,
    earlier: Seq<Seq<char>>,
    before: Seq<Option<Seq<char>>>,
)
    requires
        holds_ids(earlier, before),
    ensures
        images_complaints(rules, earlier).len() == 0 <==> (forall|i: int|
            0 <= i < rules.len() ==> good_image(#[trigger] rules[i])) && ids_are_new(
            image_ids(rules),
            before,
        ),
        images_complaints(rules, earlier).len() == 0 ==> holds_ids(
            earlier + ids_of(image_commons(rules)),
            before + image_ids(rules),
        ),
    decreases rules.len(),
{
    let ids = image_ids(rules);
    if rules.len() > 0 {
        let rest = rules.drop_last();
        let end = rules.len() - 1;
        let rule = rules[end];
        let field = rule_field("rules.images"@, end);
        let known = earlier + ids_of(image_commons(rest));
        let rest_ids = image_ids(rest);
        lemma_images(rest, earlier, before);
        lemma_common(field, rule.common, known);
        lemma_span(field + ".unused_for"@, rule.unused_for);
        lemma_globs(field + ".image_tag_patterns"@, rule.image_tag_patterns);
        assert(images_complaints(rules, earlier).len() == images_complaints(rest, earlier).len()
            + image_complaints(end, rule, known).len());
        assert(image_commons(rules).drop_last() =~= image_commons(rest));
        assert(image_commons(rules).last() == rule.common);
        assert(rest_ids =~= ids.take(end));
        assert(ids[end] == rule.common.id);
        if (forall|i: int| 0 <= i < rules.len() ==> good_image(#[trigger] rules[i])) {
            assert forall|i: int| 0 <= i < rest.len() implies good_image(#[trigger] rest[i]) by {
                assert(rest[i] == rules[i]);
            }
            assert(good_image(rules[end]));
        }
        if ids_are_new(ids, before) {
            assert forall|i: int| 0 <= i < rest_ids.len() && rest_ids[i] is Some implies
                !before.contains(#[trigger] rest_ids[i]) && !rest_ids.take(i).contains(rest_ids[i]) by {
                assert(rest_ids[i] == ids[i]);
                assert(rest_ids.take(i) =~= ids.take(i));
            }
        }
        if images_complaints(rest, earlier).len() == 0 {
            if rule.common.id is Some && !is_blank(rule.common.id->0) {
                lemma_contains_joined(before, rest_ids, rule.common.id);
                assert(known.contains(rule.common.id->0) <==> (before + rest_ids).contains(
                    rule.common.id,
                ));
            }
            if good_image(rule) && (rule.common.id is Some ==> !known.contains(rule.common.id->0)) {
                assert forall|i: int| 0 <= i < rules.len() implies good_image(#[trigger] rules[i]) by {
                    if i < end {
                        assert(rest[i] == rules[i]);
                    }
                }
                assert forall|i: int| 0 <= i < ids.len() && ids[i] is Some implies !before.contains(
                    #[trigger] ids[i],
                ) && !ids.take(i).contains(ids[i]) by {
                    if i < end {
                        assert(rest_ids[i] == ids[i]);
                        assert(rest_ids.take(i) =~= ids.take(i));
                    }
                }
                let now = earlier + ids_of(image_commons(rules));
                assert(now =~= known + listed_id(rule.common.id));
                assert(ids =~= rest_ids.push(rule.common.id));
                let joined = before + ids;
                assert forall|text: Seq<char>| !is_blank(text) implies (#[trigger] now.contains(
                    text,
                ) <==> joined.contains(Some(text))) by {
                    lemma_contains_joined(known, listed_id(rule.common.id), text);
                    assert(joined =~= (before + rest_ids) + seq![rule.common.id]);
                    lemma_contains_joined(before + rest_ids, seq![rule.common.id], Some(text));
                    assert(known.contains(text) <==> (before + rest_ids).contains(Some(text)));
                    assert(seq![rule.common.id][0] == rule.common.id);
                    if rule.common.id is Some {
                        assert(listed_id(rule.common.id)[0] == rule.common.id->0);
                    }
                }
            }
        }
    } else {
        assert(earlier + ids_of(image_commons(rules)) =~= earlier);
        assert(before + ids =~= before);
    }
}

proof fn lemma_volumes(
    rules: Seq<VolumeRuleView>,
    earlier: Seq<Seq<char>>,
    before: Seq<Option<Seq<char>>>,
)
    requires
        holds_ids(earlier, before),
    ensures
        volumes_complaints(rules, earlier).len() == 0 <==> (forall|i: int|
            0 <= i < rules.len() ==> good_volume(#[trigger] rules[i])) && ids_are_new(
            volume_ids(rules),
            before,
        ),
        volumes_complaints(rules, earlier).len() == 0 ==> holds_ids(
            earlier + ids_of(volume_commons(rules)),
            before + volume_ids(rules),
        ),
    decreases rules.len(),
{
    let ids = volume_ids(rules);
    if rules.len() > 0 {
        let rest = rules.drop_last();
        let end = rules.len() - 1;
        let rule = rules[end];
        let field = rule_field("rules.volumes"@, end);
        let known = earlier + ids_of(volume_commons(rest));
        let rest_ids = volume_ids(rest);
        lemma_volumes(rest, earlier, before);
        lemma_common(field, rule.common, known);
        lemma_span(field + ".orphan_for"@, rule.orphan_for);
        assert(volumes_complaints(rules, earlier).len() == volumes_complaints(rest, earlier).len()
            + volume_complaints(end, rule, known).len());
        assert(volume_commons(rules).drop_last() =~= volume_commons(rest));
        assert(volume_commons(rules).last() == rule.common);
        assert(rest_ids =~= ids.take(end));
        assert(ids[end] == rule.common.id);
        if (forall|i: int| 0 <= i < rules.len() ==> good_volume(#[trigger] rules[i])) {
            assert forall|i: int| 0 <= i < rest.len() implies good_volume(#[trigger] rest[i]) by {
                assert(rest[i] == rules[i]);
            }
            assert(good_volume(rules[end]));
        }
        if ids_are_new(ids, before) {
            assert forall|i: int| 0 <= i < rest_ids.len() && rest_ids[i] is Some implies
                !before.contains(#[trigger] rest_ids[i]) && !rest_ids.take(i).contains(rest_ids[i]) by {
                assert(rest_ids[i] == ids[i]);
                assert(rest_ids.take(i) =~= ids.take(i));
            }
        }
        if volumes_complaints(rest, earlier).len() == 0 {
            if rule.common.id is Some && !is_blank(rule.common.id->0) {
                lemma_contains_joined(before, rest_ids, rule.common.id);
                assert(known.contains(rule.common.id->0) <==> (before + rest_ids).contains(
                    rule.common.id,
                ));
            }
            if good_volume(rule) && (rule.common.id is Some ==> !known.contains(rule.common.id->0)) {
                assert forall|i: int| 0 <= i < rules.len() implies good_volume(#[trigger] rules[i]) by {
                    if i < end {
                        assert(rest[i] == rules[i]);
                    }
                }
                assert forall|i: int| 0 <= i < ids.len() && ids[i] is Some implies !before.contains(
                    #[trigger] ids[i],
                ) && !ids.take(i).contains(ids[i]) by {
                    if i < end {
                        assert(rest_ids[i] == ids[i]);
                        assert(rest_ids.take(i) =~= ids.take(i));
                    }
                }
                let now = earlier + ids_of(volume_commons(rules));
                assert(now =~= known + listed_id(rule.common.id));
                assert(ids =~= rest_ids.push(rule.common.id));
                let joined = before + ids;
                assert forall|text: Seq<char>| !is_blank(text) implies (#[trigger] now.contains(
                    text,
                ) <==> joined.contains(Some(text))) by {
                    lemma_contains_joined(known, listed_id(rule.common.id), text);
                    assert(joined =~= (before + rest_ids) + seq![rule.common.id]);
                    lemma_contains_joined(before + rest_ids, seq![rule.common.id], Some(text));
                    assert(known.contains(text) <==> (before + rest_ids).contains(Some(text)));
                    assert(seq![rule.common.id][0] == rule.common.id);
                    if rule.common.id is Some {
                        assert(listed_id(rule.common.id)[0] == rule.common.id->0);
                    }
                }
            }
        }
    } else {
        assert(earlier + ids_of(volume_commons(rules)) =~= earlier);
        assert(before + ids =~= before);
    }
}

proof fn lemma_networks(
    rules: Seq<NetworkRuleView>,
    earlier: Seq<Seq<char>>,
    before: Seq<Option<Seq<char>>>,
)
    requires
        holds_ids(earlier, before),
    ensures
        networks_complaints(rules, earlier).len() == 0 <==> (forall|i: int|
            0 <= i < rules.len() ==> good_network(#[trigger] rules[i])) && ids_are_new(
            network_ids(rules),
            before,
        ),
        networks_complaints(rules, earlier).len() == 0 ==> holds_ids(
            earlier + ids_of(network_commons(rules)),
            before + network_ids(rules),
        ),
    decreases rules.len(),
{
    let ids = network_ids(rules);
    if rules.len() > 0 {
        let rest = rules.drop_last();
        let end = rules.len() - 1;
        let rule = rules[end];
        let field = rule_field("rules.networks"@, end);
        let known = earlier + ids_of(network_commons(rest));
        let rest_ids = network_ids(rest);
        lemma_networks(rest, earlier, before);
        lemma_common(field, rule.common, known);
        lemma_span(field + ".orphan_for"@, rule.orphan_for);
        assert(networks_complaints(rules, earlier).len() == networks_complaints(rest, earlier).len()
            + network_complaints(end, rule, known).len());
        assert(network_commons(rules).drop_last() =~= network_commons(rest));
        assert(network_commons(rules).last() == rule.common);
        assert(rest_ids =~= ids.take(end));
        assert(ids[end] == rule.common.id);
        if (forall|i: int| 0 <= i < rules.len() ==> good_network(#[trigger] rules[i])) {
            assert forall|i: int| 0 <= i < rest.len() implies good_network(#[trigger] rest[i]) by {
                assert(rest[i] == rules[i]);
            }
            assert(good_network(rules[end]));
        }
        if ids_are_new(ids, before) {
            assert forall|i: int| 0 <= i < rest_ids.len() && rest_ids[i] is Some implies
                !before.contains(#[trigger] rest_ids[i]) && !rest_ids.take(i).contains(rest_ids[i]) by {
                assert(rest_ids[i] == ids[i]);
                assert(rest_ids.take(i) =~= ids.take(i));
            }
        }
        if networks_complaints(rest, earlier).len() == 0 {
            if rule.common.id is Some && !is_blank(rule.common.id->0) {
                lemma_contains_joined(before, rest_ids, rule.common.id);
                assert(known.contains(rule.common.id->0) <==> (before + rest_ids).contains(
                    rule.common.id,
                ));
            }
            if good_network(rule) && (rule.common.id is Some ==> !known.contains(rule.common.id->0)) {
                assert forall|i: int| 0 <= i < rules.len() implies good_network(#[trigger] rules[i]) by {
                    if i < end {
                        assert(rest[i] == rules[i]);
                    }
                }
                assert forall|i: int| 0 <= i < ids.len() && ids[i] is Some implies !before.contains(
                    #[trigger] ids[i],
                ) && !ids.take(i).contains(ids[i]) by {
                    if i < end {
                        assert(rest_ids[i] == ids[i]);
                        assert(rest_ids.take(i) =~= ids.take(i));
                    }
                }
                let now = earlier + ids_of(network_commons(rules));
                assert(now =~= known + listed_id(rule.common.id));
                assert(ids =~= rest_ids.push(rule.common.id));
                let joined = before + ids;
                assert forall|text: Seq<char>| !is_blank(text) implies (#[trigger] now.contains(
                    text,
                ) <==> joined.contains(Some(text))) by {
                    lemma_contains_joined(known, listed_id(rule.common.id), text);
                    assert(joined =~= (before + rest_ids) + seq![rule.common.id]);
                    lemma_contains_joined(before + rest_ids, seq![rule.common.id], Some(text));
                    assert(known.contains(text) <==> (before + rest_ids).contains(Some(text)));
                    assert(seq![rule.common.id][0] == rule.common.id);
                    if rule.common.id is Some {
                        assert(listed_id(rule.common.id)[0] == rule.common.id->0);
                    }
                }
            }
        }
    } else {
        assert(earlier + ids_of(network_commons(rules)) =~= earlier);
        assert(before + ids =~= before);
    }
}

proof fn lemma_cache(
    rule: Option<BuildCacheRuleView>,
    earlier: Seq<Seq<char>>,
    before: Seq<Option<Seq<char>>>,
)
    requires
        holds_ids(earlier, before),
    ensures
        cache_complaints(rule, earlier).len() == 0 <==> (rule is Some ==> good_cache(rule->0))
            && ids_are_new(cache_ids(rule), before),
{
    if rule is Some {
        let ids = cache_ids(rule);
        lemma_span("rules.build_cache.older_than"@, rule->0.older_than);
        assert(ids[0] == rule->0.id);
        if rule->0.id is Some && !is_blank(rule->0.id->0) {
            assert(earlier.contains(rule->0.id->0) <==> before.contains(rule->0.id));
        }
        assert(!ids.take(0).contains(ids[0]));
        if rule->0.id is Some && !before.contains(rule->0.id) {
            assert forall|i: int| 0 <= i < ids.len() && ids[i] is Some implies !before.contains(
                #[trigger] ids[i],
            ) && !ids.take(i).contains(ids[i]) by {}
        }
    }
}

/// A configuration draws no complaint exactly when every part of it is good and
/// no id is given twice.
pub proof fn a_good_configuration_draws_no_complaint(config: ConfigView)
    ensures
        complaints(config).len() == 0 <==> good_config(config),
{
    let rules = config.rules;
    let a = container_ids(rules.containers);
    let b = image_ids(rules.images);
    let c = volume_ids(rules.volumes);
    let d = network_ids(rules.networks);
    let e = cache_ids(rules.build_cache);
    let none = Seq::<Option<Seq<char>>>::empty();
    let containers = ids_of(container_commons(rules.containers));
    let images = containers + ids_of(image_commons(rules.images));
    let volumes = images + ids_of(volume_commons(rules.volumes));
    let networks = volumes + ids_of(network_commons(rules.networks));
    lemma_patterns("protect.names"@, config.protect.names);
    lemma_globs("protect.labels"@, config.protect.labels);
    lemma_span("defaults.interval"@, config.defaults.interval);
    lemma_span("tui.refresh"@, config.tui.refresh);
    assert(holds_ids(Seq::empty(), none));
    lemma_containers(rules.containers, Seq::empty(), none);
    assert(Seq::<Seq<char>>::empty() + containers =~= containers);
    assert(none + a =~= a);
    assert(ids_differ(none));
    lemma_differ(none, a);
    lemma_differ(a, b);
    lemma_differ(a + b, c);
    lemma_differ(a + b + c, d);
    lemma_differ(a + b + c + d, e);
    if containers_complaints(rules.containers, Seq::empty()).len() == 0 {
        lemma_images(rules.images, containers, a);
        if images_complaints(rules.images, containers).len() == 0 {
            lemma_volumes(rules.volumes, images, a + b);
            if volumes_complaints(rules.volumes, images).len() == 0 {
                lemma_networks(rules.networks, volumes, a + b + c);
                if networks_complaints(rules.networks, volumes).len() == 0 {
                    lemma_cache(rules.build_cache, networks, a + b + c + d);
                }
            }
        }
    }
}

/// Validation accepts a configuration exactly when it is good as a whole.
pub proof fn validation_accepts_good_configurations(
    config: Config,
    outcome: Result<(), ConfigError>,
)
    requires
        call_ensures(Config::validate, (&config,), outcome),
    ensures
        outcome is Ok <==> good_config(config@),
{
    a_good_configuration_draws_no_complaint(config@);
}

} // verus!
