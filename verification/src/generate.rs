//! The rules that the configurator writes for chosen families.

use crate::candidate::{
    named_kind, parse_resource_kind, CandidateFamily, CandidateFamilyView, CandidateResource,
    CandidateResourceView, CandidateSelector, CandidateSelectorView, ConfiguratorError,
};
use crate::config::{
    default_rules, default_selectors, BuildCacheRule, BuildCacheRuleView, CommonRule,
    CommonRuleView, ContainerRule, ContainerRuleView, ImageRule, ImageRuleView, NetworkRule,
    NetworkRuleView, RuleScope, Rules, RulesView, Selectors, SelectorsView, VolumeRule,
    VolumeRuleView,
};
use crate::naming::{escape_glob, glob_escaped, short_hash, short_hash_of};
use crate::order::{
    lemma_text_le_transitive, lemma_text_lt_irreflexive, lemma_text_lt_transitive, precedes,
    ranked, sort, text_le, text_lt, Ranked,
};
use crate::outside::{quote, quoted, regex_escape, regex_escaped};
use crate::profile::{PolicySettings, SettingsView};
use crate::resource::{kind_text, ResourceKind};
use crate::text::{concat2, concat3, concat4, group_views, opt_view, views};
use vstd::prelude::*;
use vstd::string::*;

verus! {

/// What the id of every generated rule begins with.
pub const MANAGED_ID_PREFIX: &'static str = "docker-maid.configure/";

/// Whether one optional id may stand before another; none comes first.
pub open spec fn id_le(left: Option<Seq<char>>, right: Option<Seq<char>>) -> bool {
    match (left, right) {
        (None, _) => true,
        (Some(_), None) => false,
        (Some(a), Some(b)) => text_le(a, b),
    }
}

proof fn lemma_id_le_total(left: Option<Seq<char>>, right: Option<Seq<char>>)
    ensures
        id_le(left, right) || id_le(right, left),
{
    if left is Some && right is Some && text_lt(right->0, left->0) && text_lt(left->0, right->0) {
        lemma_text_lt_transitive(left->0, right->0, left->0);
        lemma_text_lt_irreflexive(left->0);
    }
}

proof fn lemma_id_le_transitive(
    a: Option<Seq<char>>,
    b: Option<Seq<char>>,
    c: Option<Seq<char>>,
)
    requires
        id_le(a, b),
        id_le(b, c),
    ensures
        id_le(a, c),
{
    if a is Some {
        lemma_text_le_transitive(a->0, b->0, c->0);
    }
}

fn ids_in_order(left: &Option<String>, right: &Option<String>) -> (held: bool)
    ensures
        held == id_le(opt_view(*left), opt_view(*right)),
{
    match left {
        None => true,
        Some(a) => match right {
            None => false,
            Some(b) => !precedes(b.as_str(), a.as_str()),
        },
    }
}

impl Ranked for ContainerRule {
    open spec fn ranks(left: ContainerRuleView, right: ContainerRuleView) -> bool {
        id_le(left.common.id, right.common.id)
    }

    proof fn ranks_total(left: ContainerRuleView, right: ContainerRuleView) {
        lemma_id_le_total(left.common.id, right.common.id);
    }

    proof fn ranks_transitive(a: ContainerRuleView, b: ContainerRuleView, c: ContainerRuleView) {
        lemma_id_le_transitive(a.common.id, b.common.id, c.common.id);
    }

    fn in_order(&self, other: &Self) -> (held: bool) {
        ids_in_order(&self.common.id, &other.common.id)
    }
}

impl Ranked for ImageRule {
    open spec fn ranks(left: ImageRuleView, right: ImageRuleView) -> bool {
        id_le(left.common.id, right.common.id)
    }

    proof fn ranks_total(left: ImageRuleView, right: ImageRuleView) {
        lemma_id_le_total(left.common.id, right.common.id);
    }

    proof fn ranks_transitive(a: ImageRuleView, b: ImageRuleView, c: ImageRuleView) {
        lemma_id_le_transitive(a.common.id, b.common.id, c.common.id);
    }

    fn in_order(&self, other: &Self) -> (held: bool) {
        ids_in_order(&self.common.id, &other.common.id)
    }
}

impl Ranked for VolumeRule {
    open spec fn ranks(left: VolumeRuleView, right: VolumeRuleView) -> bool {
        id_le(left.common.id, right.common.id)
    }

    proof fn ranks_total(left: VolumeRuleView, right: VolumeRuleView) {
        lemma_id_le_total(left.common.id, right.common.id);
    }

    proof fn ranks_transitive(a: VolumeRuleView, b: VolumeRuleView, c: VolumeRuleView) {
        lemma_id_le_transitive(a.common.id, b.common.id, c.common.id);
    }

    fn in_order(&self, other: &Self) -> (held: bool) {
        ids_in_order(&self.common.id, &other.common.id)
    }
}

impl Ranked for NetworkRule {
    open spec fn ranks(left: NetworkRuleView, right: NetworkRuleView) -> bool {
        id_le(left.common.id, right.common.id)
    }

    proof fn ranks_total(left: NetworkRuleView, right: NetworkRuleView) {
        lemma_id_le_total(left.common.id, right.common.id);
    }

    proof fn ranks_transitive(a: NetworkRuleView, b: NetworkRuleView, c: NetworkRuleView) {
        lemma_id_le_transitive(a.common.id, b.common.id, c.common.id);
    }

    fn in_order(&self, other: &Self) -> (held: bool) {
        ids_in_order(&self.common.id, &other.common.id)
    }
}

/// Rules in the order of their ids.
pub open spec fn sorted_rules(rules: RulesView) -> RulesView {
    RulesView {
        containers: ranked::<ContainerRule>(rules.containers),
        images: ranked::<ImageRule>(rules.images),
        volumes: ranked::<VolumeRule>(rules.volumes),
        networks: ranked::<NetworkRule>(rules.networks),
        build_cache: rules.build_cache,
    }
}

/// Puts rules in the order of their ids.
pub fn sort_rules(rules: Rules) -> (sorted: Rules)
    ensures
        sorted@ == sorted_rules(rules@),
{
    Rules {
        containers: sort(rules.containers),
        images: sort(rules.images),
        volumes: sort(rules.volumes),
        networks: sort(rules.networks),
        build_cache: rules.build_cache,
    }
}

/// The common part of the rule for a family's resources of one kind.
pub open spec fn managed_common(
    family: CandidateFamilyView,
    kind: ResourceKind,
    select: SelectorsView,
) -> CommonRuleView {
    CommonRuleView {
        id: Some(MANAGED_ID_PREFIX@ + family.id + "/"@ + kind_text(kind)),
        name: "configure-"@ + short_hash_of(family.id) + "-"@ + kind_text(kind),
        description: Some("Managed from "@ + family.evidence),
        select,
        scope: RuleScope::Owned,
        allow_unscoped: false,
    }
}

/// The tags that an image rule reaches.
pub open spec fn managed_tags(selector: CandidateSelectorView) -> Seq<Seq<char>> {
    match selector {
        CandidateSelectorView::NamePrefix { prefix, .. } => seq![glob_escaped(prefix) + "*"@],
        CandidateSelectorView::ExactLabel { .. } => seq!["*"@],
        CandidateSelectorView::BuildCache => Seq::empty(),
    }
}

/// Rules with the one for a family's resources of one kind.
pub open spec fn with_managed_rule(
    rules: RulesView,
    family: CandidateFamilyView,
    kind: ResourceKind,
    select: SelectorsView,
    policy: SettingsView,
) -> RulesView {
    let common = managed_common(family, kind, select);
    match kind {
        ResourceKind::Container => RulesView {
            containers: rules.containers.push(
                ContainerRuleView {
                    common,
                    stopped_ttl: Some(policy.stopped_container_ttl),
                    running_ttl: None,
                },
            ),
            ..rules
        },
        ResourceKind::Image => RulesView {
            images: rules.images.push(
                ImageRuleView {
                    common,
                    dangling: true,
                    unused_for: Some(policy.image_ttl),
                    image_tag_patterns: managed_tags(family.selector),
                },
            ),
            ..rules
        },
        ResourceKind::Volume => RulesView {
            volumes: rules.volumes.push(
                VolumeRuleView { common, orphan_for: Some(policy.volume_ttl) },
            ),
            ..rules
        },
        ResourceKind::Network => RulesView {
            networks: rules.networks.push(
                NetworkRuleView { common, orphan: true, orphan_for: None },
            ),
            ..rules
        },
        ResourceKind::BuildCache => rules,
    }
}

fn image_tags(selector: &CandidateSelector) -> (tags: Vec<String>)
    ensures
        views(tags@) == managed_tags(selector@),
{
    broadcast use group_views;

    let mut tags: Vec<String> = Vec::new();
    match selector {
        CandidateSelector::NamePrefix { prefix, .. } => {
            tags.push(concat2(escape_glob(prefix.as_str()).as_str(), "*"));
        },
        CandidateSelector::ExactLabel { .. } => {
            tags.push("*".to_owned());
        },
        CandidateSelector::BuildCache => {},
    }
    assert(views(tags@) =~= managed_tags(selector@));
    tags
}

fn push_managed_rule(
    rules: &mut Rules,
    family: &CandidateFamily,
    kind: ResourceKind,
    select: Selectors,
    policy: &PolicySettings,
)
    ensures
        final(rules)@ == with_managed_rule(old(rules)@, family@, kind, select@, policy@),
{
    broadcast use group_views;

    let common = CommonRule {
        id: Some(concat4(MANAGED_ID_PREFIX, family.id.as_str(), "/", kind.as_text())),
        name: concat4("configure-", short_hash(family.id.as_str()).as_str(), "-", kind.as_text()),
        description: Some(concat2("Managed from ", family.evidence.as_str())),
        select,
        scope: RuleScope::Owned,
        allow_unscoped: false,
    };
    assert(common@ == managed_common(family@, kind, select@));
    match kind {
        ResourceKind::Container => {
            let rule = ContainerRule {
                common,
                stopped_ttl: Some(policy.stopped_container_ttl.clone()),
                running_ttl: None,
            };
            rules.containers.push(rule);
        },
        ResourceKind::Image => {
            let rule = ImageRule {
                common,
                dangling: true,
                unused_for: Some(policy.image_ttl.clone()),
                image_tag_patterns: image_tags(&family.selector),
            };
            rules.images.push(rule);
        },
        ResourceKind::Volume => {
            let rule = VolumeRule { common, orphan_for: Some(policy.volume_ttl.clone()) };
            rules.volumes.push(rule);
        },
        ResourceKind::Network => {
            let rule = NetworkRule { common, orphan: true, orphan_for: None };
            rules.networks.push(rule);
        },
        ResourceKind::BuildCache => {},
    }
}

/// Whether some resource is of a kind.
pub open spec fn has_kind(resources: Seq<CandidateResourceView>, kind: ResourceKind) -> bool {
    exists|i: int|
        0 <= i < resources.len() && named_kind((#[trigger] resources[i]).resource_kind) == Some(kind)
}

/// Rules with the one for a kind, where the family has resources of it.
pub open spec fn with_kind_rule(
    rules: RulesView,
    family: CandidateFamilyView,
    kind: ResourceKind,
    select: SelectorsView,
    policy: SettingsView,
) -> RulesView {
    if has_kind(family.resources, kind) {
        with_managed_rule(rules, family, kind, select, policy)
    } else {
        rules
    }
}

/// The selector of a label that is matched exactly.
pub open spec fn label_selectors(key: Seq<char>, value: Seq<char>) -> SelectorsView {
    SelectorsView { labels: seq![glob_escaped(key + "="@ + value)], ..default_selectors() }
}

/// The selector of a name prefix.
pub open spec fn prefix_selectors(prefix: Seq<char>) -> SelectorsView {
    SelectorsView { names: seq!["^"@ + regex_escaped(prefix)], ..default_selectors() }
}

/// Rules with those for a family: one for each kind that a label family has
/// resources of, one for the kind of a prefix. An error where a prefix names
/// no kind.
pub open spec fn with_family_rules(
    rules: RulesView,
    family: CandidateFamilyView,
    policy: SettingsView,
) -> Result<RulesView, Seq<char>> {
    match family.selector {
        CandidateSelectorView::ExactLabel { key, value } => {
            let select = label_selectors(key, value);
            let containers = with_kind_rule(rules, family, ResourceKind::Container, select, policy);
            let images = with_kind_rule(containers, family, ResourceKind::Image, select, policy);
            let volumes = with_kind_rule(images, family, ResourceKind::Volume, select, policy);
            Ok(with_kind_rule(volumes, family, ResourceKind::Network, select, policy))
        },
        CandidateSelectorView::NamePrefix { resource_kind, prefix } => match named_kind(
            resource_kind,
        ) {
            Some(kind) => Ok(
                with_managed_rule(rules, family, kind, prefix_selectors(prefix), policy),
            ),
            None => Err(
                "candidate "@ + family.id + " has unknown resource kind "@ + quoted(resource_kind),
            ),
        },
        CandidateSelectorView::BuildCache => Ok(rules),
    }
}

fn any_of_kind(resources: &Vec<CandidateResource>, kind: ResourceKind) -> (found: bool)
    ensures
        found == has_kind(views(resources@), kind),
{
    broadcast use group_views;

    let mut index: usize = 0;
    while index < resources.len()
        invariant
            index <= resources@.len(),
            forall|i: int|
                0 <= i < index ==> named_kind((#[trigger] views(resources@)[i]).resource_kind)
                    != Some(kind),
        decreases resources@.len() - index,
    {
        if let Some(named) = parse_resource_kind(resources[index].resource_kind.as_str()) {
            if named == kind {
                assert(named_kind(views(resources@)[index as int].resource_kind) == Some(kind));
                return true;
            }
        }
        index += 1;
    }
    false
}

fn push_kind_rule(
    rules: &mut Rules,
    family: &CandidateFamily,
    kind: ResourceKind,
    select: &Selectors,
    policy: &PolicySettings,
)
    ensures
        final(rules)@ == with_kind_rule(old(rules)@, family@, kind, select@, policy@),
{
    if any_of_kind(&family.resources, kind) {
        push_managed_rule(rules, family, kind, select.clone(), policy);
    }
}

/// Appends the rules for a family.
pub fn append_candidate_rules(
    rules: &mut Rules,
    candidate: &CandidateFamily,
    policy: &PolicySettings,
) -> (outcome: Result<(), ConfiguratorError>)
    ensures
        match with_family_rules(old(rules)@, candidate@, policy@) {
            Ok(after) => outcome is Ok && final(rules)@ == after,
            Err(fault) => (outcome matches Err(ConfiguratorError::Invalid(message)) && message@
                == fault) && final(rules)@ == old(rules)@,
        },
{
    broadcast use group_views;

    match &candidate.selector {
        CandidateSelector::ExactLabel { key, value } => {
            let identity = concat3(key.as_str(), "=", value.as_str());
            let mut labels: Vec<String> = Vec::new();
            labels.push(escape_glob(identity.as_str()));
            let mut select = Selectors::default();
            select.labels = labels;
            assert(select@ =~= label_selectors(key@, value@));
            push_kind_rule(rules, candidate, ResourceKind::Container, &select, policy);
            push_kind_rule(rules, candidate, ResourceKind::Image, &select, policy);
            push_kind_rule(rules, candidate, ResourceKind::Volume, &select, policy);
            push_kind_rule(rules, candidate, ResourceKind::Network, &select, policy);
            Ok(())
        },
        CandidateSelector::NamePrefix { resource_kind, prefix } => {
            match parse_resource_kind(resource_kind.as_str()) {
                Some(kind) => {
                    let mut names: Vec<String> = Vec::new();
                    names.push(concat2("^", regex_escape(prefix.as_str()).as_str()));
                    let mut select = Selectors::default();
                    select.names = names;
                    assert(select@ =~= prefix_selectors(prefix@));
                    push_managed_rule(rules, candidate, kind, select, policy);
                    Ok(())
                },
                None => Err(
                    ConfiguratorError::Invalid(
                        concat4(
                            "candidate ",
                            candidate.id.as_str(),
                            " has unknown resource kind ",
                            quote(resource_kind.as_str()).as_str(),
                        ),
                    ),
                ),
            }
        },
        CandidateSelector::BuildCache => Ok(()),
    }
}

/// The rule for the build cache.
pub open spec fn managed_cache_rule(policy: SettingsView) -> BuildCacheRuleView {
    BuildCacheRuleView {
        id: Some(MANAGED_ID_PREFIX@ + "build-cache"@),
        older_than: Some(policy.build_cache_ttl),
        max_bytes: Some(policy.build_cache_max_bytes),
        allow_unscoped: true,
    }
}

/// Rules with those for one chosen family; a build cache that a rule written
/// by hand covers is refused.
pub open spec fn with_chosen(
    rules: RulesView,
    cache_taken: bool,
    family: CandidateFamilyView,
    policy: SettingsView,
) -> Result<RulesView, Seq<char>> {
    if family.selector is BuildCache {
        if cache_taken {
            Err(
                "a manual build-cache policy already exists; the configurator will not overwrite it"@,
            )
        } else {
            Ok(RulesView { build_cache: Some(managed_cache_rule(policy)), ..rules })
        }
    } else {
        with_family_rules(rules, family, policy)
    }
}

/// The rules for chosen families, one family after the other.
pub open spec fn chosen_rules(
    cache_taken: bool,
    families: Seq<CandidateFamilyView>,
    policy: SettingsView,
) -> Result<RulesView, Seq<char>>
    decreases families.len(),
{
    if families.len() == 0 {
        Ok(default_rules())
    } else {
        match chosen_rules(cache_taken, families.drop_last(), policy) {
            Ok(rules) => with_chosen(rules, cache_taken, families.last(), policy),
            Err(fault) => Err(fault),
        }
    }
}

/// The rules for chosen families, in the order of their ids.
pub open spec fn managed_rules(
    cache_taken: bool,
    families: Seq<CandidateFamilyView>,
    policy: SettingsView,
) -> Result<RulesView, Seq<char>> {
    match chosen_rules(cache_taken, families, policy) {
        Ok(rules) => Ok(sorted_rules(rules)),
        Err(fault) => Err(fault),
    }
}

proof fn lemma_chosen_fault(
    cache_taken: bool,
    families: Seq<CandidateFamilyView>,
    policy: SettingsView,
    count: int,
)
    requires
        0 <= count <= families.len(),
        chosen_rules(cache_taken, families.take(count), policy) is Err,
    ensures
        chosen_rules(cache_taken, families, policy) == chosen_rules(
            cache_taken,
            families.take(count),
            policy,
        ),
    decreases families.len(),
{
    if count == families.len() {
        assert(families.take(count) =~= families);
    } else {
        assert(families.drop_last().take(count) =~= families.take(count));
        lemma_chosen_fault(cache_taken, families.drop_last(), policy, count);
    }
}

/// Makes the rules for chosen families.
pub fn generated_rules(
    cache_taken: bool,
    candidates: &Vec<CandidateFamily>,
    policy: &PolicySettings,
) -> (outcome: Result<Rules, ConfiguratorError>)
    ensures
        match managed_rules(cache_taken, views(candidates@), policy@) {
            Ok(rules) => outcome matches Ok(made) && made@ == rules,
            Err(fault) => outcome matches Err(ConfiguratorError::Invalid(message)) && message@
                == fault,
        },
{
    broadcast use group_views;

    let mut rules = Rules::default();
    let ghost all = views(candidates@);
    let mut index: usize = 0;
    assert(all.take(0).len() == 0);
    while index < candidates.len()
        invariant
            index <= candidates@.len(),
            all == views(candidates@),
            chosen_rules(cache_taken, all.take(index as int), policy@)
                == Ok::<RulesView, Seq<char>>(rules@),
        decreases candidates@.len() - index,
    {
        let candidate = &candidates[index];
        let ghost so_far = rules@;
        proof {
            assert(all.take(index as int + 1).drop_last() =~= all.take(index as int));
            assert(all.take(index as int + 1).last() == candidate@);
        }
        match &candidate.selector {
            CandidateSelector::BuildCache => {
                if cache_taken {
                    proof {
                        lemma_chosen_fault(cache_taken, all, policy@, index as int + 1);
                    }
                    return Err(
                        ConfiguratorError::Invalid(
                            "a manual build-cache policy already exists; the configurator will not overwrite it".to_owned(),
                        ),
                    );
                }
                let rule = BuildCacheRule {
                    id: Some(concat2(MANAGED_ID_PREFIX, "build-cache")),
                    older_than: Some(policy.build_cache_ttl.clone()),
                    max_bytes: Some(policy.build_cache_max_bytes),
                    allow_unscoped: true,
                };
                assert(rule@ == managed_cache_rule(policy@));
                rules.build_cache = Some(rule);
                assert(rules@ == (RulesView {
                    build_cache: Some(managed_cache_rule(policy@)),
                    ..so_far
                }));
            },
            _ => {
                match append_candidate_rules(&mut rules, candidate, policy) {
                    Ok(_) => {},
                    Err(error) => {
                        proof {
                            lemma_chosen_fault(cache_taken, all, policy@, index as int + 1);
                        }
                        return Err(error);
                    },
                }
            },
        }
        index += 1;
    }
    assert(all.take(index as int) =~= all);
    Ok(sort_rules(rules))
}

/// The ids that are there.
pub open spec fn present_ids(ids: Seq<Option<Seq<char>>>) -> Seq<Seq<char>>
    decreases ids.len(),
{
    if ids.len() == 0 {
        Seq::empty()
    } else {
        let before = present_ids(ids.drop_last());
        match ids.last() {
            Some(id) => before.push(id),
            None => before,
        }
    }
}

/// The ids of rules as they stand, with gaps.
pub open spec fn rule_id_slots(rules: RulesView) -> Seq<Option<Seq<char>>> {
    rules.containers.map_values(|rule: ContainerRuleView| rule.common.id)
        + rules.images.map_values(|rule: ImageRuleView| rule.common.id)
        + rules.volumes.map_values(|rule: VolumeRuleView| rule.common.id)
        + rules.networks.map_values(|rule: NetworkRuleView| rule.common.id)
        + match rules.build_cache {
        Some(rule) => seq![rule.id],
        None => Seq::empty(),
    }
}

/// The ids of rules, in order.
pub open spec fn sorted_rule_ids(rules: RulesView) -> Seq<Seq<char>> {
    ranked::<String>(present_ids(rule_id_slots(rules)))
}

fn push_id(ids: &mut Vec<String>, id: &Option<String>, Ghost(slots): Ghost<Seq<Option<Seq<char>>>>)
    requires
        views(old(ids)@) == present_ids(slots),
    ensures
        views(final(ids)@) == present_ids(slots.push(opt_view(*id))),
{
    broadcast use group_views;

    assert(slots.push(opt_view(*id)).drop_last() =~= slots);
    if let Some(text) = id {
        ids.push(text.clone());
    }
}

/// The ids of rules, in order.
pub fn rule_ids(rules: &Rules) -> (ids: Vec<String>)
    ensures
        views(ids@) == sorted_rule_ids(rules@),
{
    broadcast use group_views;

    let mut ids: Vec<String> = Vec::new();
    let ghost slots = rule_id_slots(rules@);
    let ghost containers = rules@.containers.len() as int;
    let ghost images = containers + rules@.images.len();
    let ghost volumes = images + rules@.volumes.len();
    let ghost networks = volumes + rules@.networks.len();
    assert(views(ids@) =~= present_ids(slots.take(0)));
    let mut index: usize = 0;
    while index < rules.containers.len()
        invariant
            index <= rules.containers@.len(),
            containers == rules.containers@.len(),
            containers <= slots.len(),
            slots == rule_id_slots(rules@),
            views(ids@) == present_ids(slots.take(index as int)),
        decreases rules.containers@.len() - index,
    {
        let rule = &rules.containers[index];
        assert(slots[index as int] == opt_view(rule.common.id));
        assert(slots.take(index as int + 1) =~= slots.take(index as int).push(
            opt_view(rule.common.id),
        ));
        push_id(&mut ids, &rule.common.id, Ghost(slots.take(index as int)));
        index += 1;
    }
    index = 0;
    while index < rules.images.len()
        invariant
            index <= rules.images@.len(),
            containers == rules.containers@.len(),
            images == containers + rules.images@.len(),
            images <= slots.len(),
            slots == rule_id_slots(rules@),
            views(ids@) == present_ids(slots.take(containers + index)),
        decreases rules.images@.len() - index,
    {
        let rule = &rules.images[index];
        assert(slots[containers + index] == opt_view(rule.common.id));
        assert(slots.take(containers + index + 1) =~= slots.take(containers + index).push(
            opt_view(rule.common.id),
        ));
        push_id(&mut ids, &rule.common.id, Ghost(slots.take(containers + index)));
        index += 1;
    }
    index = 0;
    while index < rules.volumes.len()
        invariant
            index <= rules.volumes@.len(),
            containers == rules.containers@.len(),
            images == containers + rules.images@.len(),
            volumes == images + rules.volumes@.len(),
            volumes <= slots.len(),
            slots == rule_id_slots(rules@),
            views(ids@) == present_ids(slots.take(images + index)),
        decreases rules.volumes@.len() - index,
    {
        let rule = &rules.volumes[index];
        assert(slots[images + index] == opt_view(rule.common.id));
        assert(slots.take(images + index + 1) =~= slots.take(images + index).push(
            opt_view(rule.common.id),
        ));
        push_id(&mut ids, &rule.common.id, Ghost(slots.take(images + index)));
        index += 1;
    }
    index = 0;
    while index < rules.networks.len()
        invariant
            index <= rules.networks@.len(),
            containers == rules.containers@.len(),
            images == containers + rules.images@.len(),
            volumes == images + rules.volumes@.len(),
            networks == volumes + rules.networks@.len(),
            networks <= slots.len(),
            slots == rule_id_slots(rules@),
            views(ids@) == present_ids(slots.take(volumes + index)),
        decreases rules.networks@.len() - index,
    {
        let rule = &rules.networks[index];
        assert(slots[volumes + index] == opt_view(rule.common.id));
        assert(slots.take(volumes + index + 1) =~= slots.take(volumes + index).push(
            opt_view(rule.common.id),
        ));
        push_id(&mut ids, &rule.common.id, Ghost(slots.take(volumes + index)));
        index += 1;
    }
    match &rules.build_cache {
        Some(rule) => {
            assert(slots =~= slots.take(networks).push(opt_view(rule.id)));
            push_id(&mut ids, &rule.id, Ghost(slots.take(networks)));
        },
        None => {
            assert(slots =~= slots.take(networks));
        },
    }
    sort(ids)
}

} // verus!
