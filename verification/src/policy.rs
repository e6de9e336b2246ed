//! A configuration made ready for evaluation, and what it decides.

use crate::cache::{last_use, last_used, removals_under_rule, rule_removals};
use crate::config::{
    BuildCacheRule, BuildCacheRuleView, CommonRule, CommonRuleView, Config, ConfigView,
    ContainerRule, ContainerRuleView, ImageRule, ImageRuleView, NetworkRule, NetworkRuleView,
    RuleScope, Selectors, SelectorsView, VolumeRule, VolumeRuleView,
};
use crate::duration::{
    age_of, age_seconds, duration_fault, duration_seconds, format_duration, read_duration,
    short_duration,
};
use crate::observation::observed_age;
use crate::outside::{
    glob_build_error, glob_build_fault, glob_is_match, glob_matches, regex_error, regex_fault,
    regex_is_match, regex_matches,
};
use crate::plan::{
    Action, ContextView, Decision, DecisionView, Disposition, PlanContext, PlanError, PlanErrorView,
};
use crate::resource::{InventoryItem, ItemView, ResourceKind, ResourceState, ResourceStateView};
use crate::state::{name_matches, protection_reason};
use crate::text::{
    clone_texts, concat2, concat3, concat4, concat5, contains_text, count_text, decimal,
    group_views, occurs_in, opt_view, views,
};
use crate::text_map::{value_of, TextMap};
use vstd::prelude::*;
use vstd::string::*;

verus! {

/// Whether a glob accepts a label, by its key or as `key=value`.
pub open spec fn label_matches(pattern: Seq<char>, label: (Seq<char>, Seq<char>)) -> bool {
    glob_matches(pattern, label.0) || glob_matches(pattern, label.0 + "="@ + label.1)
}

/// The first label, in the order of keys, that a glob accepts, as `key=value`.
pub open spec fn first_label(pattern: Seq<char>, labels: Seq<(Seq<char>, Seq<char>)>) -> Option<
    Seq<char>,
>
    decreases labels.len(),
{
    if labels.len() == 0 {
        None
    } else if label_matches(pattern, labels[0]) {
        Some(labels[0].0 + "="@ + labels[0].1)
    } else {
        first_label(pattern, labels.drop_first())
    }
}

/// Why label globs select an item.
pub open spec fn label_reason(
    patterns: Seq<Seq<char>>,
    labels: Seq<(Seq<char>, Seq<char>)>,
) -> Option<Seq<char>>
    decreases patterns.len(),
{
    if patterns.len() == 0 {
        None
    } else {
        match first_label(patterns[0], labels) {
            Some(pair) => Some("label "@ + patterns[0] + " ("@ + pair + ")"@),
            None => label_reason(patterns.drop_first(), labels),
        }
    }
}

/// Why name patterns select an item.
pub open spec fn name_reason(patterns: Seq<Seq<char>>, names: Seq<Seq<char>>) -> Option<Seq<char>>
    decreases patterns.len(),
{
    if patterns.len() == 0 {
        None
    } else if name_matches(names, patterns[0]) {
        Some("name regex "@ + patterns[0])
    } else {
        name_reason(patterns.drop_first(), names)
    }
}

/// Whether some name holds a part.
pub open spec fn name_holds(names: Seq<Seq<char>>, part: Seq<char>) -> bool {
    exists|i: int| 0 <= i < names.len() && occurs_in(#[trigger] names[i], part)
}

/// Why parts of names select an item.
pub open spec fn part_reason(parts: Seq<Seq<char>>, names: Seq<Seq<char>>) -> Option<Seq<char>>
    decreases parts.len(),
{
    if parts.len() == 0 {
        None
    } else if name_holds(names, parts[0]) {
        Some("name part "@ + parts[0])
    } else {
        part_reason(parts.drop_first(), names)
    }
}

/// Why selectors select an item: by a label, else by a name, else by a part of
/// a name.
pub open spec fn selection_reason(select: SelectorsView, item: ItemView) -> Option<Seq<char>> {
    match label_reason(select.labels, item.labels) {
        Some(reason) => Some(reason),
        None => match name_reason(select.names, item.search_names) {
            Some(reason) => Some(reason),
            None => part_reason(select.name_parts, item.search_names),
        },
    }
}

/// Whether the expression of every glob can be built.
pub open spec fn globs_build(patterns: Seq<Seq<char>>) -> bool {
    forall|i: int| 0 <= i < patterns.len() ==> glob_build_fault(#[trigger] patterns[i]) is None
}

/// The first fault among globs from `index` on.
pub open spec fn globs_fault(field: Seq<char>, values: Seq<Seq<char>>, index: int) -> Option<
    PlanErrorView,
>
    decreases values.len() - index,
{
    if index < 0 || index >= values.len() {
        None
    } else {
        match glob_build_fault(values[index]) {
            Some(message) => Some(
                PlanErrorView { field: field + "["@ + decimal(index as nat) + "]"@, message },
            ),
            None => globs_fault(field, values, index + 1),
        }
    }
}

/// The first fault among regular expressions from `index` on.
pub open spec fn regexes_fault(field: Seq<char>, values: Seq<Seq<char>>, index: int) -> Option<
    PlanErrorView,
>
    decreases values.len() - index,
{
    if index < 0 || index >= values.len() {
        None
    } else {
        match regex_fault(values[index]) {
            Some(message) => Some(
                PlanErrorView { field: field + "["@ + decimal(index as nat) + "]"@, message },
            ),
            None => regexes_fault(field, values, index + 1),
        }
    }
}

/// The first of two faults.
pub open spec fn first_fault(
    first: Option<PlanErrorView>,
    second: Option<PlanErrorView>,
) -> Option<PlanErrorView> {
    match first {
        Some(fault) => Some(fault),
        None => second,
    }
}

/// The fault of an optional duration.
pub open spec fn span_fault(field: Seq<char>, value: Option<Seq<char>>) -> Option<PlanErrorView> {
    match value {
        Some(text) => match duration_fault(text) {
            Some(message) => Some(PlanErrorView { field, message }),
            None => None,
        },
        None => None,
    }
}

/// The first fault of selectors.
pub open spec fn selectors_fault(field: Seq<char>, select: SelectorsView) -> Option<PlanErrorView> {
    first_fault(
        globs_fault(field + ".labels"@, select.labels, 0),
        regexes_fault(field + ".names"@, select.names, 0),
    )
}

/// The whole seconds of an optional duration.
pub open spec fn span_of(value: Option<Seq<char>>) -> Option<u64> {
    match value {
        Some(text) => Some(duration_seconds(text)),
        None => None,
    }
}

/// The selectors of a configuration's own protection.
pub open spec fn protection_selectors(config: ConfigView) -> SelectorsView {
    SelectorsView {
        labels: config.protect.labels,
        names: config.protect.names,
        name_parts: Seq::empty(),
    }
}

/// Selectors ready to match items.
pub struct SelectorMatcher {
    labels: Vec<String>,
    names: Vec<String>,
    name_parts: Vec<String>,
}

impl View for SelectorMatcher {
    type V = SelectorsView;

    closed spec fn view(&self) -> SelectorsView {
        SelectorsView {
            labels: views(self.labels@),
            names: views(self.names@),
            name_parts: views(self.name_parts@),
        }
    }
}

fn compile_globs(field: &str, values: &Vec<String>) -> (outcome: Result<Vec<String>, PlanError>)
    ensures
        match outcome {
            Ok(globs) => {
                &&& globs_fault(field@, views(values@), 0) is None
                &&& globs_build(views(globs@))
                &&& views(globs@) == views(values@)
            },
            Err(error) => globs_fault(field@, views(values@), 0) == Some(error@),
        },
{
    broadcast use group_views;

    let mut index: usize = 0;
    while index < values.len()
        invariant
            index <= values@.len(),
            forall|i: int|
                0 <= i < index ==> glob_build_fault(#[trigger] views(values@)[i]) is None,
            globs_fault(field@, views(values@), 0) == globs_fault(
                field@,
                views(values@),
                index as int,
            ),
        decreases values@.len() - index,
    {
        match glob_build_error(values[index].as_str()) {
            Some(message) => {
                return Err(
                    PlanError {
                        field: concat4(field, "[", count_text(index).as_str(), "]"),
                        message,
                    },
                );
            },
            None => {},
        }
        index += 1;
    }
    Ok(clone_texts(values))
}

fn compile_regexes(field: &str, values: &Vec<String>) -> (outcome: Result<Vec<String>, PlanError>)
    ensures
        match outcome {
            Ok(patterns) => {
                &&& regexes_fault(field@, views(values@), 0) is None
                &&& views(patterns@) == views(values@)
            },
            Err(error) => regexes_fault(field@, views(values@), 0) == Some(error@),
        },
{
    broadcast use group_views;

    let mut index: usize = 0;
    while index < values.len()
        invariant
            index <= values@.len(),
            regexes_fault(field@, views(values@), 0) == regexes_fault(
                field@,
                views(values@),
                index as int,
            ),
        decreases values@.len() - index,
    {
        match regex_error(values[index].as_str()) {
            Some(message) => {
                return Err(
                    PlanError {
                        field: concat4(field, "[", count_text(index).as_str(), "]"),
                        message,
                    },
                );
            },
            None => {},
        }
        index += 1;
    }
    Ok(clone_texts(values))
}

fn parse_optional_duration(field: &str, value: &Option<String>) -> (outcome: Result<
    Option<u64>,
    PlanError,
>)
    ensures
        match outcome {
            Ok(span) => {
                &&& span_fault(field@, opt_view(*value)) is None
                &&& span == span_of(opt_view(*value))
            },
            Err(error) => span_fault(field@, opt_view(*value)) == Some(error@),
        },
{
    match value {
        Some(text) => match read_duration(text.as_str()) {
            Ok((seconds, _)) => Ok(Some(seconds)),
            Err(message) => Err(PlanError { field: field.to_owned(), message }),
        },
        None => Ok(None),
    }
}

impl SelectorMatcher {
    #[verifier::type_invariant]
    spec fn matches_safely(self) -> bool {
        globs_build(views(self.labels@))
    }

    fn compile(field: &str, selectors: &Selectors) -> (outcome: Result<Self, PlanError>)
        ensures
            match outcome {
                Ok(matcher) => {
                    &&& selectors_fault(field@, selectors@) is None
                    &&& matcher@ == selectors@
                },
                Err(error) => selectors_fault(field@, selectors@) == Some(error@),
            },
    {
        let labels = match compile_globs(concat2(field, ".labels").as_str(), &selectors.labels) {
            Ok(labels) => labels,
            Err(error) => {
                return Err(error);
            },
        };
        let names = match compile_regexes(concat2(field, ".names").as_str(), &selectors.names) {
            Ok(names) => names,
            Err(error) => {
                return Err(error);
            },
        };
        Ok(SelectorMatcher { labels, names, name_parts: clone_texts(&selectors.name_parts) })
    }

    fn first_label(pattern: &str, item: &InventoryItem) -> (found: Option<String>)
        requires
            glob_build_fault(pattern@) is None,
        ensures
            opt_view(found) == first_label(pattern@, item@.labels),
    {
        let ghost all = item@.labels;
        let mut index: usize = 0;
        assert(all.skip(0) =~= all);
        while index < item.labels.len()
            invariant
                index <= item.labels@.len(),
                all == item.labels@,
                glob_build_fault(pattern@) is None,
                first_label(pattern@, all) == first_label(pattern@, all.skip(index as int)),
            decreases item.labels@.len() - index,
        {
            let key = item.labels.key_at(index);
            let pair = concat3(key.as_str(), "=", item.labels.value_at(index).as_str());
            assert(all.skip(index as int)[0] == all[index as int]);
            if glob_is_match(pattern, key.as_str()) || glob_is_match(pattern, pair.as_str()) {
                return Some(pair);
            }
            assert(all.skip(index as int).drop_first() =~= all.skip(index as int + 1));
            index += 1;
        }
        None
    }

    fn any_name_matches(names: &Vec<String>, pattern: &str) -> (found: bool)
        ensures
            found == name_matches(views(names@), pattern@),
    {
        broadcast use group_views;

        let mut index: usize = 0;
        while index < names.len()
            invariant
                index <= names@.len(),
                forall|i: int|
                    0 <= i < index ==> !regex_matches(pattern@, #[trigger] views(names@)[i]),
            decreases names@.len() - index,
        {
            if regex_is_match(pattern, names[index].as_str()) {
                assert(regex_matches(pattern@, views(names@)[index as int]));
                return true;
            }
            index += 1;
        }
        false
    }

    fn any_name_holds(names: &Vec<String>, part: &str) -> (found: bool)
        ensures
            found == name_holds(views(names@), part@),
    {
        broadcast use group_views;

        let mut index: usize = 0;
        while index < names.len()
            invariant
                index <= names@.len(),
                forall|i: int| 0 <= i < index ==> !occurs_in(#[trigger] views(names@)[i], part@),
            decreases names@.len() - index,
        {
            if contains_text(names[index].as_str(), part) {
                assert(occurs_in(views(names@)[index as int], part@));
                return true;
            }
            index += 1;
        }
        false
    }

    /// Why these selectors select an item, where they do.
    pub fn match_reason(&self, item: &InventoryItem) -> (reason: Option<String>)
        ensures
            opt_view(reason) == selection_reason(self@, item@),
    {
        broadcast use group_views;

        proof {
            use_type_invariant(self);
        }
        let ghost labels = views(self.labels@);
        let mut index: usize = 0;
        assert(labels.skip(0) =~= labels);
        while index < self.labels.len()
            invariant
                index <= self.labels@.len(),
                labels == views(self.labels@),
                globs_build(labels),
                label_reason(labels, item@.labels) == label_reason(
                    labels.skip(index as int),
                    item@.labels,
                ),
            decreases self.labels@.len() - index,
        {
            let pattern = self.labels[index].as_str();
            assert(labels.skip(index as int)[0] == pattern@);
            assert(labels[index as int] == pattern@);
            match SelectorMatcher::first_label(pattern, item) {
                Some(pair) => {
                    return Some(concat5("label ", pattern, " (", pair.as_str(), ")"));
                },
                None => {},
            }
            assert(labels.skip(index as int).drop_first() =~= labels.skip(index as int + 1));
            index += 1;
        }
        assert(label_reason(labels, item@.labels) is None);
        let ghost names = views(self.names@);
        let mut index: usize = 0;
        assert(names.skip(0) =~= names);
        while index < self.names.len()
            invariant
                index <= self.names@.len(),
                names == views(self.names@),
                label_reason(self@.labels, item@.labels) is None,
                name_reason(names, item@.search_names) == name_reason(
                    names.skip(index as int),
                    item@.search_names,
                ),
            decreases self.names@.len() - index,
        {
            let pattern = self.names[index].as_str();
            assert(names.skip(index as int)[0] == pattern@);
            if SelectorMatcher::any_name_matches(&item.search_names, pattern) {
                return Some(concat2("name regex ", pattern));
            }
            assert(names.skip(index as int).drop_first() =~= names.skip(index as int + 1));
            index += 1;
        }
        assert(name_reason(names, item@.search_names) is None);
        let ghost parts = views(self.name_parts@);
        let mut index: usize = 0;
        assert(parts.skip(0) =~= parts);
        while index < self.name_parts.len()
            invariant
                index <= self.name_parts@.len(),
                parts == views(self.name_parts@),
                label_reason(self@.labels, item@.labels) is None,
                name_reason(self@.names, item@.search_names) is None,
                part_reason(parts, item@.search_names) == part_reason(
                    parts.skip(index as int),
                    item@.search_names,
                ),
            decreases self.name_parts@.len() - index,
        {
            let part = self.name_parts[index].as_str();
            assert(parts.skip(index as int)[0] == part@);
            if SelectorMatcher::any_name_holds(&item.search_names, part) {
                return Some(concat2("name part ", part));
            }
            assert(parts.skip(index as int).drop_first() =~= parts.skip(index as int + 1));
            index += 1;
        }
        None
    }
}

/// What every compiled rule has.
#[verifier::ext_equal]
pub struct CompiledCommonView {
    pub name: Seq<char>,
    pub scope: RuleScope,
    pub selector: SelectorsView,
}

/// A compiled container rule.
#[verifier::ext_equal]
pub struct CompiledContainerView {
    pub common: CompiledCommonView,
    pub stopped_ttl: Option<u64>,
    pub running_ttl: Option<u64>,
}

/// A compiled image rule.
#[verifier::ext_equal]
pub struct CompiledImageView {
    pub common: CompiledCommonView,
    pub dangling: bool,
    pub unused_for: Option<u64>,
    pub tag_patterns: Seq<Seq<char>>,
}

/// A compiled volume rule.
#[verifier::ext_equal]
pub struct CompiledVolumeView {
    pub common: CompiledCommonView,
    pub orphan_for: Option<u64>,
}

/// A compiled network rule.
#[verifier::ext_equal]
pub struct CompiledNetworkView {
    pub common: CompiledCommonView,
    pub orphan: bool,
    pub orphan_for: Option<u64>,
}

/// The compiled build-cache rule.
pub struct CompiledCacheView {
    pub older_than: Option<u64>,
    pub max_bytes: Option<u64>,
}

/// A configuration made ready for evaluation.
#[verifier::ext_equal]
pub struct PolicyView {
    pub protection: SelectorsView,
    pub containers: Seq<CompiledContainerView>,
    pub images: Seq<CompiledImageView>,
    pub volumes: Seq<CompiledVolumeView>,
    pub networks: Seq<CompiledNetworkView>,
    pub build_cache: Option<CompiledCacheView>,
}

/// The common part of a rule, compiled.
pub open spec fn compiled_common(rule: CommonRuleView) -> CompiledCommonView {
    CompiledCommonView { name: rule.name, scope: rule.scope, selector: rule.select }
}

/// A container rule, compiled.
pub open spec fn compiled_container(rule: ContainerRuleView) -> CompiledContainerView {
    CompiledContainerView {
        common: compiled_common(rule.common),
        stopped_ttl: span_of(rule.stopped_ttl),
        running_ttl: span_of(rule.running_ttl),
    }
}

/// An image rule, compiled.
pub open spec fn compiled_image(rule: ImageRuleView) -> CompiledImageView {
    CompiledImageView {
        common: compiled_common(rule.common),
        dangling: rule.dangling,
        unused_for: span_of(rule.unused_for),
        tag_patterns: rule.image_tag_patterns,
    }
}

/// A volume rule, compiled.
pub open spec fn compiled_volume(rule: VolumeRuleView) -> CompiledVolumeView {
    CompiledVolumeView {
        common: compiled_common(rule.common),
        orphan_for: span_of(rule.orphan_for),
    }
}

/// A network rule, compiled.
pub open spec fn compiled_network(rule: NetworkRuleView) -> CompiledNetworkView {
    CompiledNetworkView {
        common: compiled_common(rule.common),
        orphan: rule.orphan,
        orphan_for: span_of(rule.orphan_for),
    }
}

/// The build-cache rule, compiled.
pub open spec fn compiled_cache(rule: BuildCacheRuleView) -> CompiledCacheView {
    CompiledCacheView { older_than: span_of(rule.older_than), max_bytes: rule.max_bytes }
}

/// What a configuration is when made ready for evaluation.
pub open spec fn policy_of(config: ConfigView) -> PolicyView {
    PolicyView {
        protection: protection_selectors(config),
        containers: config.rules.containers.map_values(
            |rule: ContainerRuleView| compiled_container(rule),
        ),
        images: config.rules.images.map_values(|rule: ImageRuleView| compiled_image(rule)),
        volumes: config.rules.volumes.map_values(|rule: VolumeRuleView| compiled_volume(rule)),
        networks: config.rules.networks.map_values(|rule: NetworkRuleView| compiled_network(rule)),
        build_cache: match config.rules.build_cache {
            Some(rule) => Some(compiled_cache(rule)),
            None => None,
        },
    }
}

/// What every compiled rule has.
pub struct CompiledCommonRule {
    name: String,
    scope: RuleScope,
    selector: SelectorMatcher,
}

impl View for CompiledCommonRule {
    type V = CompiledCommonView;

    closed spec fn view(&self) -> CompiledCommonView {
        CompiledCommonView { name: self.name@, scope: self.scope, selector: self.selector@ }
    }
}

/// On what footing a rule decides.
pub open spec fn rule_disposition(rule: CompiledCommonView) -> Disposition {
    match rule.scope {
        RuleScope::Owned => Disposition::Owned,
        RuleScope::All => Disposition::AuthorizedUnscoped,
    }
}

impl CompiledCommonRule {
    fn compile(field: &str, rule: &CommonRule) -> (outcome: Result<Self, PlanError>)
        ensures
            match outcome {
                Ok(compiled) => {
                    &&& selectors_fault(field@ + ".select"@, rule@.select) is None
                    &&& compiled@ == compiled_common(rule@)
                },
                Err(error) => selectors_fault(field@ + ".select"@, rule@.select) == Some(error@),
            },
    {
        match SelectorMatcher::compile(concat2(field, ".select").as_str(), &rule.select) {
            Ok(selector) => Ok(
                CompiledCommonRule { name: rule.name.clone(), scope: rule.scope, selector },
            ),
            Err(error) => Err(error),
        }
    }

    fn disposition(&self) -> (disposition: Disposition)
        ensures
            disposition == rule_disposition(self@),
    {
        match self.scope {
            RuleScope::Owned => Disposition::Owned,
            RuleScope::All => Disposition::AuthorizedUnscoped,
        }
    }
}

/// A compiled container rule.
pub struct CompiledContainerRule {
    common: CompiledCommonRule,
    stopped_ttl: Option<u64>,
    running_ttl: Option<u64>,
}

impl View for CompiledContainerRule {
    type V = CompiledContainerView;

    closed spec fn view(&self) -> CompiledContainerView {
        CompiledContainerView {
            common: self.common@,
            stopped_ttl: self.stopped_ttl,
            running_ttl: self.running_ttl,
        }
    }
}

/// The first fault of one container rule.
pub open spec fn container_fault(index: int, rule: ContainerRuleView) -> Option<PlanErrorView> {
    let field = "rules.containers"@ + "["@ + decimal(index as nat) + "]"@;
    first_fault(selectors_fault(field + ".select"@, rule.common.select), first_fault(span_fault(field + ".stopped_ttl"@, rule.stopped_ttl), span_fault(field + ".running_ttl"@, rule.running_ttl)))
}

/// The first fault among the container rules from `index` on.
pub open spec fn containers_fault(rules: Seq<ContainerRuleView>, index: int) -> Option<PlanErrorView>
    decreases rules.len() - index,
{
    if index < 0 || index >= rules.len() {
        None
    } else {
        first_fault(container_fault(index, rules[index]), containers_fault(rules, index + 1))
    }
}

impl CompiledContainerRule {
    fn compile(index: usize, rule: &ContainerRule) -> (outcome: Result<Self, PlanError>)
        ensures
            match outcome {
                Ok(compiled) => {
                    &&& container_fault(index as int, rule@) is None
                    &&& compiled@ == compiled_container(rule@)
                },
                Err(error) => container_fault(index as int, rule@) == Some(error@),
            },
    {
        let field = concat4("rules.containers", "[", count_text(index).as_str(), "]");
        let common = match CompiledCommonRule::compile(field.as_str(), &rule.common) {
            Ok(common) => common,
            Err(error) => {
                return Err(error);
            },
        };
        let stopped_ttl: Option<u64> = match parse_optional_duration(
            concat2(field.as_str(), ".stopped_ttl").as_str(),
            &rule.stopped_ttl,
        ) {
            Ok(span) => span,
            Err(error) => {
                return Err(error);
            },
        };
        let running_ttl: Option<u64> = match parse_optional_duration(
            concat2(field.as_str(), ".running_ttl").as_str(),
            &rule.running_ttl,
        ) {
            Ok(span) => span,
            Err(error) => {
                return Err(error);
            },
        };
        Ok(CompiledContainerRule { common, stopped_ttl, running_ttl })
    }

    fn compile_all(rules: &Vec<ContainerRule>) -> (outcome: Result<Vec<Self>, PlanError>)
        ensures
            match outcome {
                Ok(compiled) => {
                    &&& containers_fault(views(rules@), 0) is None
                    &&& views(compiled@) == views(rules@).map_values(
                        |rule: ContainerRuleView| compiled_container(rule),
                    )
                },
                Err(error) => containers_fault(views(rules@), 0) == Some(error@),
            },
    {
        broadcast use group_views;

        let ghost wanted = views(rules@).map_values(|rule: ContainerRuleView| compiled_container(rule));
        let mut compiled: Vec<Self> = Vec::new();
        let mut index: usize = 0;
        assert(views(compiled@) =~= wanted.take(0));
        while index < rules.len()
            invariant
                index <= rules@.len(),
                wanted == views(rules@).map_values(|rule: ContainerRuleView| compiled_container(rule)),
                views(compiled@) == wanted.take(index as int),
                containers_fault(views(rules@), 0) == containers_fault(views(rules@), index as int),
            decreases rules@.len() - index,
        {
            assert(views(rules@)[index as int] == rules@[index as int]@);
            match CompiledContainerRule::compile(index, &rules[index]) {
                Ok(rule) => {
                    assert(wanted.take(index as int + 1) =~= wanted.take(index as int).push(rule@));
                    compiled.push(rule);
                },
                Err(error) => {
                    return Err(error);
                },
            }
            index += 1;
        }
        assert(wanted.take(index as int) =~= wanted);
        Ok(compiled)
    }
}

/// A compiled image rule.
pub struct CompiledImageRule {
    common: CompiledCommonRule,
    dangling: bool,
    unused_for: Option<u64>,
    tag_patterns: Vec<String>,
}

impl View for CompiledImageRule {
    type V = CompiledImageView;

    closed spec fn view(&self) -> CompiledImageView {
        CompiledImageView {
            common: self.common@,
            dangling: self.dangling,
            unused_for: self.unused_for,
            tag_patterns: views(self.tag_patterns@),
        }
    }
}

/// The first fault of one image rule.
pub open spec fn image_fault(index: int, rule: ImageRuleView) -> Option<PlanErrorView> {
    let field = "rules.images"@ + "["@ + decimal(index as nat) + "]"@;
    first_fault(selectors_fault(field + ".select"@, rule.common.select), first_fault(span_fault(field + ".unused_for"@, rule.unused_for), globs_fault(field + ".image_tag_patterns"@, rule.image_tag_patterns, 0)))
}

/// The first fault among the image rules from `index` on.
pub open spec fn images_fault(rules: Seq<ImageRuleView>, index: int) -> Option<PlanErrorView>
    decreases rules.len() - index,
{
    if index < 0 || index >= rules.len() {
        None
    } else {
        first_fault(image_fault(index, rules[index]), images_fault(rules, index + 1))
    }
}

impl CompiledImageRule {
    #[verifier::type_invariant]
    spec fn tags_match_safely(self) -> bool {
        globs_build(views(self.tag_patterns@))
    }

    fn compile(index: usize, rule: &ImageRule) -> (outcome: Result<Self, PlanError>)
        ensures
            match outcome {
                Ok(compiled) => {
                    &&& image_fault(index as int, rule@) is None
                    &&& compiled@ == compiled_image(rule@)
                },
                Err(error) => image_fault(index as int, rule@) == Some(error@),
            },
    {
        let field = concat4("rules.images", "[", count_text(index).as_str(), "]");
        let common = match CompiledCommonRule::compile(field.as_str(), &rule.common) {
            Ok(common) => common,
            Err(error) => {
                return Err(error);
            },
        };
        let unused_for: Option<u64> = match parse_optional_duration(
            concat2(field.as_str(), ".unused_for").as_str(),
            &rule.unused_for,
        ) {
            Ok(span) => span,
            Err(error) => {
                return Err(error);
            },
        };
        let tag_patterns = match compile_globs(
            concat2(field.as_str(), ".image_tag_patterns").as_str(),
            &rule.image_tag_patterns,
        ) {
            Ok(globs) => globs,
            Err(error) => {
                return Err(error);
            },
        };
        Ok(CompiledImageRule { common, dangling: rule.dangling, unused_for, tag_patterns })
    }

    fn compile_all(rules: &Vec<ImageRule>) -> (outcome: Result<Vec<Self>, PlanError>)
        ensures
            match outcome {
                Ok(compiled) => {
                    &&& images_fault(views(rules@), 0) is None
                    &&& views(compiled@) == views(rules@).map_values(
                        |rule: ImageRuleView| compiled_image(rule),
                    )
                },
                Err(error) => images_fault(views(rules@), 0) == Some(error@),
            },
    {
        broadcast use group_views;

        let ghost wanted = views(rules@).map_values(|rule: ImageRuleView| compiled_image(rule));
        let mut compiled: Vec<Self> = Vec::new();
        let mut index: usize = 0;
        assert(views(compiled@) =~= wanted.take(0));
        while index < rules.len()
            invariant
                index <= rules@.len(),
                wanted == views(rules@).map_values(|rule: ImageRuleView| compiled_image(rule)),
                views(compiled@) == wanted.take(index as int),
                images_fault(views(rules@), 0) == images_fault(views(rules@), index as int),
            decreases rules@.len() - index,
        {
            assert(views(rules@)[index as int] == rules@[index as int]@);
            match CompiledImageRule::compile(index, &rules[index]) {
                Ok(rule) => {
                    assert(wanted.take(index as int + 1) =~= wanted.take(index as int).push(rule@));
                    compiled.push(rule);
                },
                Err(error) => {
                    return Err(error);
                },
            }
            index += 1;
        }
        assert(wanted.take(index as int) =~= wanted);
        Ok(compiled)
    }
}

/// A compiled volume rule.
pub struct CompiledVolumeRule {
    common: CompiledCommonRule,
    orphan_for: Option<u64>,
}

impl View for CompiledVolumeRule {
    type V = CompiledVolumeView;

    closed spec fn view(&self) -> CompiledVolumeView {
        CompiledVolumeView {
            common: self.common@,
            orphan_for: self.orphan_for,
        }
    }
}

/// The first fault of one volume rule.
pub open spec fn volume_fault(index: int, rule: VolumeRuleView) -> Option<PlanErrorView> {
    let field = "rules.volumes"@ + "["@ + decimal(index as nat) + "]"@;
    first_fault(selectors_fault(field + ".select"@, rule.common.select), span_fault(field + ".orphan_for"@, rule.orphan_for))
}

/// The first fault among the volume rules from `index` on.
pub open spec fn volumes_fault(rules: Seq<VolumeRuleView>, index: int) -> Option<PlanErrorView>
    decreases rules.len() - index,
{
    if index < 0 || index >= rules.len() {
        None
    } else {
        first_fault(volume_fault(index, rules[index]), volumes_fault(rules, index + 1))
    }
}

impl CompiledVolumeRule {
    fn compile(index: usize, rule: &VolumeRule) -> (outcome: Result<Self, PlanError>)
        ensures
            match outcome {
                Ok(compiled) => {
                    &&& volume_fault(index as int, rule@) is None
                    &&& compiled@ == compiled_volume(rule@)
                },
                Err(error) => volume_fault(index as int, rule@) == Some(error@),
            },
    {
        let field = concat4("rules.volumes", "[", count_text(index).as_str(), "]");
        let common = match CompiledCommonRule::compile(field.as_str(), &rule.common) {
            Ok(common) => common,
            Err(error) => {
                return Err(error);
            },
        };
        let orphan_for: Option<u64> = match parse_optional_duration(
            concat2(field.as_str(), ".orphan_for").as_str(),
            &rule.orphan_for,
        ) {
            Ok(span) => span,
            Err(error) => {
                return Err(error);
            },
        };
        Ok(CompiledVolumeRule { common, orphan_for })
    }

    fn compile_all(rules: &Vec<VolumeRule>) -> (outcome: Result<Vec<Self>, PlanError>)
        ensures
            match outcome {
                Ok(compiled) => {
                    &&& volumes_fault(views(rules@), 0) is None
                    &&& views(compiled@) == views(rules@).map_values(
                        |rule: VolumeRuleView| compiled_volume(rule),
                    )
                },
                Err(error) => volumes_fault(views(rules@), 0) == Some(error@),
            },
    {
        broadcast use group_views;

        let ghost wanted = views(rules@).map_values(|rule: VolumeRuleView| compiled_volume(rule));
        let mut compiled: Vec<Self> = Vec::new();
        let mut index: usize = 0;
        assert(views(compiled@) =~= wanted.take(0));
        while index < rules.len()
            invariant
                index <= rules@.len(),
                wanted == views(rules@).map_values(|rule: VolumeRuleView| compiled_volume(rule)),
                views(compiled@) == wanted.take(index as int),
                volumes_fault(views(rules@), 0) == volumes_fault(views(rules@), index as int),
            decreases rules@.len() - index,
        {
            assert(views(rules@)[index as int] == rules@[index as int]@);
            match CompiledVolumeRule::compile(index, &rules[index]) {
                Ok(rule) => {
                    assert(wanted.take(index as int + 1) =~= wanted.take(index as int).push(rule@));
                    compiled.push(rule);
                },
                Err(error) => {
                    return Err(error);
                },
            }
            index += 1;
        }
        assert(wanted.take(index as int) =~= wanted);
        Ok(compiled)
    }
}

/// A compiled network rule.
pub struct CompiledNetworkRule {
    common: CompiledCommonRule,
    orphan: bool,
    orphan_for: Option<u64>,
}

impl View for CompiledNetworkRule {
    type V = CompiledNetworkView;

    closed spec fn view(&self) -> CompiledNetworkView {
        CompiledNetworkView {
            common: self.common@,
            orphan: self.orphan,
            orphan_for: self.orphan_for,
        }
    }
}

/// The first fault of one network rule.
pub open spec fn network_fault(index: int, rule: NetworkRuleView) -> Option<PlanErrorView> {
    let field = "rules.networks"@ + "["@ + decimal(index as nat) + "]"@;
    first_fault(selectors_fault(field + ".select"@, rule.common.select), span_fault(field + ".orphan_for"@, rule.orphan_for))
}

/// The first fault among the network rules from `index` on.
pub open spec fn networks_fault(rules: Seq<NetworkRuleView>, index: int) -> Option<PlanErrorView>
    decreases rules.len() - index,
{
    if index < 0 || index >= rules.len() {
        None
    } else {
        first_fault(network_fault(index, rules[index]), networks_fault(rules, index + 1))
    }
}

impl CompiledNetworkRule {
    fn compile(index: usize, rule: &NetworkRule) -> (outcome: Result<Self, PlanError>)
        ensures
            match outcome {
                Ok(compiled) => {
                    &&& network_fault(index as int, rule@) is None
                    &&& compiled@ == compiled_network(rule@)
                },
                Err(error) => network_fault(index as int, rule@) == Some(error@),
            },
    {
        let field = concat4("rules.networks", "[", count_text(index).as_str(), "]");
        let common = match CompiledCommonRule::compile(field.as_str(), &rule.common) {
            Ok(common) => common,
            Err(error) => {
                return Err(error);
            },
        };
        let orphan_for: Option<u64> = match parse_optional_duration(
            concat2(field.as_str(), ".orphan_for").as_str(),
            &rule.orphan_for,
        ) {
            Ok(span) => span,
            Err(error) => {
                return Err(error);
            },
        };
        Ok(CompiledNetworkRule { common, orphan: rule.orphan, orphan_for })
    }

    fn compile_all(rules: &Vec<NetworkRule>) -> (outcome: Result<Vec<Self>, PlanError>)
        ensures
            match outcome {
                Ok(compiled) => {
                    &&& networks_fault(views(rules@), 0) is None
                    &&& views(compiled@) == views(rules@).map_values(
                        |rule: NetworkRuleView| compiled_network(rule),
                    )
                },
                Err(error) => networks_fault(views(rules@), 0) == Some(error@),
            },
    {
        broadcast use group_views;

        let ghost wanted = views(rules@).map_values(|rule: NetworkRuleView| compiled_network(rule));
        let mut compiled: Vec<Self> = Vec::new();
        let mut index: usize = 0;
        assert(views(compiled@) =~= wanted.take(0));
        while index < rules.len()
            invariant
                index <= rules@.len(),
                wanted == views(rules@).map_values(|rule: NetworkRuleView| compiled_network(rule)),
                views(compiled@) == wanted.take(index as int),
                networks_fault(views(rules@), 0) == networks_fault(views(rules@), index as int),
            decreases rules@.len() - index,
        {
            assert(views(rules@)[index as int] == rules@[index as int]@);
            match CompiledNetworkRule::compile(index, &rules[index]) {
                Ok(rule) => {
                    assert(wanted.take(index as int + 1) =~= wanted.take(index as int).push(rule@));
                    compiled.push(rule);
                },
                Err(error) => {
                    return Err(error);
                },
            }
            index += 1;
        }
        assert(wanted.take(index as int) =~= wanted);
        Ok(compiled)
    }
}

/// The compiled build-cache rule.
pub struct CompiledBuildCacheRule {
    older_than: Option<u64>,
    max_bytes: Option<u64>,
}

impl View for CompiledBuildCacheRule {
    type V = CompiledCacheView;

    closed spec fn view(&self) -> CompiledCacheView {
        CompiledCacheView { older_than: self.older_than, max_bytes: self.max_bytes }
    }
}

impl CompiledBuildCacheRule {
    fn compile(rule: &BuildCacheRule) -> (outcome: Result<Self, PlanError>)
        ensures
            match outcome {
                Ok(compiled) => {
                    &&& span_fault("rules.build_cache.older_than"@, rule@.older_than) is None
                    &&& compiled@ == compiled_cache(rule@)
                },
                Err(error) => span_fault("rules.build_cache.older_than"@, rule@.older_than)
                    == Some(error@),
            },
    {
        match parse_optional_duration("rules.build_cache.older_than", &rule.older_than) {
            Ok(older_than) => Ok(
                CompiledBuildCacheRule { older_than, max_bytes: rule.max_bytes },
            ),
            Err(error) => Err(error),
        }
    }
}

/// The first fault of a configuration, in the order of its parts.
pub open spec fn policy_fault(config: ConfigView) -> Option<PlanErrorView> {
    first_fault(
        selectors_fault("protect"@, protection_selectors(config)),
        first_fault(
            containers_fault(config.rules.containers, 0),
            first_fault(
                images_fault(config.rules.images, 0),
                first_fault(
                    volumes_fault(config.rules.volumes, 0),
                    first_fault(
                        networks_fault(config.rules.networks, 0),
                        match config.rules.build_cache {
                            Some(rule) => span_fault(
                                "rules.build_cache.older_than"@,
                                rule.older_than,
                            ),
                            None => None,
                        },
                    ),
                ),
            ),
        ),
    )
}

/// A configuration made ready for evaluation.
pub struct CompiledPolicy {
    protection: SelectorMatcher,
    containers: Vec<CompiledContainerRule>,
    images: Vec<CompiledImageRule>,
    volumes: Vec<CompiledVolumeRule>,
    networks: Vec<CompiledNetworkRule>,
    build_cache: Option<CompiledBuildCacheRule>,
}

impl View for CompiledPolicy {
    type V = PolicyView;

    closed spec fn view(&self) -> PolicyView {
        PolicyView {
            protection: self.protection@,
            containers: views(self.containers@),
            images: views(self.images@),
            volumes: views(self.volumes@),
            networks: views(self.networks@),
            build_cache: opt_view(self.build_cache),
        }
    }
}

impl CompiledPolicy {
    /// Makes a configuration ready for evaluation, or names its first fault.
    pub fn compile(config: &Config) -> (outcome: Result<Self, PlanError>)
        ensures
            match outcome {
                Ok(policy) => {
                    &&& policy_fault(config@) is None
                    &&& policy@ == policy_of(config@)
                },
                Err(error) => policy_fault(config@) == Some(error@),
            },
    {
        let selectors = Selectors {
            labels: clone_texts(&config.protect.labels),
            names: clone_texts(&config.protect.names),
            name_parts: Vec::new(),
        };
        assert(selectors@ =~= protection_selectors(config@));
        let protection = match SelectorMatcher::compile("protect", &selectors) {
            Ok(protection) => protection,
            Err(error) => {
                return Err(error);
            },
        };
        let containers = match CompiledContainerRule::compile_all(&config.rules.containers) {
            Ok(rules) => rules,
            Err(error) => {
                return Err(error);
            },
        };
        let images = match CompiledImageRule::compile_all(&config.rules.images) {
            Ok(rules) => rules,
            Err(error) => {
                return Err(error);
            },
        };
        let volumes = match CompiledVolumeRule::compile_all(&config.rules.volumes) {
            Ok(rules) => rules,
            Err(error) => {
                return Err(error);
            },
        };
        let networks = match CompiledNetworkRule::compile_all(&config.rules.networks) {
            Ok(rules) => rules,
            Err(error) => {
                return Err(error);
            },
        };
        let build_cache = match &config.rules.build_cache {
            Some(rule) => match CompiledBuildCacheRule::compile(rule) {
                Ok(compiled) => Some(compiled),
                Err(error) => {
                    return Err(error);
                },
            },
            None => None,
        };
        Ok(CompiledPolicy { protection, containers, images, volumes, networks, build_cache })
    }
}

/// The decision that keeps an item.
pub open spec fn kept(
    resource: ItemView,
    disposition: Disposition,
    matched_rule: Option<Seq<char>>,
    reason: Seq<char>,
) -> DecisionView {
    DecisionView {
        resource,
        disposition,
        matched_rule,
        action: Action::Keep,
        age_seconds: None,
        reason,
    }
}

/// The decision that removes an item.
pub open spec fn removed(
    resource: ItemView,
    disposition: Disposition,
    rule: Seq<char>,
    age_seconds: Option<u64>,
    reason: Seq<char>,
) -> DecisionView {
    DecisionView {
        resource,
        disposition,
        matched_rule: Some(rule),
        action: Action::Remove,
        age_seconds,
        reason,
    }
}

/// The decision on an item that no rule selects.
pub open spec fn no_rule(resource: ItemView) -> DecisionView {
    kept(resource, Disposition::Unowned, None, "no rule matched"@)
}

fn keep(
    resource: InventoryItem,
    disposition: Disposition,
    matched_rule: Option<String>,
    reason: String,
) -> (decision: Decision)
    ensures
        decision@ == kept(resource@, disposition, opt_view(matched_rule), reason@),
{
    Decision {
        resource,
        disposition,
        matched_rule,
        action: Action::Keep,
        age_seconds: None,
        reason,
    }
}

fn remove(
    resource: InventoryItem,
    disposition: Disposition,
    rule: &str,
    age_seconds: Option<u64>,
    reason: String,
) -> (decision: Decision)
    ensures
        decision@ == removed(resource@, disposition, rule@, age_seconds, reason@),
{
    Decision {
        resource,
        disposition,
        matched_rule: Some(rule.to_owned()),
        action: Action::Remove,
        age_seconds,
        reason,
    }
}

fn unowned(resource: InventoryItem) -> (decision: Decision)
    ensures
        decision@ == no_rule(resource@),
{
    keep(resource, Disposition::Unowned, None, "no rule matched".to_owned())
}

/// `matched`, the selection, and what follows from it.
pub open spec fn matched(selection: Seq<char>, consequence: Seq<char>) -> Seq<char> {
    "matched "@ + selection + consequence
}

/// Whether an age reaches a threshold; an unknown age reaches none.
pub open spec fn reaches(age: Option<u64>, threshold: u64) -> bool {
    age is Some && age.unwrap() >= threshold
}

/// Whether an observed age meets a floor. What has only just been seen waits,
/// however low the floor.
pub open spec fn outlasts(age: Option<u64>, floor: u64) -> bool {
    reaches(age, floor) && age != Some(0u64)
}

/// Whether an observed age meets a floor.
fn observed_long_enough(age: Option<u64>, floor: u64) -> (met: bool)
    ensures
        met == outlasts(age, floor),
{
    match age {
        Some(seconds) => seconds > 0 && seconds >= floor,
        None => false,
    }
}

/// A known age in words.
pub open spec fn age_words(age: Option<u64>) -> Seq<char> {
    match age {
        Some(seconds) => short_duration(seconds),
        None => "unknown"@,
    }
}

fn age_text(age: Option<u64>) -> (words: String)
    ensures
        words@ == age_words(age),
{
    match age {
        Some(seconds) => format_duration(seconds),
        None => "unknown".to_owned(),
    }
}

/// The least whole number of seconds that meets a floor.
pub open spec fn least_wait(floor: u64) -> u64 {
    if floor == 0 {
        1
    } else {
        floor
    }
}

/// Why a policy still waits on the observed clock.
pub open spec fn wait_reason(
    selection: Seq<char>,
    condition: Seq<char>,
    age: Option<u64>,
    threshold: u64,
) -> Seq<char> {
    match age {
        None => matched(selection, "; first observed "@) + condition + " now, so its "@
            + short_duration(threshold) + " clock starts at zero"@,
        Some(seconds) => matched(selection, "; observed "@) + condition + " for "@
            + short_duration(seconds) + " which is below "@ + short_duration(
            least_wait(threshold),
        ),
    }
}

fn observed_wait_reason(selector: &str, condition: &str, unreferenced_age: Option<u64>, threshold: u64) -> (reason:
    String)
    ensures
        reason@ == wait_reason(selector@, condition@, unreferenced_age, threshold),
{
    match unreferenced_age {
        None => {
            let mut reason = concat3("matched ", selector, "; first observed ");
            reason.append(condition);
            reason.append(" now, so its ");
            reason.append(format_duration(threshold).as_str());
            reason.append(" clock starts at zero");
            reason
        },
        Some(seconds) => {
            let mut reason = concat3("matched ", selector, "; observed ");
            reason.append(condition);
            reason.append(" for ");
            reason.append(format_duration(seconds).as_str());
            reason.append(" which is below ");
            let least: u64 = if threshold == 0 {
                1
            } else {
                threshold
            };
            reason.append(format_duration(least).as_str());
            reason
        },
    }
}

/// What a container rule does with a container that it selects.
pub open spec fn container_decision(
    rule: CompiledContainerView,
    selection: Seq<char>,
    item: ItemView,
    now: i64,
) -> DecisionView {
    let disposition = rule_disposition(rule.common);
    let threshold = match item.state {
        ResourceStateView::Running => rule.running_ttl,
        ResourceStateView::Stopped => rule.stopped_ttl,
        _ => None,
    };
    let age = age_of(now, item.state_since);
    match threshold {
        None => kept(
            item,
            disposition,
            Some(rule.common.name),
            matched(selection, "; no policy applies to its current state"@),
        ),
        Some(seconds) => if reaches(age, seconds) {
            removed(
                item,
                disposition,
                rule.common.name,
                age,
                matched(selection, "; state age "@) + age_words(age) + " meets "@ + short_duration(
                    seconds,
                ),
            )
        } else {
            kept(
                item,
                disposition,
                Some(rule.common.name),
                matched(selection, "; state age is below "@) + short_duration(seconds)
                    + " or unavailable"@,
            )
        },
    }
}

/// What the container rules do with a container: the first that selects it
/// decides.
pub open spec fn decide_container(
    rules: Seq<CompiledContainerView>,
    item: ItemView,
    now: i64,
) -> DecisionView
    decreases rules.len(),
{
    if rules.len() == 0 {
        no_rule(item)
    } else {
        match selection_reason(rules[0].common.selector, item) {
            Some(selection) => container_decision(rules[0], selection, item, now),
            None => decide_container(rules.drop_first(), item, now),
        }
    }
}

/// Whether some tag pattern accepts some name.
pub open spec fn tag_matches(patterns: Seq<Seq<char>>, names: Seq<Seq<char>>) -> bool {
    exists|i: int, j: int|
        0 <= i < patterns.len() && 0 <= j < names.len() && glob_matches(
            #[trigger] patterns[i],
            #[trigger] names[j],
        )
}

/// What an image rule does with an image that it selects.
pub open spec fn image_decision(
    rule: CompiledImageView,
    selection: Seq<char>,
    item: ItemView,
    age: Option<u64>,
) -> DecisionView {
    let disposition = rule_disposition(rule.common);
    let dangling = rule.dangling && item.dangling;
    if item.referenced {
        kept(
            item,
            disposition,
            Some(rule.common.name),
            matched(selection, "; image is referenced by a container"@),
        )
    } else if !tag_matches(rule.tag_patterns, item.search_names) && !dangling {
        kept(
            item,
            disposition,
            Some(rule.common.name),
            matched(selection, "; no image removal predicate matched"@),
        )
    } else {
        match rule.unused_for {
            None => kept(
                item,
                disposition,
                Some(rule.common.name),
                matched(selection, "; no unused age policy is set"@),
            ),
            Some(threshold) => if !outlasts(age, threshold) {
                kept(
                    item,
                    disposition,
                    Some(rule.common.name),
                    wait_reason(selection, "unreferenced"@, age, threshold),
                )
            } else {
                removed(
                    item,
                    disposition,
                    rule.common.name,
                    age,
                    matched(selection, "; unreferenced "@) + (if dangling {
                        "dangling image"@
                    } else {
                        "image tag pattern"@
                    }) + "; observed unreferenced for "@ + age_words(age) + " which meets "@
                        + short_duration(threshold),
                )
            },
        }
    }
}

/// What the image rules do with an image.
pub open spec fn decide_image(
    rules: Seq<CompiledImageView>,
    item: ItemView,
    age: Option<u64>,
) -> DecisionView
    decreases rules.len(),
{
    if rules.len() == 0 {
        no_rule(item)
    } else {
        match selection_reason(rules[0].common.selector, item) {
            Some(selection) => image_decision(rules[0], selection, item, age),
            None => decide_image(rules.drop_first(), item, age),
        }
    }
}

/// What a volume rule does with a volume that it selects.
pub open spec fn volume_decision(
    rule: CompiledVolumeView,
    selection: Seq<char>,
    item: ItemView,
    age: Option<u64>,
) -> DecisionView {
    let disposition = rule_disposition(rule.common);
    if item.referenced {
        kept(
            item,
            disposition,
            Some(rule.common.name),
            matched(selection, "; volume is attached to a container"@),
        )
    } else {
        match rule.orphan_for {
            None => kept(
                item,
                disposition,
                Some(rule.common.name),
                matched(selection, "; no orphan age policy is set"@),
            ),
            Some(threshold) => if outlasts(age, threshold) {
                removed(
                    item,
                    disposition,
                    rule.common.name,
                    age,
                    matched(selection, "; observed unattached for "@) + age_words(age)
                        + " which meets "@ + short_duration(threshold),
                )
            } else {
                kept(
                    item,
                    disposition,
                    Some(rule.common.name),
                    wait_reason(selection, "unattached"@, age, threshold),
                )
            },
        }
    }
}

/// What the volume rules do with a volume.
pub open spec fn decide_volume(
    rules: Seq<CompiledVolumeView>,
    item: ItemView,
    age: Option<u64>,
) -> DecisionView
    decreases rules.len(),
{
    if rules.len() == 0 {
        no_rule(item)
    } else {
        match selection_reason(rules[0].common.selector, item) {
            Some(selection) => volume_decision(rules[0], selection, item, age),
            None => decide_volume(rules.drop_first(), item, age),
        }
    }
}

/// What a network rule does with a network that it selects.
pub open spec fn network_decision(
    rule: CompiledNetworkView,
    selection: Seq<char>,
    item: ItemView,
    age: Option<u64>,
) -> DecisionView {
    let disposition = rule_disposition(rule.common);
    if !rule.orphan || item.referenced {
        kept(
            item,
            disposition,
            Some(rule.common.name),
            matched(selection, "; network is in use or orphan cleanup is disabled"@),
        )
    } else {
        match rule.orphan_for {
            None => kept(
                item,
                disposition,
                Some(rule.common.name),
                matched(selection, "; no orphan age policy is set"@),
            ),
            Some(threshold) => if outlasts(age, threshold) {
                removed(
                    item,
                    disposition,
                    rule.common.name,
                    age,
                    matched(selection, "; observed empty for "@) + age_words(age)
                        + " which meets "@ + short_duration(threshold),
                )
            } else {
                kept(
                    item,
                    disposition,
                    Some(rule.common.name),
                    wait_reason(selection, "empty"@, age, threshold),
                )
            },
        }
    }
}

/// What the network rules do with a network that Docker did not make itself.
pub open spec fn decide_network_rules(
    rules: Seq<CompiledNetworkView>,
    item: ItemView,
    age: Option<u64>,
) -> DecisionView
    decreases rules.len(),
{
    if rules.len() == 0 {
        no_rule(item)
    } else {
        match selection_reason(rules[0].common.selector, item) {
            Some(selection) => network_decision(rules[0], selection, item, age),
            None => decide_network_rules(rules.drop_first(), item, age),
        }
    }
}

/// What is decided about a network: Docker's own are protected.
pub open spec fn decide_network(
    rules: Seq<CompiledNetworkView>,
    item: ItemView,
    age: Option<u64>,
) -> DecisionView {
    if item.system {
        kept(item, Disposition::Protected, None, "Docker system network"@)
    } else {
        decide_network_rules(rules, item, age)
    }
}

impl CompiledPolicy {
    fn decide_container(&self, item: InventoryItem, now: i64) -> (decision: Decision)
        ensures
            decision@ == decide_container(self@.containers, item@, now),
    {
        broadcast use group_views;

        let ghost all = views(self.containers@);
        let mut index: usize = 0;
        assert(all.skip(0) =~= all);
        while index < self.containers.len()
            invariant
                index <= self.containers@.len(),
                all == views(self.containers@),
                decide_container(all, item@, now) == decide_container(
                    all.skip(index as int),
                    item@,
                    now,
                ),
            decreases self.containers@.len() - index,
        {
            let rule = &self.containers[index];
            assert(all.skip(index as int)[0] == rule@);
            match rule.common.selector.match_reason(&item) {
                Some(selector) => {
                    let disposition = rule.common.disposition();
                    let threshold: Option<u64> = match &item.state {
                        ResourceState::Running => rule.running_ttl,
                        ResourceState::Stopped => rule.stopped_ttl,
                        ResourceState::Available | ResourceState::Other(_) => None,
                    };
                    let name = rule.common.name.clone();
                    match threshold {
                        None => {
                            return keep(
                                item,
                                disposition,
                                Some(name),
                                concat3(
                                    "matched ",
                                    selector.as_str(),
                                    "; no policy applies to its current state",
                                ),
                            );
                        },
                        Some(limit) => {
                            let age: Option<u64> = age_seconds(now, item.state_since);
                            if age.is_some() && age.unwrap() >= limit {
                                let mut reason = concat3(
                                    "matched ",
                                    selector.as_str(),
                                    "; state age ",
                                );
                                reason.append(age_text(age).as_str());
                                reason.append(" meets ");
                                reason.append(format_duration(limit).as_str());
                                return remove(item, disposition, name.as_str(), age, reason);
                            }
                            let mut reason = concat3(
                                "matched ",
                                selector.as_str(),
                                "; state age is below ",
                            );
                            reason.append(format_duration(limit).as_str());
                            reason.append(" or unavailable");
                            return keep(item, disposition, Some(name), reason);
                        },
                    }
                },
                None => {},
            }
            assert(all.skip(index as int).drop_first() =~= all.skip(index as int + 1));
            index += 1;
        }
        unowned(item)
    }

    fn any_tag_matches(patterns: &Vec<String>, names: &Vec<String>) -> (found: bool)
        requires
            globs_build(views(patterns@)),
        ensures
            found == tag_matches(views(patterns@), views(names@)),
    {
        broadcast use group_views;

        let mut row: usize = 0;
        while row < patterns.len()
            invariant
                row <= patterns@.len(),
                globs_build(views(patterns@)),
                forall|i: int, j: int|
                    0 <= i < row && 0 <= j < names@.len() ==> !glob_matches(
                        #[trigger] views(patterns@)[i],
                        #[trigger] views(names@)[j],
                    ),
            decreases patterns@.len() - row,
        {
            let mut column: usize = 0;
            while column < names.len()
                invariant
                    row < patterns@.len(),
                    globs_build(views(patterns@)),
                    column <= names@.len(),
                    forall|i: int, j: int|
                        0 <= i < row && 0 <= j < names@.len() ==> !glob_matches(
                            #[trigger] views(patterns@)[i],
                            #[trigger] views(names@)[j],
                        ),
                    forall|j: int|
                        0 <= j < column ==> !glob_matches(
                            views(patterns@)[row as int],
                            #[trigger] views(names@)[j],
                        ),
                decreases names@.len() - column,
            {
                assert(glob_build_fault(views(patterns@)[row as int]) is None);
                if glob_is_match(patterns[row].as_str(), names[column].as_str()) {
                    assert(glob_matches(
                        views(patterns@)[row as int],
                        views(names@)[column as int],
                    ));
                    return true;
                }
                column += 1;
            }
            row += 1;
        }
        false
    }

    fn decide_image(&self, item: InventoryItem, unreferenced_age: Option<u64>) -> (decision:
        Decision)
        ensures
            decision@ == decide_image(self@.images, item@, unreferenced_age),
    {
        broadcast use group_views;

        let ghost all = views(self.images@);
        let mut index: usize = 0;
        assert(all.skip(0) =~= all);
        while index < self.images.len()
            invariant
                index <= self.images@.len(),
                all == views(self.images@),
                decide_image(all, item@, unreferenced_age) == decide_image(
                    all.skip(index as int),
                    item@,
                    unreferenced_age,
                ),
            decreases self.images@.len() - index,
        {
            let rule = &self.images[index];
            assert(all.skip(index as int)[0] == rule@);
            match rule.common.selector.match_reason(&item) {
                Some(selector) => {
                    let disposition = rule.common.disposition();
                    let name = rule.common.name.clone();
                    if item.referenced {
                        return keep(
                            item,
                            disposition,
                            Some(name),
                            concat3(
                                "matched ",
                                selector.as_str(),
                                "; image is referenced by a container",
                            ),
                        );
                    }
                    let dangling = rule.dangling && item.dangling;
                    proof {
                        use_type_invariant(rule);
                    }
                    if !(CompiledPolicy::any_tag_matches(&rule.tag_patterns, &item.search_names)
                        || dangling) {
                        return keep(
                            item,
                            disposition,
                            Some(name),
                            concat3(
                                "matched ",
                                selector.as_str(),
                                "; no image removal predicate matched",
                            ),
                        );
                    }
                    let threshold: u64 = match rule.unused_for {
                        Some(threshold) => threshold,
                        None => {
                            return keep(
                                item,
                                disposition,
                                Some(name),
                                concat3(
                                    "matched ",
                                    selector.as_str(),
                                    "; no unused age policy is set",
                                ),
                            );
                        },
                    };
                    if !observed_long_enough(unreferenced_age, threshold) {
                        let reason = observed_wait_reason(
                            selector.as_str(),
                            "unreferenced",
                            unreferenced_age,
                            threshold,
                        );
                        return keep(item, disposition, Some(name), reason);
                    }
                    let mut reason = concat3("matched ", selector.as_str(), "; unreferenced ");
                    if dangling {
                        reason.append("dangling image");
                    } else {
                        reason.append("image tag pattern");
                    }
                    reason.append("; observed unreferenced for ");
                    reason.append(age_text(unreferenced_age).as_str());
                    reason.append(" which meets ");
                    reason.append(format_duration(threshold).as_str());
                    return remove(item, disposition, name.as_str(), unreferenced_age, reason);
                },
                None => {},
            }
            assert(all.skip(index as int).drop_first() =~= all.skip(index as int + 1));
            index += 1;
        }
        unowned(item)
    }

    fn decide_volume(&self, item: InventoryItem, unreferenced_age: Option<u64>) -> (decision:
        Decision)
        ensures
            decision@ == decide_volume(self@.volumes, item@, unreferenced_age),
    {
        broadcast use group_views;

        let ghost all = views(self.volumes@);
        let mut index: usize = 0;
        assert(all.skip(0) =~= all);
        while index < self.volumes.len()
            invariant
                index <= self.volumes@.len(),
                all == views(self.volumes@),
                decide_volume(all, item@, unreferenced_age) == decide_volume(
                    all.skip(index as int),
                    item@,
                    unreferenced_age,
                ),
            decreases self.volumes@.len() - index,
        {
            let rule = &self.volumes[index];
            assert(all.skip(index as int)[0] == rule@);
            match rule.common.selector.match_reason(&item) {
                Some(selector) => {
                    let disposition = rule.common.disposition();
                    let name = rule.common.name.clone();
                    if item.referenced {
                        return keep(
                            item,
                            disposition,
                            Some(name),
                            concat3(
                                "matched ",
                                selector.as_str(),
                                "; volume is attached to a container",
                            ),
                        );
                    }
                    let threshold: u64 = match rule.orphan_for {
                        Some(threshold) => threshold,
                        None => {
                            return keep(
                                item,
                                disposition,
                                Some(name),
                                concat3(
                                    "matched ",
                                    selector.as_str(),
                                    "; no orphan age policy is set",
                                ),
                            );
                        },
                    };
                    if observed_long_enough(unreferenced_age, threshold) {
                        let mut reason = concat3(
                            "matched ",
                            selector.as_str(),
                            "; observed unattached for ",
                        );
                        reason.append(age_text(unreferenced_age).as_str());
                        reason.append(" which meets ");
                        reason.append(format_duration(threshold).as_str());
                        return remove(item, disposition, name.as_str(), unreferenced_age, reason);
                    }
                    let reason = observed_wait_reason(
                        selector.as_str(),
                        "unattached",
                        unreferenced_age,
                        threshold,
                    );
                    return keep(item, disposition, Some(name), reason);
                },
                None => {},
            }
            assert(all.skip(index as int).drop_first() =~= all.skip(index as int + 1));
            index += 1;
        }
        unowned(item)
    }

    fn decide_network(&self, item: InventoryItem, unreferenced_age: Option<u64>) -> (decision:
        Decision)
        ensures
            decision@ == decide_network(self@.networks, item@, unreferenced_age),
    {
        broadcast use group_views;

        if item.system {
            return keep(
                item,
                Disposition::Protected,
                None,
                "Docker system network".to_owned(),
            );
        }
        let ghost all = views(self.networks@);
        let mut index: usize = 0;
        assert(all.skip(0) =~= all);
        while index < self.networks.len()
            invariant
                index <= self.networks@.len(),
                all == views(self.networks@),
                !item@.system,
                decide_network_rules(all, item@, unreferenced_age) == decide_network_rules(
                    all.skip(index as int),
                    item@,
                    unreferenced_age,
                ),
            decreases self.networks@.len() - index,
        {
            let rule = &self.networks[index];
            assert(all.skip(index as int)[0] == rule@);
            match rule.common.selector.match_reason(&item) {
                Some(selector) => {
                    let disposition = rule.common.disposition();
                    let name = rule.common.name.clone();
                    if !rule.orphan || item.referenced {
                        return keep(
                            item,
                            disposition,
                            Some(name),
                            concat3(
                                "matched ",
                                selector.as_str(),
                                "; network is in use or orphan cleanup is disabled",
                            ),
                        );
                    }
                    let threshold: u64 = match rule.orphan_for {
                        Some(threshold) => threshold,
                        None => {
                            return keep(
                                item,
                                disposition,
                                Some(name),
                                concat3(
                                    "matched ",
                                    selector.as_str(),
                                    "; no orphan age policy is set",
                                ),
                            );
                        },
                    };
                    if observed_long_enough(unreferenced_age, threshold) {
                        let mut reason = concat3(
                            "matched ",
                            selector.as_str(),
                            "; observed empty for ",
                        );
                        reason.append(age_text(unreferenced_age).as_str());
                        reason.append(" which meets ");
                        reason.append(format_duration(threshold).as_str());
                        return remove(item, disposition, name.as_str(), unreferenced_age, reason);
                    }
                    let reason = observed_wait_reason(
                        selector.as_str(),
                        "empty",
                        unreferenced_age,
                        threshold,
                    );
                    return keep(item, disposition, Some(name), reason);
                },
                None => {},
            }
            assert(all.skip(index as int).drop_first() =~= all.skip(index as int + 1));
            index += 1;
        }
        unowned(item)
    }
}

/// The build-cache records that a policy removes, each with the reason.
pub open spec fn cache_removals(policy: PolicyView, inventory: Seq<ItemView>, now: i64) -> Seq<
    (Seq<char>, Seq<char>),
> {
    match policy.build_cache {
        Some(rule) => rule_removals(rule.older_than, rule.max_bytes, inventory, now),
        None => Seq::empty(),
    }
}

/// What is decided about a build-cache record, given the records to remove.
pub open spec fn decide_build_cache(
    policy: PolicyView,
    item: ItemView,
    now: i64,
    removals: Seq<(Seq<char>, Seq<char>)>,
) -> DecisionView {
    let age = age_of(now, last_use(item));
    if policy.build_cache is None {
        no_rule(item)
    } else if item.referenced {
        kept(
            item,
            Disposition::AuthorizedUnscoped,
            Some("build-cache"@),
            "authorized-unscoped build cache is in use or shared with an image"@,
        )
    } else {
        match value_of(removals, item.id) {
            Some(reason) => removed(
                item,
                Disposition::AuthorizedUnscoped,
                "build-cache"@,
                age,
                reason,
            ),
            None => kept(
                item,
                Disposition::AuthorizedUnscoped,
                Some("build-cache"@),
                if age is None {
                    "authorized-unscoped build cache has no usable age; kept conservatively"@
                } else {
                    "authorized-unscoped build cache does not meet the configured age or budget policy"@
                },
            ),
        }
    }
}

/// What a policy decides about one item: runtime protection first, then the
/// configuration's own, then the rules of the item's kind.
pub open spec fn decision_for(
    policy: PolicyView,
    item: ItemView,
    now: i64,
    removals: Seq<(Seq<char>, Seq<char>)>,
    context: ContextView,
) -> DecisionView {
    match protection_reason(context.protection.entries, item) {
        Some(reason) => kept(item, Disposition::Protected, None, reason),
        None => match selection_reason(policy.protection, item) {
            Some(reason) => kept(item, Disposition::Protected, None, reason),
            None => {
                let age = observed_age(context.observations.entries, item, now);
                match item.kind {
                    ResourceKind::Container => decide_container(policy.containers, item, now),
                    ResourceKind::Image => decide_image(policy.images, item, age),
                    ResourceKind::Volume => decide_volume(policy.volumes, item, age),
                    ResourceKind::Network => decide_network(policy.networks, item, age),
                    ResourceKind::BuildCache => decide_build_cache(policy, item, now, removals),
                }
            },
        },
    }
}

impl CompiledPolicy {
    /// The build-cache records that this policy removes, each with the reason.
    pub fn build_cache_removals(&self, inventory: &Vec<InventoryItem>, now: i64) -> (removals:
        TextMap<String>)
        ensures
            removals@ == cache_removals(self@, views(inventory@), now),
    {
        match &self.build_cache {
            Some(rule) => removals_under_rule(rule.older_than, rule.max_bytes, inventory, now),
            None => TextMap::new(),
        }
    }

    fn decide_build_cache(&self, item: InventoryItem, now: i64, removals: &TextMap<String>) -> (decision:
        Decision)
        ensures
            decision@ == decide_build_cache(self@, item@, now, removals@),
    {
        if self.build_cache.is_none() {
            return unowned(item);
        }
        let age: Option<u64> = age_seconds(now, last_used(&item));
        if item.referenced {
            return keep(
                item,
                Disposition::AuthorizedUnscoped,
                Some("build-cache".to_owned()),
                "authorized-unscoped build cache is in use or shared with an image".to_owned(),
            );
        }
        match removals.get(item.id.as_str()) {
            Some(reason) => remove(
                item,
                Disposition::AuthorizedUnscoped,
                "build-cache",
                age,
                reason.clone(),
            ),
            None => keep(
                item,
                Disposition::AuthorizedUnscoped,
                Some("build-cache".to_owned()),
                if age.is_none() {
                    "authorized-unscoped build cache has no usable age; kept conservatively".to_owned()
                } else {
                    "authorized-unscoped build cache does not meet the configured age or budget policy".to_owned()
                },
            ),
        }
    }

    /// What this policy decides about one item.
    pub fn decide<'a>(
        &self,
        item: InventoryItem,
        now: i64,
        build_cache_removals: &TextMap<String>,
        context: &PlanContext<'a>,
    ) -> (decision: Decision)
        ensures
            decision@ == decision_for(self@, item@, now, build_cache_removals@, context@),
    {
        match context.protection.match_reason(&item) {
            Some(reason) => {
                return keep(item, Disposition::Protected, None, reason);
            },
            None => {},
        }
        match self.protection.match_reason(&item) {
            Some(reason) => {
                return keep(item, Disposition::Protected, None, reason);
            },
            None => {},
        }
        let unreferenced_age: Option<u64> = context.observations.unreferenced_age(&item, now);
        match item.kind {
            ResourceKind::Container => self.decide_container(item, now),
            ResourceKind::Image => self.decide_image(item, unreferenced_age),
            ResourceKind::Volume => self.decide_volume(item, unreferenced_age),
            ResourceKind::Network => self.decide_network(item, unreferenced_age),
            ResourceKind::BuildCache => self.decide_build_cache(item, now, build_cache_removals),
        }
    }
}

} // verus!
