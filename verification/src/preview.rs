//! What generated rules would do to an inventory, before they are written.

use crate::candidate::{
    selects_compose, CandidateFamily, CandidateFamilyView, CandidateResource, CandidateResourceView,
    ConfiguratorError, ConfiguratorSurvey, SurveyView,
};
use crate::config::{
    default_config, default_rules, Config, ConfigView, ContainerRule, ContainerRuleView, ImageRule,
    ImageRuleView, NetworkRule, NetworkRuleView, Rules, RulesView, VolumeRule, VolumeRuleView,
};
use crate::generate::{append_candidate_rules, sort_rules, sorted_rules, with_family_rules};
use crate::naming::{add_size, known_bytes};
use crate::observation::{
    observed_kind, ObservationEntry, ObservationEntryView, ObservationState, ObservationStateView,
    ObservedKind, SCHEMA_VERSION,
};
use crate::outside::{quote, quoted};
use crate::plan::{
    build_plan_with_context, plan_for, removals_of, Action, ContextView, Decision, DecisionView,
    Plan, PlanContext, PlanError, PlanErrorView,
};
use crate::policy::policy_fault;
use crate::profile::{PolicySettings, SettingsView};
use crate::resource::{clone_items, kind_text, InventoryItem, ItemView, ResourceKind};
use crate::state::{empty_protection, ProtectionState};
use crate::survey::{count_objects, covered_objects};
use crate::text::{
    chars_of, concat2, concat3, count_text, decimal, group_views, join, joined, stands, starts_with,
    text_eq, views,
};
use vstd::prelude::*;
use vstd::string::*;

verus! {

/// The clock of an item that is taken as unused since it was created.
pub open spec fn creation_clock(item: ItemView) -> Option<ObservationEntryView> {
    match (observed_kind(item.kind), item.created_at) {
        (Some(kind), Some(created)) => Some(
            ObservationEntryView {
                kind,
                id: item.id,
                created_at: item.created_at,
                first_unreferenced_at: created,
            },
        ),
        _ => None,
    }
}

/// The clocks of items that are taken as unused since they were created.
pub open spec fn creation_clocks(inventory: Seq<ItemView>) -> Seq<ObservationEntryView>
    decreases inventory.len(),
{
    if inventory.len() == 0 {
        Seq::empty()
    } else {
        let before = creation_clocks(inventory.drop_last());
        match creation_clock(inventory.last()) {
            Some(entry) => before.push(entry),
            None => before,
        }
    }
}

/// What a preview knows of the past: no runtime protection, and every
/// resource unused for as long as it is old.
pub open spec fn preview_context(inventory: Seq<ItemView>) -> ContextView {
    ContextView {
        protection: empty_protection(),
        observations: ObservationStateView {
            schema_version: SCHEMA_VERSION,
            entries: creation_clocks(inventory),
        },
    }
}

/// The clocks of an inventory that is taken as unused since it was created.
pub fn creation_record(inventory: &Vec<InventoryItem>) -> (record: ObservationState)
    ensures
        record@.schema_version == SCHEMA_VERSION,
        record@.entries == creation_clocks(views(inventory@)),
{
    broadcast use group_views;

    let mut entries: Vec<ObservationEntry> = Vec::new();
    let ghost items = views(inventory@);
    let mut index: usize = 0;
    assert(views(entries@) =~= creation_clocks(items.take(0)));
    while index < inventory.len()
        invariant
            index <= inventory@.len(),
            items == views(inventory@),
            views(entries@) == creation_clocks(items.take(index as int)),
        decreases inventory@.len() - index,
    {
        let item = &inventory[index];
        assert(items.take(index as int + 1).drop_last() =~= items.take(index as int));
        assert(items.take(index as int + 1).last() == item@);
        match (ObservedKind::from_resource_kind(item.kind), item.created_at) {
            (Some(kind), Some(created)) => {
                let entry = ObservationEntry {
                    kind,
                    id: item.id.clone(),
                    created_at: item.created_at,
                    first_unreferenced_at: created,
                };
                assert(creation_clock(item@) == Some(entry@));
                entries.push(entry);
            },
            _ => {},
        }
        index += 1;
    }
    assert(items.take(index as int) =~= items);
    ObservationState { schema_version: SCHEMA_VERSION, entries }
}

fn preview_plan<'a>(
    config: &Config,
    inventory: &Vec<InventoryItem>,
    now: i64,
    context: &PlanContext<'a>,
) -> (outcome: Result<Plan, PlanError>)
    ensures
        match outcome {
            Ok(plan) => policy_fault(config@) is None && plan@ == plan_for(
                config@,
                views(inventory@),
                now,
                context@,
            ),
            Err(error) => policy_fault(config@) == Some(error@),
        },
{
    build_plan_with_context(config, clone_items(inventory), now, context)
}

/// A configuration with nothing but rules.
pub open spec fn rules_only(rules: RulesView) -> ConfigView {
    ConfigView { rules, ..default_config() }
}

/// What container rules will do.
pub open spec fn container_effects(rules: Seq<ContainerRuleView>) -> Seq<Seq<char>>
    decreases rules.len(),
{
    if rules.len() == 0 {
        Seq::empty()
    } else {
        let before = container_effects(rules.drop_last());
        match rules.last().stopped_ttl {
            Some(ttl) => before.push("stopped containers become eligible after "@ + ttl),
            None => before,
        }
    }
}

/// What image rules will do.
pub open spec fn image_effects(rules: Seq<ImageRuleView>) -> Seq<Seq<char>>
    decreases rules.len(),
{
    if rules.len() == 0 {
        Seq::empty()
    } else {
        let before = image_effects(rules.drop_last());
        match rules.last().unused_for {
            Some(ttl) => before.push(
                "unreferenced images become eligible when their resource age exceeds "@ + ttl,
            ),
            None => before,
        }
    }
}

/// What volume rules will do.
pub open spec fn volume_effects(rules: Seq<VolumeRuleView>) -> Seq<Seq<char>>
    decreases rules.len(),
{
    if rules.len() == 0 {
        Seq::empty()
    } else {
        let before = volume_effects(rules.drop_last());
        match rules.last().orphan_for {
            Some(ttl) => before.push(
                "detached volumes become eligible immediately when their resource age already exceeds "@
                    + ttl,
            ),
            None => before,
        }
    }
}

/// What network rules will do.
pub open spec fn network_effects(rules: Seq<NetworkRuleView>) -> Seq<Seq<char>>
    decreases rules.len(),
{
    if rules.len() == 0 {
        Seq::empty()
    } else {
        let before = network_effects(rules.drop_last());
        if rules.last().orphan {
            before.push("empty networks become eligible immediately"@)
        } else {
            before
        }
    }
}

/// What rules will do, kind by kind.
pub open spec fn rule_effects(rules: RulesView) -> Seq<Seq<char>> {
    container_effects(rules.containers) + image_effects(rules.images) + volume_effects(
        rules.volumes,
    ) + network_effects(rules.networks)
}

fn push_container_effects(effects: &mut Vec<String>, rules: &Vec<ContainerRule>)
    ensures
        views(final(effects)@) == views(old(effects)@) + container_effects(views(rules@)),
{
    broadcast use group_views;

    let ghost before = views(effects@);
    let ghost all = views(rules@);
    let mut index: usize = 0;
    assert(before =~= before + container_effects(all.take(0)));
    while index < rules.len()
        invariant
            index <= rules@.len(),
            all == views(rules@),
            views(effects@) == before + container_effects(all.take(index as int)),
        decreases rules@.len() - index,
    {
        assert(all.take(index as int + 1).drop_last() =~= all.take(index as int));
        assert(all.take(index as int + 1).last() == rules@[index as int]@);
        if let Some(ttl) = &rules[index].stopped_ttl {
            let effect = concat2("stopped containers become eligible after ", ttl.as_str());
            let ghost listed = views(effects@);
            effects.push(effect);
            assert(views(effects@) == listed.push(effect@));
            assert(views(effects@) =~= before + container_effects(all.take(index as int + 1)));
        }
        index += 1;
    }
    assert(all.take(index as int) =~= all);
}

fn push_image_effects(effects: &mut Vec<String>, rules: &Vec<ImageRule>)
    ensures
        views(final(effects)@) == views(old(effects)@) + image_effects(views(rules@)),
{
    broadcast use group_views;

    let ghost before = views(effects@);
    let ghost all = views(rules@);
    let mut index: usize = 0;
    assert(before =~= before + image_effects(all.take(0)));
    while index < rules.len()
        invariant
            index <= rules@.len(),
            all == views(rules@),
            views(effects@) == before + image_effects(all.take(index as int)),
        decreases rules@.len() - index,
    {
        assert(all.take(index as int + 1).drop_last() =~= all.take(index as int));
        assert(all.take(index as int + 1).last() == rules@[index as int]@);
        if let Some(ttl) = &rules[index].unused_for {
            let effect = concat2(
                "unreferenced images become eligible when their resource age exceeds ",
                ttl.as_str(),
            );
            let ghost listed = views(effects@);
            effects.push(effect);
            assert(views(effects@) == listed.push(effect@));
            assert(views(effects@) =~= before + image_effects(all.take(index as int + 1)));
        }
        index += 1;
    }
    assert(all.take(index as int) =~= all);
}

fn push_volume_effects(effects: &mut Vec<String>, rules: &Vec<VolumeRule>)
    ensures
        views(final(effects)@) == views(old(effects)@) + volume_effects(views(rules@)),
{
    broadcast use group_views;

    let ghost before = views(effects@);
    let ghost all = views(rules@);
    let mut index: usize = 0;
    assert(before =~= before + volume_effects(all.take(0)));
    while index < rules.len()
        invariant
            index <= rules@.len(),
            all == views(rules@),
            views(effects@) == before + volume_effects(all.take(index as int)),
        decreases rules@.len() - index,
    {
        assert(all.take(index as int + 1).drop_last() =~= all.take(index as int));
        assert(all.take(index as int + 1).last() == rules@[index as int]@);
        if let Some(ttl) = &rules[index].orphan_for {
            let effect = concat2(
                "detached volumes become eligible immediately when their resource age already exceeds ",
                ttl.as_str(),
            );
            let ghost listed = views(effects@);
            effects.push(effect);
            assert(views(effects@) == listed.push(effect@));
            assert(views(effects@) =~= before + volume_effects(all.take(index as int + 1)));
        }
        index += 1;
    }
    assert(all.take(index as int) =~= all);
}

fn push_network_effects(effects: &mut Vec<String>, rules: &Vec<NetworkRule>)
    ensures
        views(final(effects)@) == views(old(effects)@) + network_effects(views(rules@)),
{
    broadcast use group_views;

    let ghost before = views(effects@);
    let ghost all = views(rules@);
    let mut index: usize = 0;
    assert(before =~= before + network_effects(all.take(0)));
    while index < rules.len()
        invariant
            index <= rules@.len(),
            all == views(rules@),
            views(effects@) == before + network_effects(all.take(index as int)),
        decreases rules@.len() - index,
    {
        assert(all.take(index as int + 1).drop_last() =~= all.take(index as int));
        assert(all.take(index as int + 1).last() == rules@[index as int]@);
        if rules[index].orphan {
            let effect = "empty networks become eligible immediately".to_owned();
            let ghost listed = views(effects@);
            effects.push(effect);
            assert(views(effects@) == listed.push(effect@));
            assert(views(effects@) =~= before + network_effects(all.take(index as int + 1)));
        }
        index += 1;
    }
    assert(all.take(index as int) =~= all);
}

/// What a Compose family warns of when no rule can be made for it.
pub const BAD_SHAPE_WARNING: &'static str =
    "WARNING: This Compose family has an invalid generated rule shape; do not write it";

/// What the effects of generated rules read like.
pub open spec fn effect_text(rules: RulesView) -> Seq<char> {
    if rule_effects(rules).len() == 0 {
        "no cleanup rule is generated for the currently observed resource kinds"@
    } else {
        joined(rule_effects(rules), "; "@)
    }
}

/// How every warning on a Compose family ends.
pub open spec fn warning_tail(rules: RulesView) -> Seq<char> {
    " After `docker compose down` or another detach, the generated rules apply: "@ + effect_text(
        rules,
    ) + ". Preview the plan again before applying."@
}

/// What a Compose family warns of: what its rules would remove now, and what
/// they will do once the stack is down.
pub open spec fn compose_warning(
    family: CandidateFamilyView,
    policy: SettingsView,
    inventory: Seq<ItemView>,
    now: i64,
    context: ContextView,
) -> Seq<char> {
    match with_family_rules(default_rules(), family, policy) {
        Err(_) => BAD_SHAPE_WARNING@,
        Ok(made) => {
            let rules = sorted_rules(made);
            if policy_fault(rules_only(rules)) is Some {
                BAD_SHAPE_WARNING@
            } else {
                let pending = removals_of(plan_for(rules_only(rules), inventory, now, context)).len();
                if pending == 0 {
                    "WARNING: Running and referenced Compose resources stay, so this stack can preview zero removals now."@
                        + warning_tail(rules)
                } else {
                    "WARNING: This stack currently previews "@ + decimal(pending)
                        + " pending removal(s) under the generated rules."@ + warning_tail(rules)
                }
            }
        },
    }
}

/// The warning of a Compose family.
pub fn compose_future_cleanup_warning<'a>(
    candidate: &CandidateFamily,
    policy: &PolicySettings,
    inventory: &Vec<InventoryItem>,
    now: i64,
    context: &PlanContext<'a>,
) -> (warning: String)
    ensures
        warning@ == compose_warning(candidate@, policy@, views(inventory@), now, context@),
{
    broadcast use group_views;

    let mut made = Rules::default();
    if append_candidate_rules(&mut made, candidate, policy).is_err() {
        return BAD_SHAPE_WARNING.to_owned();
    }
    let rules = sort_rules(made);
    let mut config = Config::default();
    config.rules = rules.clone();
    assert(config@ == rules_only(rules@));
    let plan = match preview_plan(&config, inventory, now, context) {
        Ok(plan) => plan,
        Err(_) => {
            return BAD_SHAPE_WARNING.to_owned();
        },
    };
    let pending: usize = plan.pending_count();
    let mut effects: Vec<String> = Vec::new();
    assert(views(effects@) =~= Seq::empty());
    push_container_effects(&mut effects, &rules.containers);
    push_image_effects(&mut effects, &rules.images);
    push_volume_effects(&mut effects, &rules.volumes);
    push_network_effects(&mut effects, &rules.networks);
    assert(views(effects@) =~= rule_effects(rules@));
    let effect = if effects.len() == 0 {
        "no cleanup rule is generated for the currently observed resource kinds".to_owned()
    } else {
        join(&effects, "; ")
    };
    let tail = concat3(
        " After `docker compose down` or another detach, the generated rules apply: ",
        effect.as_str(),
        ". Preview the plan again before applying.",
    );
    if pending == 0 {
        concat2(
            "WARNING: Running and referenced Compose resources stay, so this stack can preview zero removals now.",
            tail.as_str(),
        )
    } else {
        let mut warning = concat3(
            "WARNING: This stack currently previews ",
            count_text(pending).as_str(),
            " pending removal(s) under the generated rules.",
        );
        warning.append(tail.as_str());
        warning
    }
}

/// A family with the warning that holds now.
pub open spec fn warned(
    family: CandidateFamilyView,
    policy: SettingsView,
    inventory: Seq<ItemView>,
    now: i64,
    context: ContextView,
) -> CandidateFamilyView {
    if selects_compose(family.selector) {
        CandidateFamilyView {
            warning: Some(compose_warning(family, policy, inventory, now, context)),
            ..family
        }
    } else {
        family
    }
}

/// Families with the warnings that hold now.
pub open spec fn all_warned(
    families: Seq<CandidateFamilyView>,
    policy: SettingsView,
    inventory: Seq<ItemView>,
    now: i64,
    context: ContextView,
) -> Seq<CandidateFamilyView> {
    families.map_values(|family: CandidateFamilyView| warned(family, policy, inventory, now, context))
}

/// Works the policy's warnings out anew, against the given runtime state. What
/// a family is, and where it stands, does not change.
pub fn refresh_warnings_in<'a>(
    survey: &mut ConfiguratorSurvey,
    policy: &PolicySettings,
    inventory: &Vec<InventoryItem>,
    now_epoch_seconds: i64,
    context: &PlanContext<'a>,
)
    ensures
        final(survey)@ == (SurveyView {
            candidates: all_warned(
                old(survey)@.candidates,
                policy@,
                views(inventory@),
                now_epoch_seconds,
                context@,
            ),
            ..old(survey)@
        }),
{
    broadcast use group_views;

    let mut candidates: Vec<CandidateFamily> = Vec::new();
    let ghost wanted = all_warned(
        survey@.candidates,
        policy@,
        views(inventory@),
        now_epoch_seconds,
        context@,
    );
    let mut index: usize = 0;
    assert(views(candidates@) =~= wanted.take(0));
    while index < survey.candidates.len()
        invariant
            index <= survey.candidates@.len(),
            *survey == *old(survey),
            wanted == all_warned(
                survey@.candidates,
                policy@,
                views(inventory@),
                now_epoch_seconds,
                context@,
            ),
            views(candidates@) == wanted.take(index as int),
        decreases survey.candidates@.len() - index,
    {
        let mut family = survey.candidates[index].clone();
        if family.selector.is_compose() {
            let warning = compose_future_cleanup_warning(
                &family,
                policy,
                inventory,
                now_epoch_seconds,
                context,
            );
            family.warning = Some(warning);
        }
        assert(family@ == wanted[index as int]);
        assert(wanted.take(index as int + 1) =~= wanted.take(index as int).push(family@));
        candidates.push(family);
        index += 1;
    }
    assert(wanted.take(index as int) =~= wanted);
    survey.candidates = candidates;
}

/// Works the policy's warnings out anew, every resource taken as unused since
/// it was created.
pub fn refresh_candidate_warnings(
    survey: &mut ConfiguratorSurvey,
    policy: &PolicySettings,
    inventory: &Vec<InventoryItem>,
    now_epoch_seconds: i64,
)
    ensures
        final(survey)@ == (SurveyView {
            candidates: all_warned(
                old(survey)@.candidates,
                policy@,
                views(inventory@),
                now_epoch_seconds,
                preview_context(views(inventory@)),
            ),
            ..old(survey)@
        }),
{
    let protection = ProtectionState::empty();
    let observations = creation_record(inventory);
    let context = PlanContext { protection: &protection, observations: &observations };
    assert(context@ == preview_context(views(inventory@)));
    refresh_warnings_in(survey, policy, inventory, now_epoch_seconds, &context);
}

/// A survey and a proposal warn in the same words: the warning of a family
/// does not hang on the warning that it carries already.
pub proof fn survey_and_proposal_warn_alike(
    family: CandidateFamilyView,
    policy: SettingsView,
    inventory: Seq<ItemView>,
    now: i64,
    context: ContextView,
)
    ensures
        warned(warned(family, policy, inventory, now, context), policy, inventory, now, context) == warned(
            family,
            policy,
            inventory,
            now,
            context,
        ),
{
    let again = warned(family, policy, inventory, now, context);
    assert(again.id == family.id);
    assert(again.evidence == family.evidence);
    assert(again.selector == family.selector);
    assert(again.resources == family.resources);
    assert(with_family_rules(default_rules(), again, policy) == with_family_rules(
        default_rules(),
        family,
        policy,
    ));
}

/// The warnings of chosen families.
pub open spec fn chosen_warnings(
    families: Seq<CandidateFamilyView>,
    policy: SettingsView,
    inventory: Seq<ItemView>,
    now: i64,
    context: ContextView,
) -> Seq<Seq<char>>
    decreases families.len(),
{
    if families.len() == 0 {
        Seq::empty()
    } else {
        let before = chosen_warnings(families.drop_last(), policy, inventory, now, context);
        match warned(families.last(), policy, inventory, now, context).warning {
            Some(warning) => before.push(warning),
            None => before,
        }
    }
}

/// The warnings of chosen families.
pub fn selected_candidate_warnings<'a>(
    selected: &Vec<CandidateFamily>,
    policy: &PolicySettings,
    inventory: &Vec<InventoryItem>,
    now: i64,
    context: &PlanContext<'a>,
) -> (warnings: Vec<String>)
    ensures
        views(warnings@) == chosen_warnings(
            views(selected@),
            policy@,
            views(inventory@),
            now,
            context@,
        ),
{
    broadcast use group_views;

    let mut warnings: Vec<String> = Vec::new();
    let ghost all = views(selected@);
    let mut index: usize = 0;
    assert(views(warnings@) =~= chosen_warnings(
        all.take(0),
        policy@,
        views(inventory@),
        now,
        context@,
    ));
    while index < selected.len()
        invariant
            index <= selected@.len(),
            all == views(selected@),
            views(warnings@) == chosen_warnings(
                all.take(index as int),
                policy@,
                views(inventory@),
                now,
                context@,
            ),
        decreases selected@.len() - index,
    {
        let family = &selected[index];
        assert(all.take(index as int + 1).drop_last() =~= all.take(index as int));
        assert(all.take(index as int + 1).last() == family@);
        if family.selector.is_compose() {
            warnings.push(compose_future_cleanup_warning(family, policy, inventory, now, context));
        } else {
            if let Some(warning) = &family.warning {
                warnings.push(warning.clone());
            }
        }
        index += 1;
    }
    assert(all.take(index as int) =~= all);
    warnings
}

/// Whether decisions hold one on a resource of a kind and id.
pub open spec fn decides_on(
    decisions: Seq<DecisionView>,
    kind: ResourceKind,
    id: Seq<char>,
) -> bool {
    exists|i: int|
        0 <= i < decisions.len() && (#[trigger] decisions[i]).resource.kind == kind
            && decisions[i].resource.id == id
}

/// How many decisions are on resources that other decisions do not speak of.
pub open spec fn new_count(decisions: Seq<DecisionView>, known: Seq<DecisionView>) -> nat
    decreases decisions.len(),
{
    if decisions.len() == 0 {
        0
    } else {
        let last = decisions.last();
        new_count(decisions.drop_last(), known) + if decides_on(
            known,
            last.resource.kind,
            last.resource.id,
        ) {
            0nat
        } else {
            1nat
        }
    }
}

/// The sizes of what decisions are on.
pub open spec fn decided_sizes(decisions: Seq<DecisionView>) -> Seq<Option<u64>> {
    decisions.map_values(|decision: DecisionView| decision.resource.size)
}

/// Whether a decision stands on a generated rule.
pub open spec fn by_generated_rule(decision: DecisionView, ids: Seq<Seq<char>>) -> bool {
    &&& decision.matched_rule matches Some(name) && "configure-"@.is_prefix_of(name)
    &&& exists|i: int|
        0 <= i < ids.len() && ("/"@ + kind_text(decision.resource.kind)).is_suffix_of(
            #[trigger] ids[i],
        )
}

/// Whether a generated rule decides on a resource.
pub open spec fn reached(
    decisions: Seq<DecisionView>,
    ids: Seq<Seq<char>>,
    resource: CandidateResourceView,
) -> bool {
    exists|i: int|
        0 <= i < decisions.len() && by_generated_rule(#[trigger] decisions[i], ids) && kind_text(
            decisions[i].resource.kind,
        ) == resource.resource_kind && decisions[i].resource.id == resource.id
}

/// Whether generated rules decide on every resource of a family, the build
/// cache aside.
pub open spec fn fully_reached(
    decisions: Seq<DecisionView>,
    ids: Seq<Seq<char>>,
    family: CandidateFamilyView,
) -> bool {
    forall|r: int|
        0 <= r < family.resources.len() && (#[trigger] family.resources[r]).resource_kind
            != "build-cache"@ ==> reached(decisions, ids, family.resources[r])
}

/// The first family that a rule written by hand takes resources from.
pub open spec fn shadow_fault(
    families: Seq<CandidateFamilyView>,
    ids: Seq<Seq<char>>,
    decisions: Seq<DecisionView>,
) -> Option<Seq<char>>
    decreases families.len(),
{
    if families.len() == 0 {
        None
    } else if !fully_reached(decisions, ids, families[0]) {
        Some(
            "candidate "@ + quoted(families[0].id)
                + " is partly or fully shadowed by an earlier manual rule"@,
        )
    } else {
        shadow_fault(families.drop_first(), ids, decisions)
    }
}

fn ends_with(text: &str, suffix: &str) -> (found: bool)
    ensures
        found == suffix@.is_suffix_of(text@),
{
    let characters = chars_of(text);
    let wanted = chars_of(suffix);
    if wanted.len() > characters.len() {
        return false;
    }
    let start: usize = characters.len() - wanted.len();
    let found = stands(&characters, &wanted, start);
    assert(text@.subrange(start as int, text@.len() as int) =~= text@.subrange(
        start as int,
        start + wanted@.len(),
    ));
    found
}

fn is_by_generated_rule(decision: &Decision, ids: &Vec<String>) -> (found: bool)
    ensures
        found == by_generated_rule(decision@, views(ids@)),
{
    broadcast use group_views;

    match &decision.matched_rule {
        None => {
            return false;
        },
        Some(name) => {
            if !starts_with(name.as_str(), "configure-") {
                return false;
            }
        },
    }
    let suffix = concat2("/", decision.resource.kind.as_text());
    let mut index: usize = 0;
    while index < ids.len()
        invariant
            index <= ids@.len(),
            suffix@ == "/"@ + kind_text(decision@.resource.kind),
            decision@.matched_rule matches Some(name) && "configure-"@.is_prefix_of(name),
            forall|i: int| 0 <= i < index ==> !suffix@.is_suffix_of(#[trigger] views(ids@)[i]),
        decreases ids@.len() - index,
    {
        if ends_with(ids[index].as_str(), suffix.as_str()) {
            assert(suffix@.is_suffix_of(views(ids@)[index as int]));
            return true;
        }
        index += 1;
    }
    false
}

fn is_reached(decisions: &Vec<Decision>, ids: &Vec<String>, resource: &CandidateResource) -> (found:
    bool)
    ensures
        found == reached(views(decisions@), views(ids@), resource@),
{
    broadcast use group_views;

    let mut index: usize = 0;
    while index < decisions.len()
        invariant
            index <= decisions@.len(),
            forall|i: int|
                0 <= i < index ==> !(by_generated_rule(
                    #[trigger] views(decisions@)[i],
                    views(ids@),
                ) && kind_text(views(decisions@)[i].resource.kind) == resource@.resource_kind
                    && views(decisions@)[i].resource.id == resource@.id),
        decreases decisions@.len() - index,
    {
        let decision = &decisions[index];
        if text_eq(decision.resource.kind.as_text(), resource.resource_kind.as_str()) && text_eq(
            decision.resource.id.as_str(),
            resource.id.as_str(),
        ) && is_by_generated_rule(decision, ids) {
            assert(by_generated_rule(views(decisions@)[index as int], views(ids@)));
            return true;
        }
        index += 1;
    }
    false
}

fn is_fully_reached(decisions: &Vec<Decision>, ids: &Vec<String>, family: &CandidateFamily) -> (found:
    bool)
    ensures
        found == fully_reached(views(decisions@), views(ids@), family@),
{
    broadcast use group_views;

    let resources = &family.resources;
    let mut index: usize = 0;
    while index < resources.len()
        invariant
            index <= resources@.len(),
            family@.resources == views(resources@),
            forall|r: int|
                0 <= r < index && (#[trigger] family@.resources[r]).resource_kind != "build-cache"@
                    ==> reached(views(decisions@), views(ids@), family@.resources[r]),
        decreases resources@.len() - index,
    {
        let resource = &resources[index];
        assert(family@.resources[index as int] == resource@);
        if !text_eq(resource.resource_kind.as_str(), "build-cache") && !is_reached(
            decisions,
            ids,
            resource,
        ) {
            return false;
        }
        index += 1;
    }
    true
}

/// Refuses families whose resources a rule written by hand takes first.
pub fn reject_shadowed_rules(
    candidates: &Vec<CandidateFamily>,
    generated_ids: &Vec<String>,
    plan: &Plan,
) -> (outcome: Result<(), ConfiguratorError>)
    ensures
        match outcome {
            Ok(_) => shadow_fault(views(candidates@), views(generated_ids@), plan@) is None,
            Err(error) => error matches ConfiguratorError::Invalid(message) && shadow_fault(
                views(candidates@),
                views(generated_ids@),
                plan@,
            ) == Some(message@),
        },
{
    broadcast use group_views;

    let ghost all = views(candidates@);
    let mut index: usize = 0;
    assert(all.skip(0) =~= all);
    while index < candidates.len()
        invariant
            index <= candidates@.len(),
            all == views(candidates@),
            shadow_fault(all, views(generated_ids@), plan@) == shadow_fault(
                all.skip(index as int),
                views(generated_ids@),
                plan@,
            ),
        decreases candidates@.len() - index,
    {
        let family = &candidates[index];
        assert(all.skip(index as int)[0] == family@);
        assert(all.skip(index as int).drop_first() =~= all.skip(index as int + 1));
        if !is_fully_reached(&plan.decisions, generated_ids, family) {
            return Err(
                ConfiguratorError::Invalid(
                    concat3(
                        "candidate ",
                        quote(family.id.as_str()).as_str(),
                        " is partly or fully shadowed by an earlier manual rule",
                    ),
                ),
            );
        }
        index += 1;
    }
    Ok(())
}

/// What a proposal would change.
#[derive(Debug, Clone, Copy, PartialEq, Eq, Structural)]
pub struct ProposalPreview {
    pub before_pending: usize,
    pub after_pending: usize,
    pub newly_pending: usize,
    pub selected_resources: usize,
    pub estimated_reclaim_bytes: u64,
}

/// A plan error written out.
pub open spec fn plan_error_text(error: PlanErrorView) -> Seq<char> {
    error.field + ": "@ + error.message
}

/// What a proposal would change, or why that cannot be told.
pub open spec fn preview_of(
    manual: ConfigView,
    result: ConfigView,
    inventory: Seq<ItemView>,
    now: i64,
    context: ContextView,
    selected: Seq<CandidateFamilyView>,
    ids: Seq<Seq<char>>,
) -> Result<ProposalPreview, Seq<char>> {
    let before = removals_of(plan_for(manual, inventory, now, context));
    let plan = plan_for(result, inventory, now, context);
    let after = removals_of(plan);
    if policy_fault(manual) is Some {
        Err("cannot preview current policy: "@ + plan_error_text(policy_fault(manual)->0))
    } else if policy_fault(result) is Some {
        Err("cannot preview proposed policy: "@ + plan_error_text(policy_fault(result)->0))
    } else if shadow_fault(selected, ids, plan) is Some {
        Err(shadow_fault(selected, ids, plan)->0)
    } else {
        Ok(
            ProposalPreview {
                before_pending: before.len() as usize,
                after_pending: after.len() as usize,
                newly_pending: new_count(after, before) as usize,
                selected_resources: covered_objects(selected) as usize,
                estimated_reclaim_bytes: known_bytes(decided_sizes(after)),
            },
        )
    }
}

fn removes_resource(plan: &Plan, kind: ResourceKind, id: &str) -> (found: bool)
    ensures
        found == decides_on(removals_of(plan@), kind, id@),
{
    broadcast use group_views;

    let ghost all = plan@;
    let mut index: usize = 0;
    assert(removals_of(all.take(0)).len() == 0);
    while index < plan.decisions.len()
        invariant
            index <= plan.decisions@.len(),
            all == plan@,
            all == views(plan.decisions@),
            !decides_on(removals_of(all.take(index as int)), kind, id@),
        decreases plan.decisions@.len() - index,
    {
        let decision = &plan.decisions[index];
        let ghost before = removals_of(all.take(index as int));
        let ghost after = removals_of(all.take(index as int + 1));
        assert(all.take(index as int + 1).drop_last() =~= all.take(index as int));
        assert(all.take(index as int + 1).last() == decision@);
        if decision.action == Action::Remove {
            assert(after == before.push(decision@));
            if decision.resource.kind == kind && text_eq(decision.resource.id.as_str(), id) {
                proof {
                    assert(after[before.len() as int] == decision@);
                    lemma_removals_grow(all, index as int + 1);
                    let i = before.len() as int;
                    assert(removals_of(all)[i] == after[i]);
                }
                return true;
            }
            proof {
                if decides_on(after, kind, id@) {
                    let i = choose|i: int|
                        0 <= i < after.len() && (#[trigger] after[i]).resource.kind == kind
                            && after[i].resource.id == id@;
                    if i < before.len() {
                        assert(before[i] == after[i]);
                    }
                }
            }
        }
        index += 1;
    }
    assert(all.take(index as int) =~= all);
    false
}

proof fn lemma_removals_grow(decisions: Seq<DecisionView>, count: int)
    requires
        0 <= count <= decisions.len(),
    ensures
        removals_of(decisions.take(count)).is_prefix_of(removals_of(decisions)),
    decreases decisions.len(),
{
    if count == decisions.len() {
        assert(decisions.take(count) =~= decisions);
    } else {
        lemma_removals_grow(decisions.drop_last(), count);
        assert(decisions.drop_last().take(count) =~= decisions.take(count));
    }
}

/// Works out what a proposal would change.
pub fn proposal_preview<'a>(
    manual_config: &Config,
    result_config: &Config,
    inventory: &Vec<InventoryItem>,
    now: i64,
    context: &PlanContext<'a>,
    selected: &Vec<CandidateFamily>,
    generated_rule_ids: &Vec<String>,
) -> (outcome: Result<ProposalPreview, ConfiguratorError>)
    ensures
        match preview_of(
            manual_config@,
            result_config@,
            views(inventory@),
            now,
            context@,
            views(selected@),
            views(generated_rule_ids@),
        ) {
            Ok(preview) => outcome matches Ok(made) && made == preview,
            Err(fault) => outcome matches Err(ConfiguratorError::Invalid(message)) && message@
                == fault,
        },
{
    broadcast use group_views;

    let before = match preview_plan(manual_config, inventory, now, context) {
        Ok(plan) => plan,
        Err(error) => {
            return Err(
                ConfiguratorError::Invalid(
                    concat2("cannot preview current policy: ", error.message().as_str()),
                ),
            );
        },
    };
    let after = match preview_plan(result_config, inventory, now, context) {
        Ok(plan) => plan,
        Err(error) => {
            return Err(
                ConfiguratorError::Invalid(
                    concat2("cannot preview proposed policy: ", error.message().as_str()),
                ),
            );
        },
    };
    match reject_shadowed_rules(selected, generated_rule_ids, &after) {
        Ok(_) => {},
        Err(error) => {
            return Err(error);
        },
    }
    let ghost all = after@;
    let ghost known = removals_of(before@);
    let mut fresh: usize = 0;
    let mut bytes: u64 = 0;
    let mut index: usize = 0;
    assert(removals_of(all.take(0)).len() == 0);
    assert(decided_sizes(removals_of(all.take(0))) =~= Seq::empty());
    while index < after.decisions.len()
        invariant
            index <= after.decisions@.len(),
            all == after@,
            all == views(after.decisions@),
            known == removals_of(before@),
            fresh <= index,
            fresh == new_count(removals_of(all.take(index as int)), known),
            bytes == known_bytes(decided_sizes(removals_of(all.take(index as int)))),
        decreases after.decisions@.len() - index,
    {
        let decision = &after.decisions[index];
        let ghost so_far = removals_of(all.take(index as int));
        let ghost next = removals_of(all.take(index as int + 1));
        assert(all.take(index as int + 1).drop_last() =~= all.take(index as int));
        assert(all.take(index as int + 1).last() == decision@);
        if decision.action == Action::Remove {
            assert(next.drop_last() =~= so_far);
            assert(decided_sizes(next) =~= decided_sizes(so_far).push(decision.resource.size));
            if !removes_resource(&before, decision.resource.kind, decision.resource.id.as_str()) {
                fresh += 1;
            }
            bytes = add_size(bytes, decision.resource.size, Ghost(decided_sizes(so_far)));
        }
        index += 1;
    }
    assert(all.take(index as int) =~= all);
    Ok(
        ProposalPreview {
            before_pending: before.pending_count(),
            after_pending: after.pending_count(),
            newly_pending: fresh,
            selected_resources: count_objects(selected),
            estimated_reclaim_bytes: bytes,
        },
    )
}

} // verus!
