//! The configurator's pane: the values that can be edited, the family that is
//! selected, and what is said about both.

use crate::candidate::{
    as_ints, candidate_display_indices, display_names_every_family_once, display_order,
    CandidateFamilyView, ConfiguratorError, ConfiguratorSurvey,
};
use crate::config::{Config, RulesView};
use crate::generate::{rule_ids, sorted_rule_ids, MANAGED_ID_PREFIX};
use crate::order::sort;
use crate::present::{budget_of, parse_byte_budget};
use crate::profile::{PolicySettings, SettingsView};
use crate::text::{
    chars_of, concat3, decimal, decimal_text, group_views, is_empty_text, opt_text_is, strip_prefix,
    text_eq, views, without_prefix,
};
use crate::unique::{dedup, ordered_once};
use vstd::prelude::*;
use vstd::string::*;

verus! {

/// A value of the policy that can be edited.
#[derive(Debug, Clone, Copy, PartialEq, Eq, Structural)]
pub enum PolicyField {
    Containers,
    Images,
    Volumes,
    CacheAge,
    CacheBytes,
}

/// The fields in their order.
pub open spec fn fields() -> Seq<PolicyField> {
    seq![
        PolicyField::Containers,
        PolicyField::Images,
        PolicyField::Volumes,
        PolicyField::CacheAge,
        PolicyField::CacheBytes,
    ]
}

/// The name of a field.
pub open spec fn field_title(field: PolicyField) -> Seq<char> {
    match field {
        PolicyField::Containers => "stopped containers"@,
        PolicyField::Images => "images"@,
        PolicyField::Volumes => "volumes"@,
        PolicyField::CacheAge => "build-cache age"@,
        PolicyField::CacheBytes => "build-cache bytes"@,
    }
}

impl PolicyField {
    /// The fields in their order.
    pub fn all() -> (list: [PolicyField; 5])
        ensures
            list@ == fields(),
    {
        let list = [
            PolicyField::Containers,
            PolicyField::Images,
            PolicyField::Volumes,
            PolicyField::CacheAge,
            PolicyField::CacheBytes,
        ];
        assert(list@ =~= fields());
        list
    }

    /// The name of the field.
    pub fn title(self) -> (words: &'static str)
        ensures
            words@ == field_title(self),
    {
        match self {
            PolicyField::Containers => "stopped containers",
            PolicyField::Images => "images",
            PolicyField::Volumes => "volumes",
            PolicyField::CacheAge => "build-cache age",
            PolicyField::CacheBytes => "build-cache bytes",
        }
    }
}

/// What a field says.
pub open spec fn field_text(field: PolicyField, policy: SettingsView) -> Seq<char> {
    match field {
        PolicyField::Containers => policy.stopped_container_ttl,
        PolicyField::Images => policy.image_ttl,
        PolicyField::Volumes => policy.volume_ttl,
        PolicyField::CacheAge => policy.build_cache_ttl,
        PolicyField::CacheBytes => decimal(policy.build_cache_max_bytes as nat),
    }
}

/// What a field says.
pub fn policy_field_value(field: PolicyField, policy: &PolicySettings) -> (text: String)
    ensures
        text@ == field_text(field, policy@),
{
    match field {
        PolicyField::Containers => policy.stopped_container_ttl.clone(),
        PolicyField::Images => policy.image_ttl.clone(),
        PolicyField::Volumes => policy.volume_ttl.clone(),
        PolicyField::CacheAge => policy.build_cache_ttl.clone(),
        PolicyField::CacheBytes => decimal_text(policy.build_cache_max_bytes),
    }
}

/// Settings with one field rewritten, or why it cannot be.
pub open spec fn with_field(field: PolicyField, policy: SettingsView, value: Seq<char>) -> Result<
    SettingsView,
    Seq<char>,
> {
    if value.len() == 0 {
        Err("policy value must not be blank"@)
    } else {
        match field {
            PolicyField::Containers => Ok(
                SettingsView { stopped_container_ttl: value, ..policy },
            ),
            PolicyField::Images => Ok(SettingsView { image_ttl: value, ..policy }),
            PolicyField::Volumes => Ok(SettingsView { volume_ttl: value, ..policy }),
            PolicyField::CacheAge => Ok(SettingsView { build_cache_ttl: value, ..policy }),
            PolicyField::CacheBytes => match budget_of(value) {
                Ok(bytes) => Ok(SettingsView { build_cache_max_bytes: bytes, ..policy }),
                Err(message) => Err(message),
            },
        }
    }
}

/// Rewrites one field of settings. What cannot be read changes nothing.
pub fn set_policy_field(field: PolicyField, policy: &mut PolicySettings, value: &str) -> (outcome:
    Result<(), ConfiguratorError>)
    ensures
        match outcome {
            Ok(_) => with_field(field, old(policy)@, value@) == Ok::<SettingsView, Seq<char>>(
                final(policy)@,
            ),
            Err(error) => {
                &&& error matches ConfiguratorError::Invalid(message) && with_field(
                    field,
                    old(policy)@,
                    value@,
                ) == Err::<SettingsView, Seq<char>>(message@)
                &&& final(policy)@ == old(policy)@
            },
        },
{
    if is_empty_text(value) {
        return Err(ConfiguratorError::Invalid("policy value must not be blank".to_owned()));
    }
    match field {
        PolicyField::Containers => {
            policy.stopped_container_ttl = value.to_owned();
        },
        PolicyField::Images => {
            policy.image_ttl = value.to_owned();
        },
        PolicyField::Volumes => {
            policy.volume_ttl = value.to_owned();
        },
        PolicyField::CacheAge => {
            policy.build_cache_ttl = value.to_owned();
        },
        PolicyField::CacheBytes => match parse_byte_budget(value) {
            Ok(bytes) => {
                policy.build_cache_max_bytes = bytes;
            },
            Err(error) => {
                return Err(error);
            },
        },
    }
    Ok(())
}

/// Whether the id of a generated rule is that of a family: the id goes before
/// the last slash.
pub open spec fn names_family(rule_id: Seq<char>, family: Seq<char>) -> bool {
    match without_prefix(rule_id, MANAGED_ID_PREFIX@ + family + "/"@) {
        Some(rest) => !rest.contains('/'),
        None => false,
    }
}

/// Rules without the build cache's, whose id names no family so.
pub open spec fn without_cache_rule(rules: RulesView) -> RulesView {
    RulesView { build_cache: None, ..rules }
}

/// Whether the build cache's rule is a generated one.
pub open spec fn manages_cache(rules: RulesView) -> bool {
    match rules.build_cache {
        Some(rule) => rule.id == Some("docker-maid.configure/build-cache"@),
        None => false,
    }
}

/// Whether generated rules stand for a family.
pub open spec fn manages(rules: RulesView, family: Seq<char>) -> bool {
    ||| exists|i: int|
        0 <= i < sorted_rule_ids(without_cache_rule(rules)).len() && names_family(
            #[trigger] sorted_rule_ids(without_cache_rule(rules))[i],
            family,
        )
    ||| family == "build-cache"@ && manages_cache(rules)
}

/// The ids of families that generated rules stand for, in their order.
pub open spec fn managed_families(rules: RulesView, families: Seq<CandidateFamilyView>) -> Seq<
    Seq<char>,
>
    decreases families.len(),
{
    if families.len() == 0 {
        Seq::empty()
    } else {
        let before = managed_families(rules, families.drop_last());
        if manages(rules, families.last().id) {
            before.push(families.last().id)
        } else {
            before
        }
    }
}

fn names_candidate(rule_id: &str, family: &str) -> (found: bool)
    ensures
        found == names_family(rule_id@, family@),
{
    let prefix = concat3(MANAGED_ID_PREFIX, family, "/");
    match strip_prefix(rule_id, prefix.as_str()) {
        None => false,
        Some(rest) => {
            let characters = chars_of(rest.as_str());
            let mut index: usize = 0;
            while index < characters.len()
                invariant
                    index <= characters@.len(),
                    characters@ == rest@,
                    without_prefix(rule_id@, MANAGED_ID_PREFIX@ + family@ + "/"@) == Some(rest@),
                    forall|i: int| 0 <= i < index ==> characters@[i] != '/',
                decreases characters@.len() - index,
            {
                if characters[index] == '/' {
                    assert(rest@[index as int] == '/');
                    return false;
                }
                index += 1;
            }
            true
        },
    }
}

fn names_any(ids: &Vec<String>, family: &str) -> (found: bool)
    ensures
        found == exists|i: int| 0 <= i < ids@.len() && names_family(#[trigger] views(ids@)[i], family@),
{
    broadcast use group_views;

    let mut index: usize = 0;
    while index < ids.len()
        invariant
            index <= ids@.len(),
            forall|i: int| 0 <= i < index ==> !names_family(#[trigger] views(ids@)[i], family@),
        decreases ids@.len() - index,
    {
        if names_candidate(ids[index].as_str(), family) {
            assert(names_family(views(ids@)[index as int], family@));
            return true;
        }
        index += 1;
    }
    false
}

/// The ids of the surveyed families that the configuration's generated rules
/// stand for, each once, in order.
pub fn managed_candidate_ids(config: &Config, survey: &ConfiguratorSurvey) -> (ids: Vec<String>)
    ensures
        views(ids@) == ordered_once::<String>(
            managed_families(config@.rules, survey@.candidates),
        ),
{
    broadcast use group_views;

    let mut scoped = config.rules.clone();
    scoped.build_cache = None;
    let rules = rule_ids(&scoped);
    assert(scoped@ == without_cache_rule(config@.rules));
    let cache = match &config.rules.build_cache {
        Some(rule) => opt_text_is(&rule.id, "docker-maid.configure/build-cache"),
        None => false,
    };
    let ghost all = survey@.candidates;
    let mut found: Vec<String> = Vec::new();
    let mut index: usize = 0;
    assert(views(found@) =~= managed_families(config@.rules, all.take(0)));
    while index < survey.candidates.len()
        invariant
            index <= survey.candidates@.len(),
            all == views(survey.candidates@),
            views(rules@) == sorted_rule_ids(without_cache_rule(config@.rules)),
            cache == manages_cache(config@.rules),
            views(found@) == managed_families(config@.rules, all.take(index as int)),
        decreases survey.candidates@.len() - index,
    {
        let family = &survey.candidates[index];
        assert(all.take(index as int + 1).drop_last() =~= all.take(index as int));
        assert(all.take(index as int + 1).last() == family@);
        let id = family.id.as_str();
        if names_any(&rules, id) || (cache && text_eq(id, "build-cache")) {
            assert(manages(config@.rules, family@.id));
            found.push(family.id.clone());
        } else {
            assert(!manages(config@.rules, family@.id));
        }
        index += 1;
    }
    assert(all.take(index as int) =~= all);
    dedup(sort(found))
}

/// Where a value stands in a list, 0 where it does not.
pub open spec fn place_of(order: Seq<int>, value: int) -> int {
    if order.contains(value) {
        order.index_of(value)
    } else {
        0
    }
}

/// A position moved by a step, held between the ends of a list.
pub open spec fn stepped(current: int, delta: int, count: nat) -> int {
    let next = current + delta;
    if count == 0 || next < 0 {
        0
    } else if next >= count {
        count - 1
    } else {
        next
    }
}

/// Moves a position by a step.
pub fn step(current: usize, delta: isize, count: usize) -> (next: usize)
    ensures
        next == stepped(current as int, delta as int, count as nat),
{
    let reach: i128 = current as i128 + delta as i128;
    if count == 0 || reach < 0 {
        0
    } else if reach >= count as i128 {
        count - 1
    } else {
        reach as usize
    }
}

/// The family that is selected first.
pub open spec fn first_row(families: Seq<CandidateFamilyView>) -> int {
    if display_order(families).len() == 0 {
        0
    } else {
        display_order(families)[0]
    }
}

/// The family that is selected first: the first one displayed.
pub fn first_configure_row(survey: &ConfiguratorSurvey) -> (row: usize)
    ensures
        row == first_row(survey@.candidates),
{
    let order = candidate_display_indices(&survey.candidates);
    assert(as_ints(order@).len() == order@.len());
    if order.len() == 0 {
        0
    } else {
        assert(as_ints(order@)[0] == order@[0]);
        order[0]
    }
}

/// The family that is selected after a step through what is displayed.
pub open spec fn row_after(families: Seq<CandidateFamilyView>, current: int, delta: int) -> int {
    let order = display_order(families);
    if order.len() == 0 {
        0
    } else {
        order[stepped(place_of(order, current), delta, order.len())]
    }
}

fn display_place(order: &Vec<usize>, row: usize) -> (place: usize)
    requires
        order@.len() > 0,
        as_ints(order@).no_duplicates(),
    ensures
        place == place_of(as_ints(order@), row as int),
        place < order@.len(),
{
    let ghost all = as_ints(order@);
    let mut index: usize = 0;
    while index < order.len()
        invariant
            index <= order@.len(),
            all == as_ints(order@),
            all.no_duplicates(),
            forall|i: int| 0 <= i < index ==> all[i] != row,
        decreases order@.len() - index,
    {
        if order[index] == row {
            assert(all[index as int] == row as int);
            return index;
        }
        assert(all[index as int] == order@[index as int]);
        index += 1;
    }
    assert(!all.contains(row as int));
    0
}

/// Moves the selection through the families as they are displayed. The row is
/// that of the survey, not of the display.
pub fn move_configure_row(survey: &ConfiguratorSurvey, current: usize, delta: isize) -> (row: usize)
    ensures
        row == row_after(survey@.candidates, current as int, delta as int),
{
    let order = candidate_display_indices(&survey.candidates);
    let ghost all = as_ints(order@);
    assert(all.len() == order@.len());
    if order.len() == 0 {
        return 0;
    }
    proof {
        display_names_every_family_once(survey@.candidates, current as int);
    }
    let place: usize = display_place(&order, current);
    let next: usize = step(place, delta, order.len());
    assert(all[next as int] == order@[next as int]);
    order[next]
}

} // verus!
