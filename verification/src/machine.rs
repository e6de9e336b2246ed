//! Documents for other programs, schema version one.
//!
//! The documents here hold every field; writing them down as JSON happens
//! outside.

use crate::activity::{
    rule_counts, ActivityEvent, ActivityPass, CompletedPass, CompletedPassView, EventData,
    EventDataView, EventView,
};
use crate::config::{Config, ConfigView};
use crate::executor::{status_count, status_text, ExecutionReport, OutcomeView, TargetOutcome, TargetStatus};
use crate::naming::{add_size, known_bytes};
use crate::order::sort;
use crate::plan::{
    action_text, disposition_text, removals_of, Decision, DecisionView, Plan,
};
use crate::preview::decided_sizes;
use crate::resource::{kind_text, state_text};
use crate::text::{
    clone_opt_text, clone_texts, group_views, opt_view, views,
};
use crate::text_map::{has_key, keys_ascend, lemma_put, put, value_of, Labels, TextMap};
use crate::unique::{dedup, ordered_once};
use vstd::prelude::*;

verus! {

/// The version of every document.
pub const SCHEMA_VERSION: u32 = 1;

/// How often each word stands in a list, under the word.
pub open spec fn tally(list: Seq<Seq<char>>) -> Seq<(Seq<char>, u64)>
    decreases list.len(),
{
    if list.len() == 0 {
        Seq::empty()
    } else {
        let before = tally(list.drop_last());
        put(
            before,
            list.last(),
            (match value_of(before, list.last()) {
                Some(count) => count + 1,
                None => 1,
            }) as u64,
        )
    }
}

/// How often a word stands in a list.
pub open spec fn occurrences(list: Seq<Seq<char>>, word: Seq<char>) -> nat
    decreases list.len(),
{
    if list.len() == 0 {
        0
    } else {
        occurrences(list.drop_last(), word) + if list.last() == word {
            1nat
        } else {
            0nat
        }
    }
}

proof fn lemma_occurrences_bound(list: Seq<Seq<char>>, word: Seq<char>)
    ensures
        occurrences(list, word) <= list.len(),
    decreases list.len(),
{
    if list.len() > 0 {
        lemma_occurrences_bound(list.drop_last(), word);
    }
}

/// A tally gives for every word how often it stands in the list, and holds no
/// word that does not.
pub proof fn a_tally_counts_occurrences(list: Seq<Seq<char>>, word: Seq<char>)
    requires
        list.len() <= u64::MAX,
    ensures
        keys_ascend(tally(list)),
        value_of(tally(list), word) == if occurrences(list, word) == 0 {
            None::<u64>
        } else {
            Some(occurrences(list, word) as u64)
        },
    decreases list.len(),
{
    if list.len() > 0 {
        let rest = list.drop_last();
        let last = list.last();
        a_tally_counts_occurrences(rest, word);
        a_tally_counts_occurrences(rest, last);
        lemma_occurrences_bound(rest, last);
        let value = (match value_of(tally(rest), last) {
            Some(count) => count + 1,
            None => 1,
        }) as u64;
        lemma_put(tally(rest), last, value, word);
    } else {
        assert(!has_key(tally(list), word));
    }
}

fn count_word(
    counts: &mut TextMap<u64>,
    word: &str,
    Ghost(list): Ghost<Seq<Seq<char>>>,
)
    requires
        list.len() < u64::MAX,
        old(counts)@ == tally(list),
    ensures
        final(counts)@ == tally(list.push(word@)),
{
    proof {
        a_tally_counts_occurrences(list, word@);
        lemma_occurrences_bound(list, word@);
        assert(list.push(word@).drop_last() =~= list);
    }
    let count: u64 = match counts.get(word) {
        Some(held) => *held + 1,
        None => 1,
    };
    counts.insert(word.to_owned(), count);
}

/// The sum of the known sizes under each word, as far as it can be counted.
pub open spec fn size_tally(list: Seq<(Seq<char>, Option<u64>)>) -> Seq<(Seq<char>, u64)>
    decreases list.len(),
{
    if list.len() == 0 {
        Seq::empty()
    } else {
        let before = size_tally(list.drop_last());
        match list.last().1 {
            None => before,
            Some(size) => put(
                before,
                list.last().0,
                match value_of(before, list.last().0) {
                    Some(total) => if total + size <= u64::MAX {
                        (total + size) as u64
                    } else {
                        u64::MAX
                    },
                    None => size,
                },
            ),
        }
    }
}

/// The kinds of what decisions are on.
pub open spec fn decided_kinds(decisions: Seq<DecisionView>) -> Seq<Seq<char>> {
    decisions.map_values(|decision: DecisionView| kind_text(decision.resource.kind))
}

/// The footings of decisions.
pub open spec fn decided_dispositions(decisions: Seq<DecisionView>) -> Seq<Seq<char>> {
    decisions.map_values(|decision: DecisionView| disposition_text(decision.disposition))
}

/// How an inventory divides up.
#[derive(Debug, PartialEq, Eq)]
pub struct InventorySummary {
    pub total: usize,
    pub pending_removals: usize,
    pub by_resource_kind: TextMap<u64>,
    pub by_disposition: TextMap<u64>,
}

/// Whether a summary is that of decisions.
pub open spec fn sums_up(summary: InventorySummary, decisions: Seq<DecisionView>) -> bool {
    &&& summary.total == decisions.len()
    &&& summary.pending_removals == removals_of(decisions).len()
    &&& summary.by_resource_kind@ == tally(decided_kinds(decisions))
    &&& summary.by_disposition@ == tally(decided_dispositions(decisions))
}

/// Divides an inventory up.
pub fn inventory_summary(plan: &Plan) -> (summary: InventorySummary)
    ensures
        sums_up(summary, plan@),
{
    broadcast use group_views;

    let ghost all = plan@;
    let ghost kinds = decided_kinds(all);
    let ghost footings = decided_dispositions(all);
    let total: usize = plan.decisions.len();
    let mut by_resource_kind: TextMap<u64> = TextMap::new();
    let mut by_disposition: TextMap<u64> = TextMap::new();
    let mut index: usize = 0;
    assert(kinds.take(0) =~= Seq::empty());
    assert(footings.take(0) =~= Seq::empty());
    while index < plan.decisions.len()
        invariant
            index <= plan.decisions@.len(),
            total == plan.decisions@.len(),
            all == views(plan.decisions@),
            kinds == decided_kinds(all),
            footings == decided_dispositions(all),
            by_resource_kind@ == tally(kinds.take(index as int)),
            by_disposition@ == tally(footings.take(index as int)),
        decreases plan.decisions@.len() - index,
    {
        let decision = &plan.decisions[index];
        assert(all[index as int] == decision@);
        assert(kinds.take(index as int + 1) =~= kinds.take(index as int).push(
            kind_text(decision.resource.kind),
        ));
        assert(footings.take(index as int + 1) =~= footings.take(index as int).push(
            disposition_text(decision.disposition),
        ));
        count_word(
            &mut by_resource_kind,
            decision.resource.kind.as_text(),
            Ghost(kinds.take(index as int)),
        );
        count_word(
            &mut by_disposition,
            decision.disposition.as_text(),
            Ghost(footings.take(index as int)),
        );
        index += 1;
    }
    assert(kinds.take(index as int) =~= kinds);
    assert(footings.take(index as int) =~= footings);
    InventorySummary {
        total: plan.decisions.len(),
        pending_removals: plan.pending_count(),
        by_resource_kind,
        by_disposition,
    }
}

/// What an inventory holds on disk.
#[derive(Debug, PartialEq, Eq)]
pub struct DiskUsage {
    pub known_bytes: u64,
    pub unknown_size_items: usize,
    pub by_resource_kind: TextMap<u64>,
}

/// How many sizes are not known.
pub open spec fn unknown_sizes(sizes: Seq<Option<u64>>) -> nat
    decreases sizes.len(),
{
    if sizes.len() == 0 {
        0
    } else {
        unknown_sizes(sizes.drop_last()) + if sizes.last() is None {
            1nat
        } else {
            0nat
        }
    }
}

/// The kinds and sizes of what decisions are on.
pub open spec fn sized_kinds(decisions: Seq<DecisionView>) -> Seq<(Seq<char>, Option<u64>)> {
    decisions.map_values(
        |decision: DecisionView| (kind_text(decision.resource.kind), decision.resource.size),
    )
}

/// Adds up what an inventory holds on disk.
pub fn disk_usage(plan: &Plan) -> (usage: DiskUsage)
    ensures
        usage.known_bytes == known_bytes(decided_sizes(plan@)),
        usage.unknown_size_items == unknown_sizes(decided_sizes(plan@)),
        usage.by_resource_kind@ == size_tally(sized_kinds(plan@)),
{
    broadcast use group_views;

    let ghost all = plan@;
    let ghost sizes = decided_sizes(all);
    let ghost pairs = sized_kinds(all);
    let mut known: u64 = 0;
    let mut unknown: usize = 0;
    let mut by_resource_kind: TextMap<u64> = TextMap::new();
    let mut index: usize = 0;
    assert(sizes.take(0) =~= Seq::empty());
    assert(pairs.take(0) =~= Seq::empty());
    while index < plan.decisions.len()
        invariant
            index <= plan.decisions@.len(),
            all == views(plan.decisions@),
            sizes == decided_sizes(all),
            pairs == sized_kinds(all),
            known == known_bytes(sizes.take(index as int)),
            unknown <= index,
            unknown == unknown_sizes(sizes.take(index as int)),
            by_resource_kind@ == size_tally(pairs.take(index as int)),
        decreases plan.decisions@.len() - index,
    {
        let decision = &plan.decisions[index];
        let size = decision.resource.size;
        proof {
            assert(all[index as int] == decision@);
            assert(sizes.take(index as int + 1) =~= sizes.take(index as int).push(size));
            assert(sizes.take(index as int + 1).drop_last() =~= sizes.take(index as int));
            assert(pairs.take(index as int + 1).drop_last() =~= pairs.take(index as int));
            assert(pairs.take(index as int + 1).last() == (
                kind_text(decision.resource.kind),
                size,
            ));
        }
        known = add_size(known, size, Ghost(sizes.take(index as int)));
        match size {
            Some(bytes) => {
                let word = decision.resource.kind.as_text();
                let total: u64 = match by_resource_kind.get(word) {
                    Some(held) => held.saturating_add(bytes),
                    None => bytes,
                };
                by_resource_kind.insert(word.to_owned(), total);
            },
            None => {
                unknown += 1;
            },
        }
        index += 1;
    }
    assert(sizes.take(index as int) =~= sizes);
    assert(pairs.take(index as int) =~= pairs);
    DiskUsage { known_bytes: known, unknown_size_items: unknown, by_resource_kind }
}

/// One resource in a document.
#[derive(Debug, PartialEq, Eq)]
pub struct PlanItem {
    pub resource_kind: String,
    pub id: String,
    pub name: String,
    pub state: String,
    pub disposition: String,
    pub action: String,
    pub matched_rule: Option<String>,
    pub age_seconds: Option<u64>,
    pub size_bytes: Option<u64>,
    pub labels: Labels,
    pub mounts: Vec<String>,
    pub referenced: bool,
    pub dangling: bool,
    pub system: bool,
    pub reason: String,
}

/// What a resource in a document says.
#[verifier::ext_equal]
pub struct PlanItemView {
    pub resource_kind: Seq<char>,
    pub id: Seq<char>,
    pub name: Seq<char>,
    pub state: Seq<char>,
    pub disposition: Seq<char>,
    pub action: Seq<char>,
    pub matched_rule: Option<Seq<char>>,
    pub age_seconds: Option<u64>,
    pub size_bytes: Option<u64>,
    pub labels: Seq<(Seq<char>, Seq<char>)>,
    pub mounts: Seq<Seq<char>>,
    pub referenced: bool,
    pub dangling: bool,
    pub system: bool,
    pub reason: Seq<char>,
}

impl View for PlanItem {
    type V = PlanItemView;

    open spec fn view(&self) -> PlanItemView {
        PlanItemView {
            resource_kind: self.resource_kind@,
            id: self.id@,
            name: self.name@,
            state: self.state@,
            disposition: self.disposition@,
            action: self.action@,
            matched_rule: opt_view(self.matched_rule),
            age_seconds: self.age_seconds,
            size_bytes: self.size_bytes,
            labels: self.labels@,
            mounts: views(self.mounts@),
            referenced: self.referenced,
            dangling: self.dangling,
            system: self.system,
            reason: self.reason@,
        }
    }
}

/// The entry of a decision.
pub open spec fn item_of(decision: DecisionView) -> PlanItemView {
    PlanItemView {
        resource_kind: kind_text(decision.resource.kind),
        id: decision.resource.id,
        name: decision.resource.name,
        state: state_text(decision.resource.state),
        disposition: disposition_text(decision.disposition),
        action: action_text(decision.action),
        matched_rule: decision.matched_rule,
        age_seconds: decision.age_seconds,
        size_bytes: decision.resource.size,
        labels: decision.resource.labels,
        mounts: decision.resource.mounts,
        referenced: decision.resource.referenced,
        dangling: decision.resource.dangling,
        system: decision.resource.system,
        reason: decision.reason,
    }
}

/// The entries of decisions.
pub open spec fn items_of(decisions: Seq<DecisionView>) -> Seq<PlanItemView> {
    decisions.map_values(|decision: DecisionView| item_of(decision))
}

fn plan_item(decision: &Decision) -> (item: PlanItem)
    ensures
        item@ == item_of(decision@),
{
    PlanItem {
        resource_kind: decision.resource.kind.as_text().to_owned(),
        id: decision.resource.id.clone(),
        name: decision.resource.name.clone(),
        state: decision.resource.state.as_text(),
        disposition: decision.disposition.as_text().to_owned(),
        action: decision.action.as_text().to_owned(),
        matched_rule: clone_opt_text(&decision.matched_rule),
        age_seconds: decision.age_seconds,
        size_bytes: decision.resource.size,
        labels: decision.resource.labels.clone(),
        mounts: clone_texts(&decision.resource.mounts),
        referenced: decision.resource.referenced,
        dangling: decision.resource.dangling,
        system: decision.resource.system,
        reason: decision.reason.clone(),
    }
}

/// Lists the resources of a plan.
pub fn plan_items(plan: &Plan) -> (items: Vec<PlanItem>)
    ensures
        views(items@) == items_of(plan@),
{
    broadcast use group_views;

    let ghost wanted = items_of(plan@);
    let mut items: Vec<PlanItem> = Vec::new();
    let mut index: usize = 0;
    assert(views(items@) =~= wanted.take(0));
    while index < plan.decisions.len()
        invariant
            index <= plan.decisions@.len(),
            plan@ == views(plan.decisions@),
            wanted == items_of(plan@),
            views(items@) == wanted.take(index as int),
        decreases plan.decisions@.len() - index,
    {
        let item = plan_item(&plan.decisions[index]);
        assert(item@ == wanted[index as int]);
        assert(wanted.take(index as int + 1) =~= wanted.take(index as int).push(item@));
        items.push(item);
        index += 1;
    }
    assert(wanted.take(index as int) =~= wanted);
    items
}

/// One outcome in a document.
#[derive(Debug, PartialEq, Eq)]
pub struct OutcomeRecord {
    pub resource_kind: String,
    pub id: String,
    pub name: String,
    pub matched_rule: String,
    pub status: String,
    pub detail: String,
}

/// What an outcome in a document says.
#[verifier::ext_equal]
pub struct OutcomeRecordView {
    pub resource_kind: Seq<char>,
    pub id: Seq<char>,
    pub name: Seq<char>,
    pub matched_rule: Seq<char>,
    pub status: Seq<char>,
    pub detail: Seq<char>,
}

impl View for OutcomeRecord {
    type V = OutcomeRecordView;

    open spec fn view(&self) -> OutcomeRecordView {
        OutcomeRecordView {
            resource_kind: self.resource_kind@,
            id: self.id@,
            name: self.name@,
            matched_rule: self.matched_rule@,
            status: self.status@,
            detail: self.detail@,
        }
    }
}

/// The record of an outcome.
pub open spec fn record_of(outcome: OutcomeView) -> OutcomeRecordView {
    OutcomeRecordView {
        resource_kind: kind_text(outcome.kind),
        id: outcome.id,
        name: outcome.name,
        matched_rule: outcome.matched_rule,
        status: status_text(outcome.status),
        detail: outcome.detail,
    }
}

/// The records of outcomes.
pub open spec fn records_of(outcomes: Seq<OutcomeView>) -> Seq<OutcomeRecordView> {
    outcomes.map_values(|outcome: OutcomeView| record_of(outcome))
}

fn outcome_record(outcome: &TargetOutcome) -> (record: OutcomeRecord)
    ensures
        record@ == record_of(outcome@),
{
    OutcomeRecord {
        resource_kind: outcome.kind.as_text().to_owned(),
        id: outcome.id.clone(),
        name: outcome.name.clone(),
        matched_rule: outcome.matched_rule.clone(),
        status: outcome.status.as_text().to_owned(),
        detail: outcome.detail.clone(),
    }
}

fn outcome_records(report: &ExecutionReport) -> (records: Vec<OutcomeRecord>)
    ensures
        views(records@) == records_of(report@),
{
    broadcast use group_views;

    let ghost wanted = records_of(report@);
    let mut records: Vec<OutcomeRecord> = Vec::new();
    let mut index: usize = 0;
    assert(views(records@) =~= wanted.take(0));
    while index < report.outcomes.len()
        invariant
            index <= report.outcomes@.len(),
            report@ == views(report.outcomes@),
            wanted == records_of(report@),
            views(records@) == wanted.take(index as int),
        decreases report.outcomes@.len() - index,
    {
        let record = outcome_record(&report.outcomes[index]);
        assert(record@ == wanted[index as int]);
        assert(wanted.take(index as int + 1) =~= wanted.take(index as int).push(record@));
        records.push(record);
        index += 1;
    }
    assert(wanted.take(index as int) =~= wanted);
    records
}

/// What an execution came to.
#[derive(Debug, PartialEq, Eq)]
pub struct ExecutionSummary {
    pub removed: usize,
    pub skipped: usize,
    pub failed: usize,
    pub outcomes: Vec<OutcomeRecord>,
}

/// Whether a summary is that of outcomes.
pub open spec fn sums_outcomes(summary: ExecutionSummary, outcomes: Seq<OutcomeView>) -> bool {
    &&& summary.removed == status_count(outcomes, TargetStatus::Removed)
    &&& summary.skipped == status_count(outcomes, TargetStatus::Skipped)
    &&& summary.failed == status_count(outcomes, TargetStatus::Failed)
    &&& views(summary.outcomes@) == records_of(outcomes)
}

/// Sums an execution up.
pub fn execution_result(report: &ExecutionReport) -> (summary: ExecutionSummary)
    ensures
        sums_outcomes(summary, report@),
{
    ExecutionSummary {
        removed: report.count(TargetStatus::Removed),
        skipped: report.count(TargetStatus::Skipped),
        failed: report.count(TargetStatus::Failed),
        outcomes: outcome_records(report),
    }
}

/// Sums up an execution that did not take place.
pub fn empty_result() -> (summary: ExecutionSummary)
    ensures
        sums_outcomes(summary, Seq::empty()),
{
    let outcomes: Vec<OutcomeRecord> = Vec::new();
    assert(views(outcomes@) =~= records_of(Seq::empty()));
    ExecutionSummary { removed: 0, skipped: 0, failed: 0, outcomes }
}

/// The document of a plan or a cleanup.
#[derive(Debug, PartialEq, Eq)]
pub struct PlanDocument {
    pub schema_version: u32,
    pub command: String,
    pub applied: bool,
    pub pending_removals: usize,
    pub inventory: InventorySummary,
    pub items: Vec<PlanItem>,
    pub result: Option<ExecutionSummary>,
}

/// Makes the document of a plan or a cleanup.
pub fn plan_document(command: &str, applied: bool, plan: &Plan, report: Option<&ExecutionReport>) -> (document:
    PlanDocument)
    ensures
        document.schema_version == SCHEMA_VERSION,
        document.command@ == command@,
        document.applied == applied,
        document.pending_removals == removals_of(plan@).len(),
        sums_up(document.inventory, plan@),
        views(document.items@) == items_of(plan@),
        match report {
            Some(given) => document.result matches Some(summary) && sums_outcomes(summary, given@),
            None => document.result is None,
        },
{
    PlanDocument {
        schema_version: SCHEMA_VERSION,
        command: command.to_owned(),
        applied,
        pending_removals: plan.pending_count(),
        inventory: inventory_summary(plan),
        items: plan_items(plan),
        result: match report {
            Some(given) => Some(execution_result(given)),
            None => None,
        },
    }
}

/// A configuration in numbers.
#[derive(Debug, PartialEq, Eq)]
pub struct ConfigSummary {
    pub path: String,
    pub hash: String,
    pub interval: Option<String>,
    pub container_rules: usize,
    pub image_rules: usize,
    pub volume_rules: usize,
    pub network_rules: usize,
    pub build_cache_rules: usize,
    pub protected_names: usize,
    pub protected_labels: usize,
}

/// Whether a summary is that of a configuration.
pub open spec fn sums_config(
    summary: ConfigSummary,
    path: Seq<char>,
    hash: Seq<char>,
    config: ConfigView,
) -> bool {
    &&& summary.path@ == path
    &&& summary.hash@ == hash
    &&& opt_view(summary.interval) == config.defaults.interval
    &&& summary.container_rules == config.rules.containers.len()
    &&& summary.image_rules == config.rules.images.len()
    &&& summary.volume_rules == config.rules.volumes.len()
    &&& summary.network_rules == config.rules.networks.len()
    &&& summary.build_cache_rules == if config.rules.build_cache is Some {
        1int
    } else {
        0int
    }
    &&& summary.protected_names == config.protect.names.len()
    &&& summary.protected_labels == config.protect.labels.len()
}

/// Puts a configuration in numbers.
pub fn config_summary(path: &str, config_hash: &str, config: &Config) -> (summary: ConfigSummary)
    ensures
        sums_config(summary, path@, config_hash@, config@),
{
    broadcast use group_views;

    ConfigSummary {
        path: path.to_owned(),
        hash: config_hash.to_owned(),
        interval: clone_opt_text(&config.defaults.interval),
        container_rules: config.rules.containers.len(),
        image_rules: config.rules.images.len(),
        volume_rules: config.rules.volumes.len(),
        network_rules: config.rules.networks.len(),
        build_cache_rules: if config.rules.build_cache.is_some() {
            1
        } else {
            0
        },
        protected_names: config.protect.names.len(),
        protected_labels: config.protect.labels.len(),
    }
}

/// Whether a rule still matches what it matched before.
#[derive(Debug, PartialEq, Eq)]
pub struct RuleHealth {
    pub rule: String,
    pub current_match_count: u64,
    pub previous_match_count: u64,
    pub health: &'static str,
}

/// What the health of a rule says.
pub struct RuleHealthView {
    pub rule: Seq<char>,
    pub current_match_count: u64,
    pub previous_match_count: u64,
    pub health: Seq<char>,
}

impl View for RuleHealth {
    type V = RuleHealthView;

    open spec fn view(&self) -> RuleHealthView {
        RuleHealthView {
            rule: self.rule@,
            current_match_count: self.current_match_count,
            previous_match_count: self.previous_match_count,
            health: self.health@,
        }
    }
}

/// The count under a name, none as zero.
pub open spec fn count_of(counts: Seq<(Seq<char>, u64)>, name: Seq<char>) -> u64 {
    match value_of(counts, name) {
        Some(count) => count,
        None => 0,
    }
}

/// The health of one rule: regressed where it matched before and matches
/// nothing now.
pub open spec fn health_of(
    name: Seq<char>,
    current: Seq<(Seq<char>, u64)>,
    previous: Seq<(Seq<char>, u64)>,
) -> RuleHealthView {
    let now = count_of(current, name);
    let before = count_of(previous, name);
    RuleHealthView {
        rule: name,
        current_match_count: now,
        previous_match_count: before,
        health: if before != 0 && now == 0 {
            "regressed"@
        } else {
            "healthy"@
        },
    }
}

/// The names under which counts stand.
pub open spec fn names_of(counts: Seq<(Seq<char>, u64)>) -> Seq<Seq<char>> {
    counts.map_values(|pair: (Seq<char>, u64)| pair.0)
}

/// The health of every rule that matches now or matched before.
pub open spec fn rules_health(
    current: Seq<(Seq<char>, u64)>,
    previous: Seq<(Seq<char>, u64)>,
) -> Seq<RuleHealthView> {
    ordered_once::<String>(names_of(current) + names_of(previous)).map_values(
        |name: Seq<char>| health_of(name, current, previous),
    )
}

fn push_names(names: &mut Vec<String>, counts: &TextMap<u64>)
    ensures
        views(final(names)@) == views(old(names)@) + names_of(counts@),
{
    broadcast use group_views;

    let ghost before = views(names@);
    let ghost wanted = names_of(counts@);
    let total: usize = counts.len();
    let mut index: usize = 0;
    assert(views(names@) =~= before + wanted.take(0));
    while index < total
        invariant
            index <= total,
            total == counts@.len(),
            wanted == names_of(counts@),
            views(names@) == before + wanted.take(index as int),
        decreases total - index,
    {
        let name = counts.key_at(index).clone();
        assert((before + wanted.take(index as int)).push(name@) =~= before + wanted.take(
            index as int + 1,
        ));
        names.push(name);
        index += 1;
    }
    assert(wanted.take(index as int) =~= wanted);
}

fn read_count(counts: &TextMap<u64>, name: &str) -> (count: u64)
    ensures
        count == count_of(counts@, name@),
{
    match counts.get(name) {
        Some(held) => *held,
        None => 0,
    }
}

/// Compares what rules match now with what they matched before.
pub fn rule_health(plan: &Plan, last: Option<&CompletedPass>) -> (health: Vec<RuleHealth>)
    ensures
        views(health@) == rules_health(
            rule_counts(plan@),
            match last {
                Some(pass) => pass@.rule_match_counts,
                None => Seq::empty(),
            },
        ),
{
    broadcast use group_views;

    let current = ActivityPass::count_rules(plan);
    let previous: TextMap<u64> = match last {
        Some(pass) => pass.rule_match_counts.clone(),
        None => TextMap::new(),
    };
    let mut listed: Vec<String> = Vec::new();
    assert(views(listed@) =~= Seq::empty());
    push_names(&mut listed, &current);
    push_names(&mut listed, &previous);
    assert(views(listed@) =~= names_of(current@) + names_of(previous@));
    let names = dedup(sort(listed));
    let ghost wanted = rules_health(current@, previous@);
    let mut health: Vec<RuleHealth> = Vec::new();
    let mut index: usize = 0;
    assert(views(health@) =~= wanted.take(0));
    while index < names.len()
        invariant
            index <= names@.len(),
            views(names@) == ordered_once::<String>(names_of(current@) + names_of(previous@)),
            wanted == rules_health(current@, previous@),
            views(health@) == wanted.take(index as int),
        decreases names@.len() - index,
    {
        let name = &names[index];
        let now: u64 = read_count(&current, name.as_str());
        let before: u64 = read_count(&previous, name.as_str());
        let entry = RuleHealth {
            rule: name.clone(),
            current_match_count: now,
            previous_match_count: before,
            health: if before != 0 && now == 0 {
                "regressed"
            } else {
                "healthy"
            },
        };
        assert(entry@ == wanted[index as int]);
        assert(wanted.take(index as int + 1) =~= wanted.take(index as int).push(entry@));
        health.push(entry);
        index += 1;
    }
    assert(wanted.take(index as int) =~= wanted);
    health
}

/// One action of a completed pass.
#[derive(Debug, PartialEq, Eq)]
pub struct ActionRecord {
    pub sequence: u64,
    pub action: String,
    pub resource_kind: String,
    pub resource_id: String,
    pub resource_name: String,
    pub matched_rule: String,
    pub age_seconds: Option<u64>,
    pub freed_bytes: u64,
    pub detail: String,
}

/// What an action says.
pub struct ActionRecordView {
    pub sequence: u64,
    pub action: Seq<char>,
    pub resource_kind: Seq<char>,
    pub resource_id: Seq<char>,
    pub resource_name: Seq<char>,
    pub matched_rule: Seq<char>,
    pub age_seconds: Option<u64>,
    pub freed_bytes: u64,
    pub detail: Seq<char>,
}

impl View for ActionRecord {
    type V = ActionRecordView;

    open spec fn view(&self) -> ActionRecordView {
        ActionRecordView {
            sequence: self.sequence,
            action: self.action@,
            resource_kind: self.resource_kind@,
            resource_id: self.resource_id@,
            resource_name: self.resource_name@,
            matched_rule: self.matched_rule@,
            age_seconds: self.age_seconds,
            freed_bytes: self.freed_bytes,
            detail: self.detail@,
        }
    }
}

/// The action that an event reports, where it reports one.
pub open spec fn action_of(event: EventView) -> Option<ActionRecordView> {
    match event.data {
        EventDataView::Action {
            action,
            resource_kind,
            resource_id,
            resource_name,
            matched_rule,
            age_seconds,
            freed_bytes,
            detail,
        } => Some(
            ActionRecordView {
                sequence: event.sequence,
                action,
                resource_kind,
                resource_id,
                resource_name,
                matched_rule,
                age_seconds,
                freed_bytes,
                detail,
            },
        ),
        _ => None,
    }
}

/// The actions that events report.
pub open spec fn actions_of(events: Seq<EventView>) -> Seq<ActionRecordView>
    decreases events.len(),
{
    if events.len() == 0 {
        Seq::empty()
    } else {
        let before = actions_of(events.drop_last());
        match action_of(events.last()) {
            Some(record) => before.push(record),
            None => before,
        }
    }
}

fn action_record(event: &ActivityEvent) -> (record: Option<ActionRecord>)
    ensures
        opt_view(record) == action_of(event@),
{
    match &event.data {
        EventData::Action {
            action,
            resource_kind,
            resource_id,
            resource_name,
            matched_rule,
            age_seconds,
            freed_bytes,
            detail,
        } => Some(
            ActionRecord {
                sequence: event.sequence,
                action: action.clone(),
                resource_kind: resource_kind.clone(),
                resource_id: resource_id.clone(),
                resource_name: resource_name.clone(),
                matched_rule: matched_rule.clone(),
                age_seconds: *age_seconds,
                freed_bytes: *freed_bytes,
                detail: detail.clone(),
            },
        ),
        _ => None,
    }
}

/// Lists the actions that events report.
pub fn action_records(events: &Vec<ActivityEvent>) -> (records: Vec<ActionRecord>)
    ensures
        views(records@) == actions_of(views(events@)),
{
    broadcast use group_views;

    let ghost all = views(events@);
    let mut records: Vec<ActionRecord> = Vec::new();
    let mut index: usize = 0;
    assert(views(records@) =~= actions_of(all.take(0)));
    while index < events.len()
        invariant
            index <= events@.len(),
            all == views(events@),
            views(records@) == actions_of(all.take(index as int)),
        decreases events@.len() - index,
    {
        assert(all.take(index as int + 1).drop_last() =~= all.take(index as int));
        assert(all.take(index as int + 1).last() == events@[index as int]@);
        if let Some(record) = action_record(&events[index]) {
            records.push(record);
        }
        index += 1;
    }
    assert(all.take(index as int) =~= all);
    records
}

/// A completed pass in a document.
#[derive(Debug, PartialEq, Eq)]
pub struct PassRecord {
    pub pass_id: String,
    pub source: String,
    pub started_at: i64,
    pub completed_at: i64,
    pub config_hash: String,
    pub removed: u64,
    pub skipped: u64,
    pub failed: u64,
    pub reclaimed_bytes: u64,
    pub rule_match_counts: TextMap<u64>,
    pub actions: Vec<ActionRecord>,
}

/// Whether a record is that of a pass.
pub open spec fn records_pass(record: PassRecord, pass: CompletedPassView) -> bool {
    &&& record.pass_id@ == pass.pass_id
    &&& record.source@ == pass.source
    &&& record.started_at == pass.started_at
    &&& record.completed_at == pass.completed_at
    &&& record.config_hash@ == pass.config_hash
    &&& record.removed == pass.removed_count
    &&& record.skipped == pass.skipped_count
    &&& record.failed == pass.failure_count
    &&& record.reclaimed_bytes == pass.reclaimed_bytes
    &&& record.rule_match_counts@ == pass.rule_match_counts
    &&& views(record.actions@) == actions_of(pass.actions)
}

/// Takes a completed pass into a document.
pub fn completed_pass(pass: &CompletedPass) -> (record: PassRecord)
    ensures
        records_pass(record, pass@),
{
    PassRecord {
        pass_id: pass.pass_id.clone(),
        source: pass.source.clone(),
        started_at: pass.started_at,
        completed_at: pass.completed_at,
        config_hash: pass.config_hash.clone(),
        removed: pass.removed_count,
        skipped: pass.skipped_count,
        failed: pass.failure_count,
        reclaimed_bytes: pass.reclaimed_bytes,
        rule_match_counts: pass.rule_match_counts.clone(),
        actions: action_records(&pass.actions),
    }
}

/// The document of the present state.
#[derive(Debug, PartialEq, Eq)]
pub struct StatusDocument {
    pub schema_version: u32,
    pub command: &'static str,
    pub configuration: ConfigSummary,
    pub inventory: InventorySummary,
    pub items: Vec<PlanItem>,
    pub disk_usage: DiskUsage,
    pub runtime_protection_entries: usize,
    pub rule_health: Vec<RuleHealth>,
    pub last_completed_pass: Option<PassRecord>,
}

/// Makes the document of the present state.
pub fn status_document(
    config_path: &str,
    config_hash: &str,
    config: &Config,
    plan: &Plan,
    runtime_protection_count: usize,
    last: Option<&CompletedPass>,
) -> (document: StatusDocument)
    ensures
        document.schema_version == SCHEMA_VERSION,
        document.command@ == "status"@,
        sums_config(document.configuration, config_path@, config_hash@, config@),
        sums_up(document.inventory, plan@),
        views(document.items@) == items_of(plan@),
        document.disk_usage.known_bytes == known_bytes(decided_sizes(plan@)),
        document.disk_usage.unknown_size_items == unknown_sizes(decided_sizes(plan@)),
        document.disk_usage.by_resource_kind@ == size_tally(sized_kinds(plan@)),
        document.runtime_protection_entries == runtime_protection_count,
        views(document.rule_health@) == rules_health(
            rule_counts(plan@),
            match last {
                Some(pass) => pass@.rule_match_counts,
                None => Seq::empty(),
            },
        ),
        match last {
            Some(pass) => document.last_completed_pass matches Some(record) && records_pass(
                record,
                pass@,
            ),
            None => document.last_completed_pass is None,
        },
{
    StatusDocument {
        schema_version: SCHEMA_VERSION,
        command: "status",
        configuration: config_summary(config_path, config_hash, config),
        inventory: inventory_summary(plan),
        items: plan_items(plan),
        disk_usage: disk_usage(plan),
        runtime_protection_entries: runtime_protection_count,
        rule_health: rule_health(plan, last),
        last_completed_pass: match last {
            Some(pass) => Some(completed_pass(pass)),
            None => None,
        },
    }
}

/// The document of a change of protection.
#[derive(Debug, PartialEq, Eq)]
pub struct ProtectionDocument {
    pub schema_version: u32,
    pub command: String,
    pub resource_kind: String,
    pub changed: usize,
    pub total_runtime_protection_entries: usize,
}

/// Makes the document of a change of protection.
pub fn protection_document(command: &str, kind: &str, changed: usize, total: usize) -> (document:
    ProtectionDocument)
    ensures
        document.schema_version == SCHEMA_VERSION,
        document.command@ == command@,
        document.resource_kind@ == kind@,
        document.changed == changed,
        document.total_runtime_protection_entries == total,
{
    ProtectionDocument {
        schema_version: SCHEMA_VERSION,
        command: command.to_owned(),
        resource_kind: kind.to_owned(),
        changed,
        total_runtime_protection_entries: total,
    }
}

/// The document of a configuration.
#[derive(Debug, PartialEq, Eq)]
pub struct ConfigDocument {
    pub schema_version: u32,
    pub command: String,
    pub path: Option<String>,
    pub configuration: Config,
}

/// Makes the document of a configuration.
pub fn config_document(command: &str, path: &Option<String>, config: &Config) -> (document:
    ConfigDocument)
    ensures
        document.schema_version == SCHEMA_VERSION,
        document.command@ == command@,
        opt_view(document.path) == opt_view(*path),
        document.configuration@ == config@,
{
    ConfigDocument {
        schema_version: SCHEMA_VERSION,
        command: command.to_owned(),
        path: clone_opt_text(path),
        configuration: config.clone(),
    }
}

/// The document of the program's version.
#[derive(Debug, PartialEq, Eq)]
pub struct VersionDocument {
    pub schema_version: u32,
    pub command: &'static str,
    pub version: String,
}

/// Makes the document of the program's version.
pub fn version_document(version: &str) -> (document: VersionDocument)
    ensures
        document.schema_version == SCHEMA_VERSION,
        document.command@ == "version"@,
        document.version@ == version@,
{
    VersionDocument { schema_version: SCHEMA_VERSION, command: "version", version: version.to_owned() }
}

/// A message of a kind: an error or a warning.
#[derive(Debug, PartialEq, Eq)]
pub struct NoticeDocument {
    pub schema_version: u32,
    pub kind: String,
    pub message: String,
}

/// Makes the document of an error.
pub fn error_document(kind: &str, message: &str) -> (document: NoticeDocument)
    ensures
        document.schema_version == SCHEMA_VERSION,
        document.kind@ == kind@,
        document.message@ == message@,
{
    NoticeDocument {
        schema_version: SCHEMA_VERSION,
        kind: kind.to_owned(),
        message: message.to_owned(),
    }
}

/// Makes the document of a warning.
pub fn warning_document(kind: &str, message: &str) -> (document: NoticeDocument)
    ensures
        document.schema_version == SCHEMA_VERSION,
        document.kind@ == kind@,
        document.message@ == message@,
{
    NoticeDocument {
        schema_version: SCHEMA_VERSION,
        kind: kind.to_owned(),
        message: message.to_owned(),
    }
}

/// What an event of the daemon carries.
#[derive(Debug, PartialEq, Eq)]
pub enum DaemonFields {
    PassStarted { pass_number: u64, trigger: String, mode: &'static str },
    Plan {
        pass_number: u64,
        pending_removals: usize,
        inventory: InventorySummary,
        items: Vec<PlanItem>,
    },
    Action { pass_number: u64, action: &'static str, outcome: OutcomeRecord },
    PassSummary {
        pass_number: u64,
        mode: &'static str,
        pending_removals: usize,
        result: ExecutionSummary,
    },
}

/// One event of the daemon.
#[derive(Debug, PartialEq, Eq)]
pub struct DaemonEvent {
    pub schema_version: u32,
    pub event: &'static str,
    pub timestamp: i64,
    pub fields: DaemonFields,
}

/// The name of an event.
pub open spec fn event_name(fields: DaemonFields) -> Seq<char> {
    match fields {
        DaemonFields::PassStarted { .. } => "pass_started"@,
        DaemonFields::Plan { .. } => "plan"@,
        DaemonFields::Action { .. } => "action"@,
        DaemonFields::PassSummary { .. } => "pass_summary"@,
    }
}

/// Makes an event of the daemon.
pub fn daemon_event(timestamp: i64, fields: DaemonFields) -> (event: DaemonEvent)
    ensures
        event.schema_version == SCHEMA_VERSION,
        event.event@ == event_name(fields),
        event.timestamp == timestamp,
        event.fields == fields,
{
    let name = match &fields {
        DaemonFields::PassStarted { .. } => "pass_started",
        DaemonFields::Plan { .. } => "plan",
        DaemonFields::Action { .. } => "action",
        DaemonFields::PassSummary { .. } => "pass_summary",
    };
    DaemonEvent { schema_version: SCHEMA_VERSION, event: name, timestamp, fields }
}

/// The word for how a pass runs.
pub open spec fn mode_text(applied: bool) -> Seq<char> {
    if applied {
        "apply"@
    } else {
        "dry-run"@
    }
}

fn mode_word(applied: bool) -> (word: &'static str)
    ensures
        word@ == mode_text(applied),
{
    if applied {
        "apply"
    } else {
        "dry-run"
    }
}

/// The event that opens a pass of the daemon.
pub fn daemon_pass_started_event(pass_number: u64, trigger: &str, applied: bool, timestamp: i64) -> (event:
    DaemonEvent)
    ensures
        event.schema_version == SCHEMA_VERSION,
        event.event@ == "pass_started"@,
        event.timestamp == timestamp,
        event.fields matches DaemonFields::PassStarted { pass_number: number, trigger: cause, mode }
            && number == pass_number && cause@ == trigger@ && mode@ == mode_text(applied),
{
    daemon_event(
        timestamp,
        DaemonFields::PassStarted {
            pass_number,
            trigger: trigger.to_owned(),
            mode: mode_word(applied),
        },
    )
}

/// What opens the events of a finished pass.
pub open spec fn tells_plan(event: DaemonEvent, pass_number: u64, timestamp: i64, decisions: Seq<DecisionView>) -> bool {
    &&& event.timestamp == timestamp
    &&& event.fields matches DaemonFields::Plan {
        pass_number: number,
        pending_removals,
        inventory,
        items,
    } && number == pass_number && pending_removals == removals_of(decisions).len() && sums_up(
        inventory,
        decisions,
    ) && views(items@) == items_of(decisions)
}

/// What tells of one action.
pub open spec fn tells_action(event: DaemonEvent, pass_number: u64, timestamp: i64, outcome: OutcomeView) -> bool {
    &&& event.timestamp == timestamp
    &&& event.fields matches DaemonFields::Action { pass_number: number, action, outcome: record }
        && number == pass_number && action@ == "remove"@ && record@ == record_of(outcome)
}

/// What closes the events of a finished pass.
pub open spec fn tells_summary(
    event: DaemonEvent,
    pass_number: u64,
    applied: bool,
    timestamp: i64,
    decisions: Seq<DecisionView>,
    outcomes: Seq<OutcomeView>,
) -> bool {
    &&& event.timestamp == timestamp
    &&& event.fields matches DaemonFields::PassSummary {
        pass_number: number,
        mode,
        pending_removals,
        result,
    } && number == pass_number && mode@ == mode_text(applied) && pending_removals == removals_of(
        decisions,
    ).len() && sums_outcomes(result, outcomes)
}

/// The outcomes of a report; none without one.
pub open spec fn reported(report: Option<&ExecutionReport>) -> Seq<OutcomeView> {
    match report {
        Some(given) => given@,
        None => Seq::empty(),
    }
}

/// The events that tell of a finished pass: the plan, each action, the sum.
pub fn daemon_pass_result_events(
    pass_number: u64,
    applied: bool,
    plan: &Plan,
    report: Option<&ExecutionReport>,
    timestamp: i64,
) -> (events: Vec<DaemonEvent>)
    ensures
        events@.len() == reported(report).len() + 2,
        tells_plan(events@[0], pass_number, timestamp, plan@),
        forall|i: int|
            0 <= i < reported(report).len() ==> tells_action(
                #[trigger] events@[i + 1],
                pass_number,
                timestamp,
                reported(report)[i],
            ),
        tells_summary(
            events@[events@.len() - 1],
            pass_number,
            applied,
            timestamp,
            plan@,
            reported(report),
        ),
        forall|i: int|
            0 <= i < events@.len() ==> (#[trigger] events@[i]).schema_version == SCHEMA_VERSION
                && events@[i].event@ == event_name(events@[i].fields),
{
    broadcast use group_views;

    let mut events: Vec<DaemonEvent> = Vec::new();
    events.push(
        daemon_event(
            timestamp,
            DaemonFields::Plan {
                pass_number,
                pending_removals: plan.pending_count(),
                inventory: inventory_summary(plan),
                items: plan_items(plan),
            },
        ),
    );
    let ghost outcomes = reported(report);
    if let Some(given) = report {
        let mut index: usize = 0;
        while index < given.outcomes.len()
            invariant
                index <= given.outcomes@.len(),
                outcomes == given@,
                given@ == views(given.outcomes@),
                events@.len() == index + 1,
                tells_plan(events@[0], pass_number, timestamp, plan@),
                forall|i: int|
                    0 <= i < index ==> tells_action(
                        #[trigger] events@[i + 1],
                        pass_number,
                        timestamp,
                        outcomes[i],
                    ),
                forall|i: int|
                    0 <= i < events@.len() ==> (#[trigger] events@[i]).schema_version
                        == SCHEMA_VERSION && events@[i].event@ == event_name(events@[i].fields),
            decreases given.outcomes@.len() - index,
        {
            let record = outcome_record(&given.outcomes[index]);
            assert(record@ == record_of(outcomes[index as int]));
            let event = daemon_event(
                timestamp,
                DaemonFields::Action { pass_number, action: "remove", outcome: record },
            );
            let ghost before = events@;
            events.push(event);
            assert forall|i: int| 0 <= i < index + 1 implies tells_action(
                #[trigger] events@[i + 1],
                pass_number,
                timestamp,
                outcomes[i],
            ) by {
                if i < index {
                    assert(events@[i + 1] == before[i + 1]);
                }
            }
            index += 1;
        }
    }
    let result = match report {
        Some(given) => execution_result(given),
        None => empty_result(),
    };
    let summary = daemon_event(
        timestamp,
        DaemonFields::PassSummary {
            pass_number,
            mode: mode_word(applied),
            pending_removals: plan.pending_count(),
            result,
        },
    );
    let ghost before = events@;
    events.push(summary);
    assert forall|i: int| 0 <= i < outcomes.len() implies tells_action(
        #[trigger] events@[i + 1],
        pass_number,
        timestamp,
        outcomes[i],
    ) by {
        assert(events@[i + 1] == before[i + 1]);
    }
    events
}

} // verus!
