//! What the machine documents say, said of the decisions and the outcomes.

use crate::activity::{rule_counts, CompletedPass};
use crate::chronicle::{how_many, how_many_by, lemma_by_rule, lemma_how_many, lemma_partition, word_of};
use crate::executor::{ExecutionReport, OutcomeView, TargetStatus};
use crate::machine::{
    a_tally_counts_occurrences, completed_pass, decided_dispositions, decided_kinds, disk_usage,
    daemon_pass_result_events, execution_result, inventory_summary, names_of, occurrences, plan_items, rule_health,
    size_tally, sized_kinds, unknown_sizes, DaemonEvent, DaemonFields, DiskUsage, ExecutionSummary, InventorySummary,
    OutcomeRecordView, PassRecord, PlanItem, PlanItemView, RuleHealth, RuleHealthView,
};
use crate::plan::{removals_of, Action, DecisionView, Disposition, Plan};
use crate::preview::decided_sizes;
use crate::resource::{ResourceKind, ResourceStateView};
use crate::surveying::{counted, lemma_sum, lemma_words, sum_of, word_for};
use crate::text::views;
use crate::text_map::{has_key, key_index, keys_ascend, lemma_put, value_of};
use crate::unique::{lemma_ordered_once, ordered_once};
use vstd::prelude::*;

verus! {

/// The word for what is done with a resource.
pub open spec fn word_for_action(action: Action) -> Seq<char> {
    match action {
        Action::Remove => "remove"@,
        Action::Keep => "keep"@,
    }
}

/// The word for a footing.
pub open spec fn word_for_disposition(disposition: Disposition) -> Seq<char> {
    match disposition {
        Disposition::Protected => "protected"@,
        Disposition::Owned => "owned"@,
        Disposition::AuthorizedUnscoped => "authorized-unscoped"@,
        Disposition::Unowned => "unowned"@,
    }
}

proof fn lemma_disposition_words(left: Disposition, right: Disposition)
    ensures
        word_for_disposition(left) == word_for_disposition(right) ==> left == right,
{
    reveal_strlit("protected");
    reveal_strlit("owned");
    reveal_strlit("authorized-unscoped");
    reveal_strlit("unowned");
    assert(word_for_disposition(left)[0] == word_for_disposition(right)[0] ==> left == right);
}

/// How many decisions are on resources of a kind.
pub open spec fn how_many_of_kind(decisions: Seq<DecisionView>, kind: ResourceKind) -> nat
    decreases decisions.len(),
{
    if decisions.len() == 0 {
        0
    } else {
        how_many_of_kind(decisions.drop_last(), kind) + (if decisions.last().resource.kind == kind {
            1nat
        } else {
            0
        })
    }
}

/// How many decisions stand on a footing.
pub open spec fn how_many_so(decisions: Seq<DecisionView>, disposition: Disposition) -> nat
    decreases decisions.len(),
{
    if decisions.len() == 0 {
        0
    } else {
        how_many_so(decisions.drop_last(), disposition) + (if decisions.last().disposition
            == disposition {
            1nat
        } else {
            0
        })
    }
}

/// How many decisions are removals.
pub open spec fn how_many_removed(decisions: Seq<DecisionView>) -> nat
    decreases decisions.len(),
{
    if decisions.len() == 0 {
        0
    } else {
        how_many_removed(decisions.drop_last()) + (if decisions.last().action == Action::Remove {
            1nat
        } else {
            0
        })
    }
}

/// There are as many removals as decisions to remove.
pub proof fn lemma_removed(decisions: Seq<DecisionView>)
    ensures
        removals_of(decisions).len() == how_many_removed(decisions),
    decreases decisions.len(),
{
    if decisions.len() > 0 {
        lemma_removed(decisions.drop_last());
    }
}

proof fn lemma_kinds(decisions: Seq<DecisionView>, kind: ResourceKind)
    ensures
        occurrences(decided_kinds(decisions), word_for(kind)) == how_many_of_kind(decisions, kind),
        how_many_of_kind(decisions, kind) <= decisions.len(),
    decreases decisions.len(),
{
    if decisions.len() > 0 {
        let less = decisions.drop_last();
        lemma_kinds(less, kind);
        assert(decided_kinds(decisions).drop_last() =~= decided_kinds(less));
        lemma_words(decisions.last().resource.kind, kind);
        assert(decided_kinds(decisions).last() == word_for(decisions.last().resource.kind));
    }
}

proof fn lemma_dispositions(decisions: Seq<DecisionView>, disposition: Disposition)
    ensures
        occurrences(decided_dispositions(decisions), word_for_disposition(disposition))
            == how_many_so(decisions, disposition),
        how_many_so(decisions, disposition) <= decisions.len(),
    decreases decisions.len(),
{
    if decisions.len() > 0 {
        let less = decisions.drop_last();
        lemma_dispositions(less, disposition);
        assert(decided_dispositions(decisions).drop_last() =~= decided_dispositions(less));
        lemma_disposition_words(decisions.last().disposition, disposition);
        assert(decided_dispositions(decisions).last() == word_for_disposition(
            decisions.last().disposition,
        ));
    }
}

/// A count under a word, none where there is nothing to count.
pub open spec fn is_count(found: Option<u64>, count: nat) -> bool {
    if count == 0 {
        found is None
    } else {
        found is Some && found->0 == count
    }
}

/// The inventory of a document counts the decisions, the removals, and the
/// resources of every kind and on every footing.
pub proof fn a_document_counts_the_decisions(
    plan: Plan,
    summary: InventorySummary,
    kind: ResourceKind,
    disposition: Disposition,
)
    requires
        call_ensures(inventory_summary, (&plan,), summary),
    ensures
        summary.total == plan@.len(),
        summary.pending_removals == how_many_removed(plan@),
        is_count(
            value_of(summary.by_resource_kind@, word_for(kind)),
            how_many_of_kind(plan@, kind),
        ),
        is_count(
            value_of(summary.by_disposition@, word_for_disposition(disposition)),
            how_many_so(plan@, disposition),
        ),
{
    assert(plan.decisions.len() == plan@.len());
    lemma_removed(plan@);
    lemma_kinds(plan@, kind);
    lemma_dispositions(plan@, disposition);
    a_tally_counts_occurrences(decided_kinds(plan@), word_for(kind));
    a_tally_counts_occurrences(decided_dispositions(plan@), word_for_disposition(disposition));
}

/// The sizes that are known of resources of a kind.
pub open spec fn sum_of_kind(decisions: Seq<DecisionView>, kind: ResourceKind) -> nat
    decreases decisions.len(),
{
    if decisions.len() == 0 {
        0
    } else {
        sum_of_kind(decisions.drop_last(), kind) + (if decisions.last().resource.kind == kind
            && decisions.last().resource.size is Some {
            decisions.last().resource.size->0 as nat
        } else {
            0
        })
    }
}

/// Whether the size of some resource of a kind is known.
pub open spec fn some_known(decisions: Seq<DecisionView>, kind: ResourceKind) -> bool
    decreases decisions.len(),
{
    decisions.len() > 0 && (some_known(decisions.drop_last(), kind) || decisions.last().resource.kind
        == kind && decisions.last().resource.size is Some)
}

/// How many resources have a size that is not known.
pub open spec fn how_many_unknown(decisions: Seq<DecisionView>) -> nat
    decreases decisions.len(),
{
    if decisions.len() == 0 {
        0
    } else {
        how_many_unknown(decisions.drop_last()) + (if decisions.last().resource.size is None {
            1nat
        } else {
            0
        })
    }
}

proof fn lemma_unknown(decisions: Seq<DecisionView>)
    ensures
        unknown_sizes(decided_sizes(decisions)) == how_many_unknown(decisions),
    decreases decisions.len(),
{
    if decisions.len() > 0 {
        lemma_unknown(decisions.drop_last());
        assert(decided_sizes(decisions).drop_last() =~= decided_sizes(decisions.drop_last()));
        assert(decided_sizes(decisions).last() == decisions.last().resource.size);
    }
}

proof fn lemma_by_kind(decisions: Seq<DecisionView>, kind: ResourceKind)
    ensures
        keys_ascend(size_tally(sized_kinds(decisions))),
        match value_of(size_tally(sized_kinds(decisions)), word_for(kind)) {
            Some(total) => some_known(decisions, kind) && total == counted(
                sum_of_kind(decisions, kind),
            ),
            None => !some_known(decisions, kind) && sum_of_kind(decisions, kind) == 0,
        },
    decreases decisions.len(),
{
    let list = sized_kinds(decisions);
    if decisions.len() > 0 {
        let less = decisions.drop_last();
        let last = decisions.last();
        let before = size_tally(sized_kinds(less));
        lemma_by_kind(less, kind);
        lemma_by_kind(less, last.resource.kind);
        lemma_words(last.resource.kind, kind);
        assert(list.drop_last() =~= sized_kinds(less));
        assert(list.last() == (word_for(last.resource.kind), last.resource.size));
        if let Some(size) = last.resource.size {
            let value = match value_of(before, word_for(last.resource.kind)) {
                Some(total) => if total + size <= u64::MAX {
                    (total + size) as u64
                } else {
                    u64::MAX
                },
                None => size,
            };
            lemma_put(before, word_for(last.resource.kind), value, word_for(kind));
        }
    } else {
        assert(!has_key(size_tally(list), word_for(kind)));
    }
}

/// The disk usage of a document adds up the sizes that are known, in all and of
/// every kind, and counts those that are not.
pub proof fn a_document_adds_up_the_sizes(plan: Plan, usage: DiskUsage, kind: ResourceKind)
    requires
        call_ensures(disk_usage, (&plan,), usage),
    ensures
        usage.known_bytes == counted(
            sum_of(plan@.map_values(|decision: DecisionView| decision.resource.size)),
        ),
        usage.unknown_size_items == how_many_unknown(plan@),
        match value_of(usage.by_resource_kind@, word_for(kind)) {
            Some(total) => some_known(plan@, kind) && total == counted(sum_of_kind(plan@, kind)),
            None => !some_known(plan@, kind),
        },
{
    lemma_unknown(plan@);
    lemma_by_kind(plan@, kind);
    lemma_sum(decided_sizes(plan@));
    assert(decided_sizes(plan@) =~= plan@.map_values(
        |decision: DecisionView| decision.resource.size,
    ));
}

/// Whether an entry of a document tells of a decision.
pub open spec fn tells(item: PlanItemView, decision: DecisionView) -> bool {
    &&& item.resource_kind == word_for(decision.resource.kind)
    &&& item.id == decision.resource.id
    &&& item.name == decision.resource.name
    &&& item.disposition == word_for_disposition(decision.disposition)
    &&& item.action == word_for_action(decision.action)
    &&& item.matched_rule == decision.matched_rule
    &&& item.age_seconds == decision.age_seconds
    &&& item.size_bytes == decision.resource.size
    &&& item.labels == decision.resource.labels
    &&& item.mounts == decision.resource.mounts
    &&& item.referenced == decision.resource.referenced
    &&& item.dangling == decision.resource.dangling
    &&& item.system == decision.resource.system
    &&& item.reason == decision.reason
    &&& decision.resource.state is Running ==> item.state == "running"@
    &&& decision.resource.state is Stopped ==> item.state == "stopped"@
    &&& decision.resource.state is Available ==> item.state == "available"@
    &&& match decision.resource.state {
        ResourceStateView::Other(words) => item.state == words,
        _ => true,
    }
}

/// A document lists every decision in its turn.
pub proof fn a_document_lists_every_decision(plan: Plan, items: Vec<PlanItem>)
    requires
        call_ensures(plan_items, (&plan,), items),
    ensures
        items@.len() == plan@.len(),
        forall|i: int| 0 <= i < plan@.len() ==> tells(#[trigger] views(items@)[i], plan@[i]),
{
    assert(views(items@).len() == items@.len());
}

/// Whether a record of a document tells of an outcome.
pub open spec fn tells_outcome(record: OutcomeRecordView, outcome: OutcomeView) -> bool {
    &&& record.resource_kind == word_for(outcome.kind)
    &&& record.id == outcome.id
    &&& record.name == outcome.name
    &&& record.matched_rule == outcome.matched_rule
    &&& record.status == word_of(outcome.status)
    &&& record.detail == outcome.detail
}

/// The result of a document counts how the targets went and lists every outcome.
pub proof fn a_document_lists_every_outcome(report: ExecutionReport, summary: ExecutionSummary)
    requires
        call_ensures(execution_result, (&report,), summary),
    ensures
        summary.removed == how_many(report@, TargetStatus::Removed),
        summary.skipped == how_many(report@, TargetStatus::Skipped),
        summary.failed == how_many(report@, TargetStatus::Failed),
        summary.removed + summary.skipped + summary.failed == report@.len(),
        summary.outcomes@.len() == report@.len(),
        forall|i: int|
            0 <= i < report@.len() ==> tells_outcome(
                #[trigger] views(summary.outcomes@)[i],
                report@[i],
            ),
{
    lemma_how_many(report@, TargetStatus::Removed);
    lemma_how_many(report@, TargetStatus::Skipped);
    lemma_how_many(report@, TargetStatus::Failed);
    lemma_partition(report@);
    assert(views(summary.outcomes@).len() == summary.outcomes@.len());
}

/// Whether the health of a rule is told: how often it decides now and did before,
/// regressed where it decided before and does not now.
pub open spec fn is_health(health: RuleHealthView, now: nat, before: nat) -> bool {
    &&& health.current_match_count == now
    &&& health.previous_match_count == before
    &&& health.health == if before > 0 && now == 0 {
        "regressed"@
    } else {
        "healthy"@
    }
}

/// How often a rule decided in the last pass.
pub open spec fn decided_before(last: Option<&CompletedPass>, rule: Seq<char>) -> nat {
    match last {
        Some(pass) => match value_of(pass@.rule_match_counts, rule) {
            Some(count) => count as nat,
            None => 0,
        },
        None => 0,
    }
}

proof fn lemma_names(counts: Seq<(Seq<char>, u64)>, rule: Seq<char>)
    ensures
        names_of(counts).contains(rule) <==> value_of(counts, rule) is Some,
{
    if names_of(counts).contains(rule) {
        let i = choose|i: int| 0 <= i < counts.len() && names_of(counts)[i] == rule;
        assert(counts[i].0 == rule);
    }
    if value_of(counts, rule) is Some {
        let i = key_index(counts, rule);
        assert(has_key(counts, rule));
        assert(names_of(counts)[i] == rule);
    }
}

/// Whether health is told of a rule.
pub open spec fn has_health(health: Seq<RuleHealthView>, rule: Seq<char>) -> bool {
    exists|h: int| 0 <= h < health.len() && (#[trigger] health[h]).rule == rule
}

/// Health is told of every rule that decides now, and of every rule that decided
/// before, each as it is.
pub proof fn every_rule_is_compared_with_the_last_pass(
    plan: Plan,
    last: Option<&CompletedPass>,
    health: Vec<RuleHealth>,
    rule: Seq<char>,
)
    requires
        call_ensures(rule_health, (&plan, last), health),
    ensures
        forall|h: int|
            0 <= h < health@.len() ==> is_health(
                #[trigger] views(health@)[h],
                how_many_by(plan@, views(health@)[h].rule),
                decided_before(last, views(health@)[h].rule),
            ),
        how_many_by(plan@, rule) > 0 || decided_before(last, rule) > 0 ==> has_health(
            views(health@),
            rule,
        ),
{
    assert(plan.decisions.len() == plan@.len());
    let current = rule_counts(plan@);
    let previous = match last {
        Some(pass) => pass@.rule_match_counts,
        None => Seq::empty(),
    };
    let listed = names_of(current) + names_of(previous);
    let names = ordered_once::<String>(listed);
    let told = views(health@);
    lemma_ordered_once::<String>(listed);
    assert(last is None ==> previous.len() == 0);
    assert forall|h: int| 0 <= h < told.len() implies is_health(
        #[trigger] told[h],
        how_many_by(plan@, told[h].rule),
        decided_before(last, told[h].rule),
    ) by {
        lemma_by_rule(plan@, told[h].rule);
        assert(told[h].rule == names[h]);
    }
    lemma_by_rule(plan@, rule);
    lemma_names(current, rule);
    lemma_names(previous, rule);
    if how_many_by(plan@, rule) > 0 || decided_before(last, rule) > 0 {
        if names_of(current).contains(rule) {
            let i = choose|i: int| 0 <= i < current.len() && names_of(current)[i] == rule;
            assert(listed[i] == rule);
        } else {
            let i = choose|i: int| 0 <= i < previous.len() && names_of(previous)[i] == rule;
            assert(listed[names_of(current).len() + i] == rule);
        }
        assert(listed.contains(rule));
        assert(names.contains(rule));
        let h = choose|h: int| 0 <= h < names.len() && names[h] == rule;
        assert(told[h].rule == rule);
    }
}

/// A completed pass stands in a document with its own numbers.
pub proof fn a_document_keeps_the_numbers_of_a_pass(pass: CompletedPass, record: PassRecord)
    requires
        call_ensures(completed_pass, (&pass,), record),
    ensures
        record.pass_id@ == pass@.pass_id,
        record.source@ == pass@.source,
        record.started_at == pass@.started_at,
        record.completed_at == pass@.completed_at,
        record.removed == pass@.removed_count,
        record.skipped == pass@.skipped_count,
        record.failed == pass@.failure_count,
        record.reclaimed_bytes == pass@.reclaimed_bytes,
        record.rule_match_counts@ == pass@.rule_match_counts,
        record.config_hash@ == pass@.config_hash,
{
}

/// Whether an event of the daemon opens the telling of a pass.
pub open spec fn opens_with_plan(event: DaemonEvent, pass_number: u64, plan: Plan) -> bool {
    match event.fields {
        DaemonFields::Plan { pass_number: number, pending_removals, inventory, items } => {
            &&& number == pass_number
            &&& pending_removals == how_many_removed(plan@)
            &&& inventory.total == plan@.len()
            &&& items@.len() == plan@.len()
            &&& forall|i: int|
                0 <= i < plan@.len() ==> tells(#[trigger] views(items@)[i], plan@[i])
        },
        _ => false,
    }
}

/// Whether an event of the daemon tells of an outcome.
pub open spec fn tells_of_outcome(
    event: DaemonEvent,
    pass_number: u64,
    outcome: OutcomeView,
) -> bool {
    match event.fields {
        DaemonFields::Action { pass_number: number, action, outcome: record } => {
            &&& number == pass_number
            &&& action@ == "remove"@
            &&& tells_outcome(record@, outcome)
        },
        _ => false,
    }
}

/// Whether an event of the daemon closes the telling of a pass.
pub open spec fn closes_with_sum(
    event: DaemonEvent,
    pass_number: u64,
    applied: bool,
    plan: Plan,
    outcomes: Seq<OutcomeView>,
) -> bool {
    match event.fields {
        DaemonFields::PassSummary { pass_number: number, mode, pending_removals, result } => {
            &&& number == pass_number
            &&& mode@ == if applied {
                "apply"@
            } else {
                "dry-run"@
            }
            &&& pending_removals == how_many_removed(plan@)
            &&& result.removed == how_many(outcomes, TargetStatus::Removed)
            &&& result.skipped == how_many(outcomes, TargetStatus::Skipped)
            &&& result.failed == how_many(outcomes, TargetStatus::Failed)
        },
        _ => false,
    }
}

/// The daemon tells of a pass by its plan, then by every outcome in its turn, then
/// by the sum.
pub proof fn the_daemon_tells_of_every_outcome(
    pass_number: u64,
    applied: bool,
    plan: Plan,
    report: ExecutionReport,
    timestamp: i64,
    events: Vec<DaemonEvent>,
)
    requires
        call_ensures(
            daemon_pass_result_events,
            (pass_number, applied, &plan, Some(&report), timestamp),
            events,
        ),
    ensures
        events@.len() == report@.len() + 2,
        opens_with_plan(events@[0], pass_number, plan),
        forall|i: int|
            0 <= i < report@.len() ==> tells_of_outcome(
                #[trigger] events@[i + 1],
                pass_number,
                report@[i],
            ),
        closes_with_sum(events@[events@.len() - 1], pass_number, applied, plan, report@),
{
    lemma_removed(plan@);
    lemma_how_many(report@, TargetStatus::Removed);
    lemma_how_many(report@, TargetStatus::Skipped);
    lemma_how_many(report@, TargetStatus::Failed);
    match events@[0].fields {
        DaemonFields::Plan { items, .. } => {
            assert(views(items@).len() == items@.len());
        },
        _ => {},
    }
}

} // verus!
