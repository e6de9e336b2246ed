//! What applying a plan asks of Docker, what it makes of the answers, and how a
//! command ends.

use crate::command::{cleanup_result, cleanup_step, CleanupStep, RunOutcome};
use crate::config::{Config, LoadedConfig};
use crate::executor::{
    classify_delete_error, classify_prune_response, decision_on, delete_request, ordered_targets,
    pruned_ids, revalidate, revalidated, targets_of, unexpected_ids, Attempt, DeleteEffect,
    DeleteRequest, Execution, ExecutionReport, PruneResponse, RemovalTarget, TargetStatus,
};
use crate::order::{lemma_ranked_is_sorted_permutation, ranked, Ranked};
use crate::plan::{
    plan_for, removals_of, Action, Decision, DecisionView, Disposition, Plan, PlanContext,
};
use crate::policy::policy_fault;
use crate::resource::{InventoryItem, ResourceKind};
use crate::text::views;
use vstd::prelude::*;

verus! {

/// A deletion asks for the target itself: by its kind and its id, and by force
/// for nothing but a running container.
pub proof fn a_deletion_asks_for_its_target(target: Decision, request: DeleteRequest)
    requires
        call_ensures(delete_request, (&target,), request),
    ensures
        match request {
            DeleteRequest::Container { id, force } => {
                &&& target.resource.kind == ResourceKind::Container
                &&& id@ == target.resource.id@
                &&& force <==> target.resource@.state is Running
            },
            DeleteRequest::Image { id } => target.resource.kind == ResourceKind::Image && id@
                == target.resource.id@,
            DeleteRequest::Volume { id } => target.resource.kind == ResourceKind::Volume && id@
                == target.resource.id@,
            DeleteRequest::Network { id } => target.resource.kind == ResourceKind::Network && id@
                == target.resource.id@,
            DeleteRequest::BuildCache { id } => target.resource.kind == ResourceKind::BuildCache
                && id@ == target.resource.id@,
        },
{
}

proof fn lemma_unexpected(ids: Seq<Seq<char>>, target: Seq<char>)
    ensures
        unexpected_ids(ids, target).len() > 0 <==> exists|i: int|
            0 <= i < ids.len() && #[trigger] ids[i] != target,
    decreases ids.len(),
{
    if ids.len() > 0 {
        let rest = ids.drop_last();
        lemma_unexpected(rest, target);
        if exists|i: int| 0 <= i < rest.len() && #[trigger] rest[i] != target {
            let i = choose|i: int| 0 <= i < rest.len() && #[trigger] rest[i] != target;
            assert(ids[i] != target);
        }
        if exists|i: int| 0 <= i < ids.len() && #[trigger] ids[i] != target {
            let i = choose|i: int| 0 <= i < ids.len() && #[trigger] ids[i] != target;
            if i < rest.len() {
                assert(rest[i] != target);
            }
        }
        assert(ids[ids.len() - 1] == ids.last());
    }
}

/// The ids that Docker says it pruned.
pub open spec fn told_ids(response: PruneResponse) -> Seq<Seq<char>> {
    if response.caches_deleted is Some {
        views(response.caches_deleted->0@)
    } else {
        Seq::empty()
    }
}

/// A prune counts as a removal exactly when Docker names the record and nothing
/// else, as a failure exactly when it names another record, and is skipped when
/// it names none.
pub proof fn a_prune_must_name_its_record_alone(
    target: &str,
    response: PruneResponse,
    effect: DeleteEffect,
)
    requires
        call_ensures(classify_prune_response, (target, &response), effect),
    ensures
        ({
            let named = told_ids(response);
            &&& effect is Failed <==> exists|i: int|
                0 <= i < named.len() && #[trigger] named[i] != target@
            &&& effect is Removed <==> named.len() > 0 && forall|i: int|
                0 <= i < named.len() ==> #[trigger] named[i] == target@
            &&& effect is Skipped <==> named.len() == 0
        }),
{
    let named = pruned_ids(response);
    lemma_unexpected(named, target@);
    assert(named == told_ids(response));
    if named.len() > 0 && named[0] == target@ {
        assert(named.contains(target@));
    }
}

/// A failed request is skipped exactly where Docker says that the resource is
/// gone or in use, and its words are told.
pub proof fn a_failed_request_is_skipped_only_when_gone_or_in_use(
    status_code: Option<u16>,
    message: &str,
    classified: (TargetStatus, String),
)
    requires
        call_ensures(classify_delete_error, (status_code, message), classified),
    ensures
        classified.0 == TargetStatus::Skipped <==> status_code == Some(404u16) || status_code
            == Some(409u16),
        classified.0 != TargetStatus::Removed,
        message@.is_suffix_of(classified.1@),
{
    let words = "Docker deletion failed: "@;
    assert(message@ =~= (words + message@).subrange(
        words.len() as int,
        (words + message@).len() as int,
    ));
}

/// What is recorded of an attempt is recorded of the next target, under its own
/// kind, id, name and rule; it counts as removed only where Docker removed it, as
/// skipped where it was refused, skipped, gone or in use, and as failed else.
pub proof fn an_attempt_is_recorded_as_it_went(
    execution: Execution,
    attempt: Attempt,
    next: Execution,
)
    requires
        execution.outcomes().len() < execution.targets().len(),
        call_ensures(Execution::record, (execution, attempt), next),
    ensures
        ({
            let place = execution.outcomes().len() as int;
            let target = execution.targets()[place];
            let recorded = next.outcomes()[place];
            &&& next.targets() == execution.targets()
            &&& next.outcomes().len() == place + 1
            &&& forall|i: int|
                0 <= i < place ==> #[trigger] next.outcomes()[i] == execution.outcomes()[i]
            &&& recorded.kind == target.resource.kind
            &&& recorded.id == target.resource.id
            &&& recorded.name == target.resource.name
            &&& target.matched_rule is Some ==> recorded.matched_rule == target.matched_rule->0
            &&& recorded.status == TargetStatus::Removed <==> (match attempt {
                Attempt::Done(DeleteEffect::Removed(_)) => true,
                _ => false,
            })
            &&& recorded.status == TargetStatus::Skipped <==> (match attempt {
                Attempt::Refused(_) => true,
                Attempt::Done(DeleteEffect::Skipped(_)) => true,
                Attempt::Error { status_code, message: _ } => status_code == Some(404u16)
                    || status_code == Some(409u16),
                _ => false,
            })
        }),
{
}

/// Starting to apply a plan takes up exactly its removals, and nothing has an
/// outcome yet.
pub proof fn an_execution_takes_up_the_removals(plan: Plan, execution: Execution)
    requires
        call_ensures(Execution::start, (&plan,), execution),
    ensures
        execution.outcomes().len() == 0,
        execution.targets().to_multiset() == removals_of(views(plan.decisions@)).to_multiset(),
{
    crate::executor::targets_are_exactly_the_removals(views(plan.decisions@));
}

/// Targets are deleted kind by kind: containers first, then the images, the
/// volumes, the networks and the build cache.
pub proof fn targets_are_deleted_kind_by_kind(decisions: Seq<DecisionView>, i: int, j: int)
    requires
        0 <= i < j < ordered_targets(decisions).len(),
    ensures
        ({
            let first = ordered_targets(decisions)[i].resource.kind;
            let second = ordered_targets(decisions)[j].resource.kind;
            &&& second == ResourceKind::Container ==> first == ResourceKind::Container
            &&& second == ResourceKind::Image ==> first == ResourceKind::Container || first
                == ResourceKind::Image
            &&& second == ResourceKind::Volume ==> first == ResourceKind::Container || first
                == ResourceKind::Image || first == ResourceKind::Volume
            &&& second == ResourceKind::Network ==> first != ResourceKind::BuildCache
        }),
{
    let targets = targets_of(decisions);
    let sorted = ranked::<RemovalTarget>(targets);
    lemma_ranked_is_sorted_permutation::<RemovalTarget>(targets);
    assert(RemovalTarget::ranks(sorted[i], sorted[j]));
}

proof fn lemma_removals(decisions: Seq<DecisionView>, decision: DecisionView)
    ensures
        removals_of(decisions).contains(decision) <==> decisions.contains(decision)
            && decision.action == Action::Remove,
        removals_of(decisions).len() > 0 <==> exists|i: int|
            0 <= i < decisions.len() && (#[trigger] decisions[i]).action == Action::Remove,
    decreases decisions.len(),
{
    if decisions.len() > 0 {
        let rest = decisions.drop_last();
        let before = removals_of(rest);
        let last = decisions.last();
        let after = removals_of(decisions);
        lemma_removals(rest, decision);
        assert(decisions[decisions.len() - 1] == last);
        if decisions.contains(decision) {
            let i = choose|i: int| 0 <= i < decisions.len() && decisions[i] == decision;
            if i < rest.len() {
                assert(rest[i] == decision);
            }
        }
        if rest.contains(decision) {
            let i = choose|i: int| 0 <= i < rest.len() && rest[i] == decision;
            assert(decisions[i] == decision);
        }
        if last.action == Action::Remove {
            assert(after[before.len() as int] == last);
            if before.contains(decision) {
                let i = choose|i: int| 0 <= i < before.len() && before[i] == decision;
                assert(after[i] == decision);
            }
            if after.contains(decision) {
                let i = choose|i: int| 0 <= i < after.len() && after[i] == decision;
                if i < before.len() {
                    assert(before[i] == decision);
                }
            }
        }
        if exists|i: int| 0 <= i < rest.len() && (#[trigger] rest[i]).action == Action::Remove {
            let i = choose|i: int|
                0 <= i < rest.len() && (#[trigger] rest[i]).action == Action::Remove;
            assert(decisions[i].action == Action::Remove);
        }
        if exists|i: int| 0 <= i < decisions.len() && (#[trigger] decisions[i]).action
            == Action::Remove {
            let i = choose|i: int|
                0 <= i < decisions.len() && (#[trigger] decisions[i]).action == Action::Remove;
            if i < rest.len() {
                assert(rest[i].action == Action::Remove);
            }
        }
    }
}

/// The removals of a plan are its decisions to remove, and a plan has some
/// exactly when a decision removes.
pub proof fn removals_are_the_decisions_to_remove(
    decisions: Seq<DecisionView>,
    decision: DecisionView,
)
    ensures
        removals_of(decisions).contains(decision) <==> decisions.contains(decision)
            && decision.action == Action::Remove,
        removals_of(decisions).len() > 0 <==> exists|i: int|
            0 <= i < decisions.len() && (#[trigger] decisions[i]).action == Action::Remove,
{
    lemma_removals(decisions, decision);
}

/// What a plan counts as pending is what it removes.
pub proof fn pending_means_to_be_removed(plan: Plan, count: usize, pending: bool)
    requires
        call_ensures(Plan::pending_count, (&plan,), count),
        call_ensures(Plan::has_pending_removals, (&plan,), pending),
    ensures
        count == removals_of(views(plan.decisions@)).len(),
        pending <==> exists|i: int|
            0 <= i < plan.decisions@.len() && (#[trigger] views(plan.decisions@)[i]).action
                == Action::Remove,
{
    lemma_removals(views(plan.decisions@), arbitrary());
}

proof fn lemma_decision_is_first(
    decisions: Seq<DecisionView>,
    kind: ResourceKind,
    id: Seq<char>,
    place: int,
)
    requires
        0 <= place < decisions.len(),
        decisions[place].resource.kind == kind,
        decisions[place].resource.id == id,
        forall|i: int|
            0 <= i < decisions.len() && i != place ==> (#[trigger] decisions[i]).resource.kind
                != kind || decisions[i].resource.id != id,
    ensures
        decision_on(decisions, kind, id) == Some(decisions[place]),
    decreases decisions.len(),
{
    if place > 0 {
        let rest = decisions.drop_first();
        assert(decisions[0].resource.kind != kind || decisions[0].resource.id != id);
        assert(rest[place - 1] == decisions[place]);
        assert forall|i: int| 0 <= i < rest.len() && i != place - 1 implies (
        #[trigger] rest[i]).resource.kind != kind || rest[i].resource.id != id by {
            assert(rest[i] == decisions[i + 1]);
        }
        lemma_decision_is_first(rest, kind, id, place - 1);
    }
}

proof fn lemma_no_decision(decisions: Seq<DecisionView>, kind: ResourceKind, id: Seq<char>)
    requires
        forall|i: int|
            0 <= i < decisions.len() ==> (#[trigger] decisions[i]).resource.kind != kind
                || decisions[i].resource.id != id,
    ensures
        decision_on(decisions, kind, id) is None,
    decreases decisions.len(),
{
    if decisions.len() > 0 {
        let rest = decisions.drop_first();
        assert(decisions[0].resource.kind != kind || decisions[0].resource.id != id);
        assert forall|i: int| 0 <= i < rest.len() implies (#[trigger] rest[i]).resource.kind != kind
            || rest[i].resource.id != id by {
            assert(rest[i] == decisions[i + 1]);
        }
        lemma_no_decision(rest, kind, id);
    }
}

/// A target that stands once in a fresh plan is confirmed exactly when that plan
/// removes it under the same rule and on the same footing; one that does not
/// stand there is not.
pub proof fn a_target_is_confirmed_by_a_fresh_plan(
    target: DecisionView,
    current: Seq<DecisionView>,
    place: int,
)
    requires
        forall|i: int|
            0 <= i < current.len() && i != place ==> (#[trigger] current[i]).resource.kind
                != target.resource.kind || current[i].resource.id != target.resource.id,
    ensures
        ({
            let stands = 0 <= place < current.len() && current[place].resource.kind
                == target.resource.kind && current[place].resource.id == target.resource.id;
            &&& revalidated(target, current) is Ok <==> stands && current[place].action
                == Action::Remove && current[place].disposition == target.disposition
                && current[place].matched_rule == target.matched_rule
            &&& revalidated(target, current) is Ok ==> revalidated(target, current)->Ok_0
                == current[place]
        }),
{
    let kind = target.resource.kind;
    let id = target.resource.id;
    if 0 <= place < current.len() && current[place].resource.kind == kind
        && current[place].resource.id == id {
        lemma_decision_is_first(current, kind, id, place);
    } else {
        lemma_no_decision(current, kind, id);
    }
}

/// Nothing is deleted under a configuration that has changed since the plan was
/// made, or that no longer compiles; else the fresh plan decides.
pub proof fn a_deletion_is_confirmed_under_the_same_configuration<'a>(
    initial_config: Config,
    initial_source: &str,
    target: Decision,
    loaded: LoadedConfig,
    inventory: Vec<InventoryItem>,
    now: i64,
    context: PlanContext<'a>,
    outcome: Result<Decision, String>,
)
    requires
        call_ensures(
            revalidate,
            (&initial_config, initial_source, &target, &loaded, inventory, now, &context),
            outcome,
        ),
    ensures
        outcome is Ok ==> {
            &&& loaded.source@ == initial_source@
            &&& loaded.config@ == initial_config@
            &&& policy_fault(loaded.config@) is None
            &&& outcome->Ok_0@.action == Action::Remove
            &&& outcome->Ok_0@.resource.kind == target@.resource.kind
            &&& outcome->Ok_0@.resource.id == target@.resource.id
            &&& outcome->Ok_0@.matched_rule == target@.matched_rule
            &&& outcome->Ok_0@.disposition == target@.disposition
            &&& plan_for(loaded.config@, views(inventory@), now, context@).contains(
                outcome->Ok_0@,
            )
        },
        loaded.source@ == initial_source@ && loaded.config@ == initial_config@ && policy_fault(
            loaded.config@,
        ) is None ==> (outcome is Ok <==> revalidated(
            target@,
            plan_for(loaded.config@, views(inventory@), now, context@),
        ) is Ok),
{
    if outcome is Ok {
        crate::executor::confirmation_only_shrinks_a_plan(
            target@,
            plan_for(loaded.config@, views(inventory@), now, context@),
            outcome->Ok_0@,
        );
    }
}

/// Only a cleanup that was told to apply applies anything, and only where there
/// is something to remove; what is shown instead says whether removals are
/// pending.
pub proof fn only_an_asked_cleanup_applies(
    clean_command: bool,
    apply: bool,
    plan: Plan,
    step: CleanupStep,
)
    requires
        call_ensures(cleanup_step, (clean_command, apply, &plan), step),
    ensures
        ({
            let removes = exists|i: int|
                0 <= i < plan.decisions@.len() && (#[trigger] views(plan.decisions@)[i]).action
                    == Action::Remove;
            match step {
                CleanupStep::Apply { warning, execute } => {
                    &&& clean_command && apply
                    &&& execute <==> removes
                },
                CleanupStep::Show { output, outcome } => {
                    &&& !clean_command || !apply
                    &&& outcome == RunOutcome::PendingRemovals <==> removes
                    &&& outcome == RunOutcome::Success <==> !removes
                },
            }
        }),
{
    lemma_removals(views(plan.decisions@), arbitrary());
}

/// Applying warns exactly where a removal is authorized beyond what rules own.
pub proof fn applying_warns_of_unscoped_removals(plan: Plan, step: CleanupStep)
    requires
        call_ensures(cleanup_step, (true, true, &plan), step),
    ensures
        step matches CleanupStep::Apply { warning, execute } && (warning is Some <==> exists|i: int|
            0 <= i < plan.decisions@.len() && (#[trigger] views(plan.decisions@)[i]).action
                == Action::Remove && views(plan.decisions@)[i].disposition
                == Disposition::AuthorizedUnscoped),
{
    lemma_unscoped(views(plan.decisions@));
}

proof fn lemma_unscoped(decisions: Seq<DecisionView>)
    ensures
        crate::command::unscoped_removals(decisions) > 0 <==> exists|i: int|
            0 <= i < decisions.len() && (#[trigger] decisions[i]).action == Action::Remove
                && decisions[i].disposition == Disposition::AuthorizedUnscoped,
    decreases decisions.len(),
{
    if decisions.len() > 0 {
        let rest = decisions.drop_last();
        let last = decisions[decisions.len() - 1];
        lemma_unscoped(rest);
        assert(removals_of(rest).push(last).drop_last() =~= removals_of(rest));
        if exists|i: int|
            0 <= i < rest.len() && (#[trigger] rest[i]).action == Action::Remove
                && rest[i].disposition == Disposition::AuthorizedUnscoped {
            let i = choose|i: int|
                0 <= i < rest.len() && (#[trigger] rest[i]).action == Action::Remove
                    && rest[i].disposition == Disposition::AuthorizedUnscoped;
            assert(decisions[i] == rest[i]);
        }
        if exists|i: int|
            0 <= i < decisions.len() && (#[trigger] decisions[i]).action == Action::Remove
                && decisions[i].disposition == Disposition::AuthorizedUnscoped {
            let i = choose|i: int|
                0 <= i < decisions.len() && (#[trigger] decisions[i]).action == Action::Remove
                    && decisions[i].disposition == Disposition::AuthorizedUnscoped;
            if i < rest.len() {
                assert(decisions[i] == rest[i]);
            }
        }
    }
}

/// An applied cleanup succeeds exactly when every target was removed.
pub proof fn a_cleanup_succeeds_when_everything_went(
    plan: Plan,
    report: ExecutionReport,
    result: (String, RunOutcome),
)
    requires
        call_ensures(cleanup_result, (&plan, &report), result),
    ensures
        result.1 == RunOutcome::Success <==> forall|i: int|
            0 <= i < report@.len() ==> (#[trigger] report@[i]).status == TargetStatus::Removed,
        result.1 == RunOutcome::Success || result.1 == RunOutcome::PartialFailure,
{
}

} // verus!
