//! What the journal records of a pass and reads back, said of the outcomes and the
//! events.

use crate::activity::{
    freed_by, freed_bytes, last_summary, pass_actions, pass_of, pass_start, passes_closed,
    removal_on, rule_counts, ActivityEvent, ActivityJournal, ActivityPass, CompletedPass,
    CompletedPassView, EventDataView, EventView,
};
use crate::executor::{status_count, ExecutionReport, OutcomeView, TargetStatus};
use crate::order::{in_rank_order, lemma_ranked_is_sorted_permutation, ranked};
use crate::plan::{Action, DecisionView, Plan};
use crate::resource::ResourceKind;
use crate::surveying::word_for;
use crate::text::views;
use crate::text_map::{has_key, keys_ascend, lemma_put, value_of};
use vstd::prelude::*;

verus! {

/// The word for how a target went.
pub open spec fn word_of(status: TargetStatus) -> Seq<char> {
    match status {
        TargetStatus::Removed => "removed"@,
        TargetStatus::Skipped => "skipped"@,
        TargetStatus::Failed => "failed"@,
    }
}

/// Whether a decision removes a resource.
pub open spec fn removes(decision: DecisionView, kind: ResourceKind, id: Seq<char>) -> bool {
    decision.action == Action::Remove && decision.resource.kind == kind && decision.resource.id
        == id
}

/// Whether some decision removes a resource.
pub open spec fn is_removed(decisions: Seq<DecisionView>, kind: ResourceKind, id: Seq<char>) -> bool {
    exists|d: int| 0 <= d < decisions.len() && removes(#[trigger] decisions[d], kind, id)
}

/// Whether some decision removes a resource of an age and a size.
pub open spec fn is_removed_so(
    decisions: Seq<DecisionView>,
    kind: ResourceKind,
    id: Seq<char>,
    age: Option<u64>,
    size: Option<u64>,
) -> bool {
    exists|d: int|
        0 <= d < decisions.len() && removes(#[trigger] decisions[d], kind, id)
            && decisions[d].age_seconds == age && decisions[d].resource.size == size
}

/// Whether an event records how a target of a plan went: what it is, the rule, the
/// age from the plan, and the bytes that its removal freed.
pub open spec fn records(
    event: EventView,
    decisions: Seq<DecisionView>,
    outcome: OutcomeView,
) -> bool {
    match event.data {
        EventDataView::Action {
            action,
            resource_kind,
            resource_id,
            resource_name,
            matched_rule,
            age_seconds,
            freed_bytes,
            detail,
        } => {
            &&& action == word_of(outcome.status)
            &&& resource_kind == word_for(outcome.kind)
            &&& resource_id == outcome.id
            &&& resource_name == outcome.name
            &&& matched_rule == outcome.matched_rule
            &&& detail == outcome.detail
            &&& outcome.status != TargetStatus::Removed ==> freed_bytes == 0
            &&& if is_removed(decisions, outcome.kind, outcome.id) {
                ||| outcome.status != TargetStatus::Removed && exists|size: Option<u64>|
                    is_removed_so(decisions, outcome.kind, outcome.id, age_seconds, size)
                ||| outcome.status == TargetStatus::Removed && is_removed_so(
                    decisions,
                    outcome.kind,
                    outcome.id,
                    age_seconds,
                    Some(freed_bytes),
                )
                ||| outcome.status == TargetStatus::Removed && freed_bytes == 0 && is_removed_so(
                    decisions,
                    outcome.kind,
                    outcome.id,
                    age_seconds,
                    None,
                )
            } else {
                age_seconds is None && freed_bytes == 0
            }
        },
        _ => false,
    }
}

/// How many outcomes have a status.
pub open spec fn how_many(outcomes: Seq<OutcomeView>, status: TargetStatus) -> nat
    decreases outcomes.len(),
{
    if outcomes.len() == 0 {
        0
    } else {
        how_many(outcomes.drop_first(), status) + (if outcomes[0].status == status {
            1nat
        } else {
            0
        })
    }
}

/// How many decisions go by a rule.
pub open spec fn how_many_by(decisions: Seq<DecisionView>, rule: Seq<char>) -> nat
    decreases decisions.len(),
{
    if decisions.len() == 0 {
        0
    } else {
        how_many_by(decisions.drop_last(), rule) + (if decisions.last().matched_rule == Some(rule) {
            1nat
        } else {
            0
        })
    }
}

/// The bytes that events say were freed.
pub open spec fn bytes_freed(events: Seq<EventView>) -> nat
    decreases events.len(),
{
    if events.len() == 0 {
        0
    } else {
        bytes_freed(events.drop_last()) + (match events.last().data {
            EventDataView::Action { freed_bytes, .. } => freed_bytes as nat,
            _ => 0,
        })
    }
}

proof fn lemma_removal(decisions: Seq<DecisionView>, kind: ResourceKind, id: Seq<char>)
    ensures
        match removal_on(decisions, kind, id) {
            Some(found) => is_removed(decisions, kind, id) && is_removed_so(
                decisions,
                kind,
                id,
                found.age_seconds,
                found.resource.size,
            ),
            None => !is_removed(decisions, kind, id),
        },
    decreases decisions.len(),
{
    if decisions.len() > 0 {
        let less = decisions.drop_last();
        let end = decisions.len() - 1;
        lemma_removal(less, kind, id);
        if removes(decisions[end], kind, id) {
            assert(removal_on(decisions, kind, id) == Some(decisions[end]));
        } else {
            if let Some(found) = removal_on(less, kind, id) {
                let d = choose|d: int|
                    0 <= d < less.len() && removes(#[trigger] less[d], kind, id)
                        && less[d].age_seconds == found.age_seconds && less[d].resource.size
                        == found.resource.size;
                assert(decisions[d] == less[d]);
            } else if is_removed(decisions, kind, id) {
                let d = choose|d: int|
                    0 <= d < decisions.len() && removes(#[trigger] decisions[d], kind, id);
                assert(less[d] == decisions[d]);
            }
        }
    }
}

/// Outcomes can be counted from either end.
pub proof fn lemma_how_many(outcomes: Seq<OutcomeView>, status: TargetStatus)
    ensures
        status_count(outcomes, status) == how_many(outcomes, status),
        how_many(outcomes, status) <= outcomes.len(),
    decreases outcomes.len(),
{
    if outcomes.len() == 1 {
        assert(how_many(outcomes.drop_first(), status) == 0);
        assert(status_count(outcomes.drop_last(), status) == 0);
        assert(outcomes.last() == outcomes[0]);
    } else if outcomes.len() > 1 {
        let rest = outcomes.drop_first();
        let less = outcomes.drop_last();
        lemma_how_many(rest, status);
        lemma_how_many(less, status);
        lemma_how_many(less.drop_first(), status);
        assert(less.drop_first() =~= rest.drop_last());
        assert(rest.last() == outcomes.last());
        assert(less[0] == outcomes[0]);
    }
}

/// Every outcome has one of the three ends.
pub proof fn lemma_partition(outcomes: Seq<OutcomeView>)
    ensures
        how_many(outcomes, TargetStatus::Removed) + how_many(outcomes, TargetStatus::Skipped)
            + how_many(outcomes, TargetStatus::Failed) == outcomes.len(),
    decreases outcomes.len(),
{
    if outcomes.len() > 0 {
        lemma_partition(outcomes.drop_first());
    }
}

/// The counts of rules are how often each decides.
pub proof fn lemma_by_rule(decisions: Seq<DecisionView>, rule: Seq<char>)
    requires
        decisions.len() <= u64::MAX,
    ensures
        keys_ascend(rule_counts(decisions)),
        how_many_by(decisions, rule) <= decisions.len(),
        value_of(rule_counts(decisions), rule) == if how_many_by(decisions, rule) == 0 {
            None::<u64>
        } else {
            Some(how_many_by(decisions, rule) as u64)
        },
    decreases decisions.len(),
{
    if decisions.len() > 0 {
        let less = decisions.drop_last();
        let before = rule_counts(less);
        lemma_by_rule(less, rule);
        match decisions.last().matched_rule {
            Some(last) => {
                lemma_by_rule(less, last);
                let value = (match value_of(before, last) {
                    Some(count) => count + 1,
                    None => 1,
                }) as u64;
                lemma_put(before, last, value, rule);
            },
            None => {},
        }
    } else {
        assert(!has_key(rule_counts(decisions), rule));
    }
}

proof fn lemma_freed(
    decisions: Seq<DecisionView>,
    outcomes: Seq<OutcomeView>,
    events: Seq<EventView>,
)
    requires
        events.len() == outcomes.len(),
        forall|i: int|
            0 <= i < events.len() ==> (#[trigger] events[i]).data is Action
                && events[i].data->freed_bytes == freed_by(decisions, outcomes[i]),
    ensures
        freed_bytes(decisions, outcomes) == if bytes_freed(events) <= u64::MAX {
            bytes_freed(events) as int
        } else {
            u64::MAX as int
        },
    decreases outcomes.len(),
{
    if outcomes.len() > 0 {
        let less = events.drop_last();
        let end = outcomes.len() - 1;
        assert forall|i: int| 0 <= i < less.len() implies (#[trigger] less[i]).data is Action
            && less[i].data->freed_bytes == freed_by(decisions, outcomes.drop_last()[i]) by {
            assert(less[i] == events[i]);
        }
        lemma_freed(decisions, outcomes.drop_last(), less);
        assert(events[end].data->freed_bytes == freed_by(decisions, outcomes[end]));
    }
}

/// Closing a pass records every outcome in its turn and then sums them up: how many
/// went each way, how many decisions each rule made, and the bytes that the events
/// say were freed.
pub proof fn closing_a_pass_records_every_outcome(
    pass: ActivityPass,
    plan: Plan,
    report: ExecutionReport,
    completed_at: i64,
    events: Vec<ActivityEvent>,
    rule: Seq<char>,
)
    requires
        call_ensures(ActivityPass::finish, (&pass, &plan, &report, completed_at), events),
    ensures
        events@.len() == report@.len() + 1,
        forall|i: int|
            0 <= i < events@.len() ==> {
                &&& (#[trigger] views(events@)[i]).pass_id == pass.pass()
                &&& views(events@)[i].source == pass.origin()
                &&& views(events@)[i].config_hash == pass.hash()
                &&& views(events@)[i].timestamp == completed_at
                &&& i < u64::MAX ==> views(events@)[i].sequence == i + 1
            },
        forall|i: int|
            0 <= i < report@.len() ==> records(
                #[trigger] views(events@)[i],
                plan@,
                report@[i],
            ),
        match views(events@)[report@.len() as int].data {
            EventDataView::PassSummary {
                completed_at: ended,
                rule_match_counts,
                removed_count,
                skipped_count,
                failure_count,
                reclaimed_bytes,
            } => {
                &&& ended == completed_at
                &&& removed_count + skipped_count + failure_count == report@.len()
                &&& removed_count == how_many(report@, TargetStatus::Removed)
                &&& skipped_count == how_many(report@, TargetStatus::Skipped)
                &&& failure_count == how_many(report@, TargetStatus::Failed)
                &&& reclaimed_bytes == if bytes_freed(views(events@)) <= u64::MAX {
                    bytes_freed(views(events@)) as int
                } else {
                    u64::MAX as int
                }
                &&& value_of(rule_match_counts, rule) == if how_many_by(plan@, rule) == 0 {
                    None::<u64>
                } else {
                    Some(how_many_by(plan@, rule) as u64)
                }
            },
            _ => false,
        },
{
    let written = views(events@);
    let outcomes = report@;
    let count = outcomes.len() as int;
    assert(written == pass.closing_events(plan@, outcomes, completed_at));
    assert(report.outcomes.len() == outcomes.len());
    assert(plan.decisions.len() == plan@.len());
    let actions = written.drop_last();
    assert forall|i: int| 0 <= i < count implies records(
        #[trigger] written[i],
        plan@,
        outcomes[i],
    ) by {
        assert(written[i] == pass.action_event(plan@, outcomes, i, completed_at));
        lemma_removal(plan@, outcomes[i].kind, outcomes[i].id);
    }
    assert forall|i: int| 0 <= i < actions.len() implies (#[trigger] actions[i]).data is Action
        && actions[i].data->freed_bytes == freed_by(plan@, outcomes[i]) by {
        assert(written[i] == pass.action_event(plan@, outcomes, i, completed_at));
    }
    lemma_freed(plan@, outcomes, actions);
    assert(bytes_freed(written) == bytes_freed(actions));
    lemma_how_many(outcomes, TargetStatus::Removed);
    lemma_how_many(outcomes, TargetStatus::Skipped);
    lemma_how_many(outcomes, TargetStatus::Failed);
    lemma_partition(outcomes);
    lemma_by_rule(plan@, rule);
}

/// Whether an event belongs to a pass.
pub open spec fn is_start_of(event: EventView, pass_id: Seq<char>) -> bool {
    event.pass_id == pass_id && event.data is PassStarted
}

/// Whether a completed pass is the one that a summary in the journal closes: its
/// numbers are those of the summary, it started at its first start event, and its
/// actions are the action events under its name, in the order of their numbers.
pub open spec fn is_closed_by(events: Seq<EventView>, s: int, pass: CompletedPassView) -> bool {
    &&& 0 <= s < events.len()
    &&& events[s].pass_id == pass.pass_id
    &&& events[s].source == pass.source
    &&& events[s].config_hash == pass.config_hash
    &&& events[s].data == EventDataView::PassSummary {
        completed_at: pass.completed_at,
        rule_match_counts: pass.rule_match_counts,
        removed_count: pass.removed_count,
        skipped_count: pass.skipped_count,
        failure_count: pass.failure_count,
        reclaimed_bytes: pass.reclaimed_bytes,
    }
    &&& forall|event: EventView| #[trigger]
        pass.actions.contains(event) <==> events.contains(event) && event.pass_id == pass.pass_id
            && event.data is Action
    &&& forall|i: int, j: int|
        0 <= i <= j < pass.actions.len() ==> (#[trigger] pass.actions[i]).sequence <= (
        #[trigger] pass.actions[j]).sequence
    &&& starts_at(events, pass.pass_id, pass.started_at, events[s].timestamp)
}

/// Whether a moment is that of the first start event of a pass, and another where
/// there is none.
pub open spec fn starts_at(
    events: Seq<EventView>,
    pass_id: Seq<char>,
    moment: i64,
    otherwise: i64,
) -> bool {
    ||| exists|e: int|
        {
            &&& 0 <= e < events.len()
            &&& is_start_of(#[trigger] events[e], pass_id)
            &&& events[e].timestamp == moment
            &&& forall|k: int| 0 <= k < e ==> !is_start_of(#[trigger] events[k], pass_id)
        }
    ||| moment == otherwise && forall|k: int|
        0 <= k < events.len() ==> !is_start_of(#[trigger] events[k], pass_id)
}

proof fn lemma_start(events: Seq<EventView>, pass_id: Seq<char>, otherwise: i64)
    ensures
        starts_at(events, pass_id, pass_start(events, pass_id, otherwise), otherwise),
    decreases events.len(),
{
    if events.len() > 0 {
        let rest = events.drop_first();
        if !is_start_of(events[0], pass_id) {
            lemma_start(rest, pass_id, otherwise);
            let moment = pass_start(rest, pass_id, otherwise);
            if exists|e: int|
                {
                    &&& 0 <= e < rest.len()
                    &&& is_start_of(#[trigger] rest[e], pass_id)
                    &&& rest[e].timestamp == moment
                    &&& forall|k: int| 0 <= k < e ==> !is_start_of(#[trigger] rest[k], pass_id)
                } {
                let e = choose|e: int|
                    {
                        &&& 0 <= e < rest.len()
                        &&& is_start_of(#[trigger] rest[e], pass_id)
                        &&& rest[e].timestamp == moment
                        &&& forall|k: int| 0 <= k < e ==> !is_start_of(#[trigger] rest[k], pass_id)
                    };
                assert(events[e + 1] == rest[e]);
                assert forall|k: int| 0 <= k < e + 1 implies !is_start_of(
                    #[trigger] events[k],
                    pass_id,
                ) by {
                    if k > 0 {
                        assert(rest[k - 1] == events[k]);
                    }
                }
            } else {
                assert forall|k: int| 0 <= k < events.len() implies !is_start_of(
                    #[trigger] events[k],
                    pass_id,
                ) by {
                    if k > 0 {
                        assert(rest[k - 1] == events[k]);
                    }
                }
            }
        } else {
            assert(events[0].timestamp == pass_start(events, pass_id, otherwise));
        }
    }
}

proof fn lemma_actions(events: Seq<EventView>, pass_id: Seq<char>, event: EventView)
    ensures
        pass_actions(events, pass_id).contains(event) <==> events.contains(event) && event.pass_id
            == pass_id && event.data is Action,
    decreases events.len(),
{
    if events.len() > 0 {
        let less = events.drop_last();
        let before = pass_actions(less, pass_id);
        let all = pass_actions(events, pass_id);
        lemma_actions(less, pass_id, event);
        if all.contains(event) {
            let i = choose|i: int| 0 <= i < all.len() && all[i] == event;
            if i < before.len() {
                assert(before[i] == event);
                let k = choose|k: int| 0 <= k < less.len() && less[k] == event;
                assert(events[k] == event);
            } else {
                assert(events[events.len() - 1] == event);
            }
        }
        if events.contains(event) && event.pass_id == pass_id && event.data is Action {
            let k = choose|k: int| 0 <= k < events.len() && events[k] == event;
            if k < less.len() {
                assert(less[k] == event);
                let i = choose|i: int| 0 <= i < before.len() && before[i] == event;
                assert(all[i] == event);
            } else {
                assert(all[before.len() as int] == event);
            }
        }
    }
}

proof fn lemma_closed(events: Seq<EventView>, s: int)
    requires
        0 <= s < events.len(),
        events[s].data is PassSummary,
    ensures
        is_closed_by(events, s, pass_of(events, events[s])),
{
    let pass = pass_of(events, events[s]);
    let given = pass_actions(events, pass.pass_id);
    lemma_start(events, pass.pass_id, events[s].timestamp);
    lemma_ranked_is_sorted_permutation::<ActivityEvent>(given);
    given.to_multiset_ensures();
    pass.actions.to_multiset_ensures();
    assert forall|event: EventView| #[trigger]
        pass.actions.contains(event) <==> events.contains(event) && event.pass_id == pass.pass_id
            && event.data is Action by {
        lemma_actions(events, pass.pass_id, event);
        assert(pass.actions.contains(event) <==> pass.actions.to_multiset().count(event) > 0);
        assert(given.contains(event) <==> given.to_multiset().count(event) > 0);
    }
    assert(in_rank_order::<ActivityEvent>(ranked::<ActivityEvent>(given)));
}

proof fn lemma_last(events: Seq<EventView>, count: int)
    requires
        0 <= count <= events.len(),
    ensures
        match last_summary(events, count) {
            Some(summary) => exists|s: int|
                {
                    &&& 0 <= s < count
                    &&& #[trigger] events[s] == summary
                    &&& events[s].data is PassSummary
                    &&& forall|k: int| s < k < count ==> !((#[trigger] events[k]).data is PassSummary)
                },
            None => forall|k: int| 0 <= k < count ==> !((#[trigger] events[k]).data is PassSummary),
        },
    decreases count,
{
    if count > 0 && !(events[count - 1].data is PassSummary) {
        lemma_last(events, count - 1);
    } else if count > 0 {
        assert(events[count - 1] == last_summary(events, count)->0);
    }
}

/// Whether a pass is closed by the last summary of a journal.
pub open spec fn is_last_pass(events: Seq<EventView>, pass: CompletedPassView) -> bool {
    exists|s: int|
        #![trigger events[s]]
        is_closed_by(events, s, pass) && forall|k: int|
            s < k < events.len() ==> !((#[trigger] events[k]).data is PassSummary)
}

/// The last completed pass is the one that the last summary closes; there is none
/// where the journal holds no summary.
pub proof fn the_last_summary_closes_the_last_pass(
    journal: ActivityJournal,
    events: Vec<ActivityEvent>,
    pass: Option<CompletedPass>,
)
    requires
        call_ensures(ActivityJournal::last_completed_pass, (&journal, &events), pass),
    ensures
        pass is Some ==> is_last_pass(views(events@), pass->0@),
        pass is None ==> forall|k: int|
            0 <= k < events@.len() ==> !((#[trigger] views(events@)[k]).data is PassSummary),
{
    let all = views(events@);
    lemma_last(all, all.len() as int);
    if let Some(summary) = last_summary(all, all.len() as int) {
        let s = choose|s: int|
            {
                &&& 0 <= s < all.len()
                &&& #[trigger] all[s] == summary
                &&& all[s].data is PassSummary
                &&& forall|k: int| s < k < all.len() ==> !((#[trigger] all[k]).data is PassSummary)
            };
        lemma_closed(all, s);
    }
}

/// Whether passes hold one that a summary closes.
pub open spec fn holds_pass(
    events: Seq<EventView>,
    s: int,
    passes: Seq<CompletedPassView>,
) -> bool {
    exists|p: int| 0 <= p < passes.len() && is_closed_by(events, s, #[trigger] passes[p])
}

/// Whether a pass is closed by some summary of a journal.
pub open spec fn is_some_pass(events: Seq<EventView>, pass: CompletedPassView) -> bool {
    exists|s: int| #![trigger events[s]] is_closed_by(events, s, pass)
}

proof fn lemma_passes(events: Seq<EventView>, count: int)
    requires
        0 <= count <= events.len(),
    ensures
        forall|s: int|
            0 <= s < count && (#[trigger] events[s]).data is PassSummary ==> holds_pass(
                events,
                s,
                passes_closed(events, count),
            ),
        forall|p: int|
            0 <= p < passes_closed(events, count).len() ==> is_some_pass(
                events,
                #[trigger] passes_closed(events, count)[p],
            ),
    decreases count,
{
    if count > 0 {
        let before = passes_closed(events, count - 1);
        let all = passes_closed(events, count);
        lemma_passes(events, count - 1);
        assert forall|s: int|
            0 <= s < count && (#[trigger] events[s]).data is PassSummary implies holds_pass(
            events,
            s,
            all,
        ) by {
            if s < count - 1 {
                let p = choose|p: int|
                    0 <= p < before.len() && is_closed_by(events, s, #[trigger] before[p]);
                assert(all[p] == before[p]);
            } else {
                lemma_closed(events, s);
                assert(all[before.len() as int] == pass_of(events, events[s]));
            }
        }
        assert forall|p: int| 0 <= p < all.len() implies is_some_pass(
            events,
            #[trigger] all[p],
        ) by {
            if p < before.len() {
                assert(is_some_pass(events, before[p]));
            } else {
                lemma_closed(events, count - 1);
                assert(is_closed_by(events, count - 1, all[p]));
            }
        }
    }
}

/// Every summary of a journal closes one of the completed passes, and every
/// completed pass is closed by one.
pub proof fn completed_passes_are_those_with_a_summary(
    journal: ActivityJournal,
    events: Vec<ActivityEvent>,
    passes: Vec<CompletedPass>,
)
    requires
        call_ensures(ActivityJournal::completed_passes, (&journal, &events), passes),
    ensures
        forall|s: int|
            0 <= s < events@.len() && (#[trigger] views(events@)[s]).data is PassSummary
                ==> holds_pass(views(events@), s, views(passes@)),
        forall|p: int|
            0 <= p < passes@.len() ==> is_some_pass(views(events@), #[trigger] views(passes@)[p]),
{
    lemma_passes(views(events@), events@.len() as int);
}

} // verus!
