//! The order of plans, and what is kept of journals and surveys that are read
//! again.

use crate::activity::{ActivityError, ActivityEvent, EventView};
use crate::candidate::{CandidateFamilyView, CandidateSelectorView, ConfiguratorSurvey};
use crate::config::Config;
use crate::documents::{how_many_removed, lemma_removed};
use crate::guarantees::plans_are_complete_and_sorted;
use crate::journal::{accept_events, distinct_events, repeats, DecodedLine};
use crate::lines::header_text;
use crate::order::{in_rank_order, lemma_text_lt_total, text_lt};
use crate::plan::{
    build_plan_with_context, item_ranks, removals_of, Decision, DecisionView, Plan, PlanContext,
    PlanError,
};
use crate::present::bytes_text;
use crate::preview::{decided_sizes, refresh_warnings_in};
use crate::profile::PolicySettings;
use crate::resource::{InventoryItem, ItemView, ResourceKind};
use crate::surveying::{counted, lemma_sum, sum_of};
use crate::text::{decimal, views};
use vstd::prelude::*;

verus! {

/// Whether two texts part at a place, where the first ends or has the lower
/// character.
pub open spec fn part_at(left: Seq<char>, right: Seq<char>, place: int) -> bool {
    &&& 0 <= place <= left.len()
    &&& place < right.len()
    &&& forall|i: int| 0 <= i < place ==> #[trigger] left[i] == right[i]
    &&& place == left.len() || (left[place] as u32) < (right[place] as u32)
}

/// Whether one text comes before another in the order of their characters.
pub open spec fn stands_before(left: Seq<char>, right: Seq<char>) -> bool {
    exists|place: int| part_at(left, right, place)
}

/// Texts are ordered by the first character in which they differ, and a text comes
/// before every longer one that it begins.
pub proof fn texts_are_ordered_by_their_characters(left: Seq<char>, right: Seq<char>)
    ensures
        text_lt(left, right) <==> stands_before(left, right),
    decreases left.len(),
{
    if right.len() == 0 {
    } else if left.len() == 0 {
        assert(part_at(left, right, 0));
    } else if left[0] != right[0] {
        if text_lt(left, right) {
            assert(part_at(left, right, 0));
        }
        if stands_before(left, right) {
            let place = choose|place: int| part_at(left, right, place);
            assert(place == 0);
        }
    } else {
        let less = left.drop_first();
        let rest = right.drop_first();
        texts_are_ordered_by_their_characters(less, rest);
        if text_lt(left, right) {
            let place = choose|place: int| part_at(less, rest, place);
            assert forall|i: int| 0 <= i < place + 1 implies #[trigger] left[i] == right[i] by {
                if i > 0 {
                    assert(less[i - 1] == rest[i - 1]);
                }
            }
            assert(part_at(left, right, place + 1));
        }
        if stands_before(left, right) {
            let place = choose|place: int| part_at(left, right, place);
            assert(place > 0);
            assert forall|i: int| 0 <= i < place - 1 implies #[trigger] less[i] == rest[i] by {
                assert(left[i + 1] == right[i + 1]);
            }
            assert(part_at(less, rest, place - 1));
        }
    }
}

/// Whether one kind is listed before another.
pub open spec fn kind_before(left: ResourceKind, right: ResourceKind) -> bool {
    match left {
        ResourceKind::Container => right != ResourceKind::Container,
        ResourceKind::Image => right == ResourceKind::Volume || right == ResourceKind::Network
            || right == ResourceKind::BuildCache,
        ResourceKind::Volume => right == ResourceKind::Network || right == ResourceKind::BuildCache,
        ResourceKind::Network => right == ResourceKind::BuildCache,
        ResourceKind::BuildCache => false,
    }
}

/// Whether one resource is not listed behind another: by kind, then by name, then
/// by id.
pub open spec fn not_behind(left: ItemView, right: ItemView) -> bool {
    ||| kind_before(left.kind, right.kind)
    ||| left.kind == right.kind && stands_before(left.name, right.name)
    ||| left.kind == right.kind && left.name == right.name && (left.id == right.id
        || stands_before(left.id, right.id))
}

proof fn lemma_ranks(left: ItemView, right: ItemView)
    ensures
        item_ranks(left, right) ==> not_behind(left, right),
{
    texts_are_ordered_by_their_characters(left.name, right.name);
    texts_are_ordered_by_their_characters(left.id, right.id);
    texts_are_ordered_by_their_characters(right.id, left.id);
    lemma_text_lt_total(left.id, right.id);
}

/// A plan lists containers, images, volumes, networks and build cache in this
/// order, within a kind by name and then by id.
pub proof fn a_plan_is_listed_by_kind_name_and_id<'a>(
    config: Config,
    inventory: Vec<InventoryItem>,
    now: i64,
    context: PlanContext<'a>,
    outcome: Result<Plan, PlanError>,
    first: int,
    second: int,
)
    requires
        call_ensures(build_plan_with_context, (&config, inventory, now, &context), outcome),
        outcome is Ok,
        0 <= first < second < outcome->Ok_0@.len(),
    ensures
        not_behind(
            outcome->Ok_0@[first].resource,
            outcome->Ok_0@[second].resource,
        ),
{
    let plan = outcome->Ok_0@;
    plans_are_complete_and_sorted(config@, views(inventory@), now, context@);
    assert(in_rank_order::<Decision>(plan));
    lemma_ranks(plan[first].resource, plan[second].resource);
}

/// The head of the screen says how many removals there are and the bytes that they
/// would free.
pub proof fn the_head_counts_the_removals(plan: Plan, words: String)
    requires
        call_ensures(header_text, (&plan,), words),
    ensures
        words@ == " \u{b7} "@ + decimal(how_many_removed(plan@)) + " to remove \u{b7} "@
            + bytes_text(
            counted(
                sum_of(
                    removals_of(plan@).map_values(
                        |decision: DecisionView| decision.resource.size,
                    ),
                ),
            ) as u64,
        ) + " reclaimable"@,
{
    let sizes = decided_sizes(removals_of(plan@));
    lemma_removed(plan@);
    lemma_sum(sizes);
    assert(sizes =~= removals_of(plan@).map_values(
        |decision: DecisionView| decision.resource.size,
    ));
}

/// Whether a family is that of a Compose project.
pub open spec fn is_project(family: CandidateFamilyView) -> bool {
    match family.selector {
        CandidateSelectorView::ExactLabel { key, .. } => key == "com.docker.compose.project"@,
        _ => false,
    }
}

/// Working the warnings out anew gives every Compose project one, and changes
/// nothing else of any family.
pub proof fn compose_projects_are_warned_of<'a>(
    survey: &mut ConfiguratorSurvey,
    policy: PolicySettings,
    inventory: Vec<InventoryItem>,
    now: i64,
    context: PlanContext<'a>,
    f: int,
)
    requires
        call_ensures(refresh_warnings_in, (survey, &policy, &inventory, now, &context), ()),
        0 <= f < survey@.candidates.len(),
    ensures
        final(survey)@.candidates.len() == old(survey)@.candidates.len(),
        final(survey)@.candidates[f].id == old(survey)@.candidates[f].id,
        final(survey)@.candidates[f].title == old(survey)@.candidates[f].title,
        final(survey)@.candidates[f].evidence == old(survey)@.candidates[f].evidence,
        final(survey)@.candidates[f].selector == old(survey)@.candidates[f].selector,
        final(survey)@.candidates[f].resources == old(survey)@.candidates[f].resources,
        final(survey)@.candidates[f].known_bytes == old(survey)@.candidates[f].known_bytes,
        is_project(old(survey)@.candidates[f]) ==> final(survey)@.candidates[f].warning is Some,
        !is_project(old(survey)@.candidates[f]) ==> final(survey)@.candidates[f].warning == old(
            survey,
        )@.candidates[f].warning,
        final(survey)@.summary == old(survey)@.summary,
{
}

/// Whether a line holds an event that can be read.
pub open spec fn can_be_read(line: DecodedLine) -> bool {
    line.event is Ok && line.event->Ok_0.schema_version == 1
}

/// Whether two events are the same step of one pass.
pub open spec fn same_step(left: EventView, right: EventView) -> bool {
    left.pass_id == right.pass_id && left.sequence == right.sequence
}

/// Whether events hold a step.
pub open spec fn holds_step(events: Seq<EventView>, event: EventView) -> bool {
    exists|e: int| 0 <= e < events.len() && same_step(#[trigger] events[e], event)
}

/// Whether an event is the first of its step among lines.
pub open spec fn is_first_of_step(lines: Seq<DecodedLine>, event: EventView) -> bool {
    exists|l: int|
        {
            &&& 0 <= l < lines.len()
            &&& (#[trigger] lines[l]).event->Ok_0@ == event
            &&& forall|k: int|
                0 <= k < l ==> !same_step((#[trigger] lines[k]).event->Ok_0@, event)
        }
}

proof fn lemma_distinct(lines: Seq<DecodedLine>)
    ensures
        forall|e: int|
            0 <= e < distinct_events(lines).len() ==> is_first_of_step(
                lines,
                #[trigger] distinct_events(lines)[e],
            ),
        forall|l: int|
            0 <= l < lines.len() ==> holds_step(
                distinct_events(lines),
                (#[trigger] lines[l]).event->Ok_0@,
            ),
        forall|d: int, e: int|
            0 <= d < e < distinct_events(lines).len() ==> !same_step(
                #[trigger] distinct_events(lines)[d],
                #[trigger] distinct_events(lines)[e],
            ),
    decreases lines.len(),
{
    if lines.len() > 0 {
        let less = lines.drop_last();
        let end = lines.len() - 1;
        let before = distinct_events(less);
        let all = distinct_events(lines);
        let event = lines.last().event->Ok_0@;
        lemma_distinct(less);
        assert(repeats(before, event) <==> holds_step(before, event)) by {
            if repeats(before, event) {
                let i = choose|i: int|
                    0 <= i < before.len() && (#[trigger] before[i]).pass_id == event.pass_id
                        && before[i].sequence == event.sequence;
                assert(same_step(before[i], event));
            }
            if holds_step(before, event) {
                let e = choose|e: int| 0 <= e < before.len() && same_step(#[trigger] before[e], event);
                assert(before[e].pass_id == event.pass_id);
            }
        }
        assert forall|e: int| 0 <= e < all.len() implies is_first_of_step(
            lines,
            #[trigger] all[e],
        ) by {
            if e < before.len() {
                assert(is_first_of_step(less, before[e]));
                let l = choose|l: int|
                    {
                        &&& 0 <= l < less.len()
                        &&& (#[trigger] less[l]).event->Ok_0@ == before[e]
                        &&& forall|k: int|
                            0 <= k < l ==> !same_step((#[trigger] less[k]).event->Ok_0@, before[e])
                    };
                assert(lines[l] == less[l]);
                assert forall|k: int| 0 <= k < l implies !same_step(
                    (#[trigger] lines[k]).event->Ok_0@,
                    all[e],
                ) by {
                    assert(less[k] == lines[k]);
                }
            } else {
                assert(lines[end].event->Ok_0@ == all[e]);
                assert forall|k: int| 0 <= k < end implies !same_step(
                    (#[trigger] lines[k]).event->Ok_0@,
                    all[e],
                ) by {
                    assert(less[k] == lines[k]);
                    if same_step(lines[k].event->Ok_0@, event) {
                        let e2 = choose|e2: int|
                            0 <= e2 < before.len() && same_step(
                                #[trigger] before[e2],
                                less[k].event->Ok_0@,
                            );
                        assert(same_step(before[e2], event));
                    }
                }
            }
        }
        assert forall|l: int| 0 <= l < lines.len() implies holds_step(
            all,
            (#[trigger] lines[l]).event->Ok_0@,
        ) by {
            let wanted = lines[l].event->Ok_0@;
            if l < end {
                assert(less[l] == lines[l]);
                let e = choose|e: int|
                    0 <= e < before.len() && same_step(#[trigger] before[e], wanted);
                assert(all[e] == before[e]);
            } else if repeats(before, event) {
                let e = choose|e: int|
                    0 <= e < before.len() && same_step(#[trigger] before[e], wanted);
                assert(all[e] == before[e]);
            } else {
                assert(same_step(all[before.len() as int], wanted));
            }
        }
        assert forall|d: int, e: int| 0 <= d < e < all.len() implies !same_step(
            #[trigger] all[d],
            #[trigger] all[e],
        ) by {
            if e < before.len() {
                assert(!same_step(before[d], before[e]));
            } else {
                assert(all[d] == before[d]);
            }
        }
    }
}

/// A journal is read exactly when every line of it can be; every step of a pass
/// then stands once, as the first line has it.
pub proof fn a_journal_holds_every_step_once(
    lines: Vec<DecodedLine>,
    outcome: Result<Vec<ActivityEvent>, ActivityError>,
)
    requires
        call_ensures(accept_events, (&lines,), outcome),
    ensures
        outcome is Ok <==> forall|l: int|
            0 <= l < lines@.len() ==> can_be_read(#[trigger] lines@[l]),
        outcome is Ok ==> {
            let events = views(outcome->Ok_0@);
            &&& forall|e: int|
                0 <= e < events.len() ==> is_first_of_step(lines@, #[trigger] events[e])
            &&& forall|l: int|
                0 <= l < lines@.len() ==> holds_step(events, (#[trigger] lines@[l]).event->Ok_0@)
            &&& forall|d: int, e: int|
                0 <= d < e < events.len() ==> !same_step(#[trigger] events[d], #[trigger] events[e])
        },
{
    lemma_distinct(lines@);
}

} // verus!
