//! Applying a plan: in which order targets are deleted, what must still hold
//! before each deletion, and what is reported of it.

use crate::config::{Config, ConfigView, LoadedConfig};
use crate::order::{
    lemma_mapped_multiset, lemma_ranked_holds, lemma_ranked_is_sorted_permutation,
    lemma_text_le_transitive, lemma_text_lt_irreflexive, lemma_text_lt_total,
    lemma_text_lt_transitive, precedes, ranked, sort, text_lt, Ranked,
};
use crate::plan::{
    build_plan_with_context, plan_for, removals_of, Action, ContextView, Decision, DecisionView,
    Plan, PlanContext,
};
use crate::policy::policy_fault;
use crate::resource::{kind_rank, kind_text, InventoryItem, ItemView, ResourceKind};
use crate::table::{grid, push_table, table_text};
use crate::text::{
    clone_texts, concat2, concat3, contains_item, count_text, decimal, decimal_text, group_views,
    join, joined, opt_text_eq, or_text, split_words, text_eq, text_or, views, words,
};
use crate::text_map::{
    has_key, key_index, keys_ascend, lemma_put, lemma_value_at, put, value_of, TextMap,
};
use vstd::prelude::*;
use vstd::string::*;

verus! {

/// How the deletion of a target ended.
#[derive(Debug, Clone, Copy, PartialEq, Eq, Structural)]
pub enum TargetStatus {
    Removed,
    Skipped,
    Failed,
}

/// The word for a status.
pub open spec fn status_text(status: TargetStatus) -> Seq<char> {
    match status {
        TargetStatus::Removed => "removed"@,
        TargetStatus::Skipped => "skipped"@,
        TargetStatus::Failed => "failed"@,
    }
}

impl TargetStatus {
    /// The word for this status.
    pub fn as_text(self) -> (word: &'static str)
        ensures
            word@ == status_text(self),
    {
        match self {
            TargetStatus::Removed => "removed",
            TargetStatus::Skipped => "skipped",
            TargetStatus::Failed => "failed",
        }
    }
}

/// What became of one target.
#[derive(Debug, PartialEq, Eq)]
pub struct TargetOutcome {
    pub kind: ResourceKind,
    pub id: String,
    pub name: String,
    pub matched_rule: String,
    pub status: TargetStatus,
    pub detail: String,
}

/// What an outcome says.
#[verifier::ext_equal]
pub struct OutcomeView {
    pub kind: ResourceKind,
    pub id: Seq<char>,
    pub name: Seq<char>,
    pub matched_rule: Seq<char>,
    pub status: TargetStatus,
    pub detail: Seq<char>,
}

impl View for TargetOutcome {
    type V = OutcomeView;

    open spec fn view(&self) -> OutcomeView {
        OutcomeView {
            kind: self.kind,
            id: self.id@,
            name: self.name@,
            matched_rule: self.matched_rule@,
            status: self.status,
            detail: self.detail@,
        }
    }
}

/// What became of every target.
#[derive(Debug, PartialEq, Eq)]
pub struct ExecutionReport {
    pub outcomes: Vec<TargetOutcome>,
}

impl View for ExecutionReport {
    type V = Seq<OutcomeView>;

    open spec fn view(&self) -> Seq<OutcomeView> {
        views(self.outcomes@)
    }
}

/// How many outcomes have a status.
pub open spec fn status_count(outcomes: Seq<OutcomeView>, status: TargetStatus) -> nat
    decreases outcomes.len(),
{
    if outcomes.len() == 0 {
        0
    } else {
        status_count(outcomes.drop_last(), status) + if outcomes.last().status == status {
            1nat
        } else {
            0nat
        }
    }
}

/// The words of a text with one space between them.
pub open spec fn one_lined(text: Seq<char>) -> Seq<char> {
    joined(words(text), " "@)
}

/// Puts the words of a text on one line.
pub fn one_line(value: &str) -> (line: String)
    ensures
        line@ == one_lined(value@),
{
    join(&split_words(value), " ")
}

/// The head of the report table.
pub open spec fn report_head() -> Seq<Seq<char>> {
    seq!["TYPE"@, "NAME"@, "RULE"@, "RESULT"@, "DETAIL"@]
}

/// An outcome as a row of the report table.
pub open spec fn report_row(outcome: OutcomeView) -> Seq<Seq<char>> {
    seq![
        kind_text(outcome.kind),
        outcome.name,
        outcome.matched_rule,
        status_text(outcome.status),
        one_lined(outcome.detail),
    ]
}

/// The rows of the report table, the head first.
pub open spec fn report_rows(outcomes: Seq<OutcomeView>) -> Seq<Seq<Seq<char>>> {
    Seq::new(
        outcomes.len() + 1,
        |i: int| if i == 0 {
            report_head()
        } else {
            report_row(outcomes[i - 1])
        },
    )
}

/// The report as text.
pub open spec fn report_table(outcomes: Seq<OutcomeView>) -> Seq<char> {
    if outcomes.len() == 0 {
        "No removals pending.\n"@
    } else {
        table_text(report_rows(outcomes), outcomes.len() as int + 1) + "\n"@
            + "Cleanup result: removed "@ + decimal(status_count(outcomes, TargetStatus::Removed))
            + ", skipped "@ + decimal(status_count(outcomes, TargetStatus::Skipped))
            + ", failed "@ + decimal(status_count(outcomes, TargetStatus::Failed)) + ".\n"@
    }
}

impl ExecutionReport {
    /// Whether some target was not removed.
    pub fn has_partial_failure(&self) -> (partial: bool)
        ensures
            partial == exists|i: int|
                0 <= i < self@.len() && (#[trigger] self@[i]).status != TargetStatus::Removed,
    {
        broadcast use group_views;

        let mut index: usize = 0;
        while index < self.outcomes.len()
            invariant
                index <= self.outcomes@.len(),
                forall|i: int|
                    0 <= i < index ==> (#[trigger] self@[i]).status == TargetStatus::Removed,
            decreases self.outcomes@.len() - index,
        {
            if self.outcomes[index].status != TargetStatus::Removed {
                assert(self@[index as int].status != TargetStatus::Removed);
                return true;
            }
            index += 1;
        }
        false
    }

    /// How many targets ended with a status.
    pub fn count(&self, status: TargetStatus) -> (count: usize)
        ensures
            count == status_count(self@, status),
    {
        broadcast use group_views;

        let ghost all = views(self.outcomes@);
        let mut count: usize = 0;
        let mut index: usize = 0;
        while index < self.outcomes.len()
            invariant
                index <= self.outcomes@.len(),
                all == views(self.outcomes@),
                count <= index,
                count == status_count(all.take(index as int), status),
            decreases self.outcomes@.len() - index,
        {
            assert(all.take(index as int + 1).drop_last() =~= all.take(index as int));
            assert(all.take(index as int + 1).last() == self.outcomes@[index as int]@);
            if self.outcomes[index].status == status {
                count += 1;
            }
            index += 1;
        }
        assert(all.take(index as int) =~= all);
        count
    }

    /// The report as text.
    pub fn render_table(&self) -> (text: String)
        ensures
            text@ == report_table(self@),
    {
        broadcast use group_views;

        if self.outcomes.len() == 0 {
            return "No removals pending.\n".to_owned();
        }
        let ghost all = views(self.outcomes@);
        let mut rows: Vec<Vec<String>> = Vec::new();
        let head = vec![
            "TYPE".to_owned(),
            "NAME".to_owned(),
            "RULE".to_owned(),
            "RESULT".to_owned(),
            "DETAIL".to_owned(),
        ];
        assert(views(head@) =~= report_head());
        rows.push(head);
        let mut index: usize = 0;
        assert(grid(rows@) =~= report_rows(all.take(0)));
        while index < self.outcomes.len()
            invariant
                index <= self.outcomes@.len(),
                all == views(self.outcomes@),
                rows@.len() == index + 1,
                forall|r: int| 0 <= r < rows@.len() ==> (#[trigger] rows@[r])@.len() == 5,
                grid(rows@) == report_rows(all.take(index as int)),
            decreases self.outcomes@.len() - index,
        {
            let outcome = &self.outcomes[index];
            let ghost held = rows@;
            let row = vec![
                outcome.kind.as_text().to_owned(),
                outcome.name.clone(),
                outcome.matched_rule.clone(),
                outcome.status.as_text().to_owned(),
                one_line(outcome.detail.as_str()),
            ];
            assert(views(row@) =~= report_row(outcome@));
            rows.push(row);
            assert(grid(rows@) =~= grid(held).push(report_row(outcome@)));
            assert(report_rows(all.take(index as int + 1)) =~= report_rows(
                all.take(index as int),
            ).push(report_row(outcome@)));
            index += 1;
        }
        assert(all.take(index as int) =~= all);
        let mut output = String::new();
        push_table(&mut output, &rows, 5);
        output.append("\n");
        output.append("Cleanup result: removed ");
        output.append(count_text(self.count(TargetStatus::Removed)).as_str());
        output.append(", skipped ");
        output.append(count_text(self.count(TargetStatus::Skipped)).as_str());
        output.append(", failed ");
        output.append(count_text(self.count(TargetStatus::Failed)).as_str());
        output.append(".\n");
        assert(Seq::<char>::empty() + table_text(report_rows(all), all.len() as int + 1)
            =~= table_text(report_rows(all), all.len() as int + 1));
        output
    }
}

/// The parents of a build-cache record.
pub struct Parents {
    ids: Vec<String>,
}

impl View for Parents {
    type V = Seq<Seq<char>>;

    closed spec fn view(&self) -> Seq<Seq<char>> {
        views(self.ids@)
    }
}

/// The build-cache records of a plan with their parents, in the order of ids.
pub open spec fn cache_links(decisions: Seq<DecisionView>) -> Seq<(Seq<char>, Seq<Seq<char>>)>
    decreases decisions.len(),
{
    if decisions.len() == 0 {
        Seq::empty()
    } else {
        let before = cache_links(decisions.drop_last());
        let item = decisions.last().resource;
        if item.kind == ResourceKind::BuildCache {
            put(before, item.id, item.parent_ids)
        } else {
            before
        }
    }
}

/// The length of the longest chain of ancestors of a record among the records
/// of the plan, counting at most `limit` steps.
pub open spec fn depth_within(
    links: Seq<(Seq<char>, Seq<Seq<char>>)>,
    id: Seq<char>,
    limit: nat,
) -> nat
    decreases limit, 0nat,
{
    if limit == 0 {
        0
    } else {
        match value_of(links, id) {
            Some(parents) => deepest(links, parents, (limit - 1) as nat),
            None => 0,
        }
    }
}

/// One more than the greatest depth among the parents that are records of the
/// plan, 0 where there is none.
pub open spec fn deepest(
    links: Seq<(Seq<char>, Seq<Seq<char>>)>,
    parents: Seq<Seq<char>>,
    limit: nat,
) -> nat
    decreases limit, 1 + parents.len(),
{
    if parents.len() == 0 {
        0
    } else {
        let before = deepest(links, parents.drop_last(), limit);
        let own = if has_key(links, parents.last()) {
            depth_within(links, parents.last(), limit) + 1
        } else {
            0
        };
        if own > before {
            own
        } else {
            before
        }
    }
}

/// The depth of a record: the length of its longest chain of ancestors.
pub open spec fn depth_of(links: Seq<(Seq<char>, Seq<Seq<char>>)>, id: Seq<char>) -> nat {
    depth_within(links, id, links.len())
}

proof fn lemma_depth_bound(links: Seq<(Seq<char>, Seq<Seq<char>>)>, id: Seq<char>, limit: nat)
    ensures
        depth_within(links, id, limit) <= limit,
    decreases limit, 0nat,
{
    if limit > 0 {
        match value_of(links, id) {
            Some(parents) => {
                lemma_deepest_bound(links, parents, (limit - 1) as nat);
            },
            None => {},
        }
    }
}

proof fn lemma_deepest_bound(
    links: Seq<(Seq<char>, Seq<Seq<char>>)>,
    parents: Seq<Seq<char>>,
    limit: nat,
)
    ensures
        deepest(links, parents, limit) <= limit + 1,
    decreases limit, 1 + parents.len(),
{
    if parents.len() > 0 {
        lemma_deepest_bound(links, parents.drop_last(), limit);
        lemma_depth_bound(links, parents.last(), limit);
    }
}

fn collect_links(decisions: &Vec<Decision>) -> (links: TextMap<Parents>)
    ensures
        links@ == cache_links(views(decisions@)),
{
    broadcast use group_views;

    let ghost all = views(decisions@);
    let mut links: TextMap<Parents> = TextMap::new();
    let mut index: usize = 0;
    while index < decisions.len()
        invariant
            index <= decisions@.len(),
            all == views(decisions@),
            links@ == cache_links(all.take(index as int)),
        decreases decisions@.len() - index,
    {
        let item = &decisions[index].resource;
        assert(all.take(index as int + 1).drop_last() =~= all.take(index as int));
        assert(all.take(index as int + 1).last() == decisions@[index as int]@);
        if item.kind == ResourceKind::BuildCache {
            links.insert(item.id.clone(), Parents { ids: clone_texts(&item.parent_ids) });
        }
        index += 1;
    }
    assert(all.take(index as int) =~= all);
    links
}

fn deepest_parent(
    links: &TextMap<Parents>,
    parents: &Vec<String>,
    depths: &Vec<usize>,
    Ghost(limit): Ghost<nat>,
) -> (depth: usize)
    requires
        depths@.len() == links@.len(),
        limit < links@.len(),
        forall|i: int|
            0 <= i < depths@.len() ==> #[trigger] depths@[i] == depth_within(
                links@,
                links@[i].0,
                limit,
            ),
    ensures
        depth == deepest(links@, views(parents@), limit),
{
    broadcast use group_views;

    let ghost all = views(parents@);
    let total: usize = links.len();
    let mut depth: usize = 0;
    let mut index: usize = 0;
    while index < parents.len()
        invariant
            index <= parents@.len(),
            all == views(parents@),
            total == links@.len(),
            depths@.len() == links@.len(),
            limit < links@.len(),
            forall|i: int|
                0 <= i < depths@.len() ==> #[trigger] depths@[i] == depth_within(
                    links@,
                    links@[i].0,
                    limit,
                ),
            depth == deepest(links@, all.take(index as int), limit),
        decreases parents@.len() - index,
    {
        assert(all.take(index as int + 1).drop_last() =~= all.take(index as int));
        assert(all.take(index as int + 1).last() == parents@[index as int]@);
        match links.position(parents[index].as_str()) {
            Some(place) => {
                proof {
                    lemma_depth_bound(links@, links@[place as int].0, limit);
                    assert(has_key(links@, parents@[index as int]@));
                }
                let own: usize = depths[place] + 1;
                if own > depth {
                    depth = own;
                }
            },
            None => {},
        }
        index += 1;
    }
    assert(all.take(index as int) =~= all);
    depth
}

fn cache_depths(links: &TextMap<Parents>) -> (depths: Vec<usize>)
    ensures
        depths@.len() == links@.len(),
        forall|i: int|
            0 <= i < depths@.len() ==> #[trigger] depths@[i] == depth_of(links@, links@[i].0),
{
    let total: usize = links.len();
    let mut depths: Vec<usize> = Vec::new();
    while depths.len() < total
        invariant
            depths@.len() <= total,
            forall|i: int| 0 <= i < depths@.len() ==> #[trigger] depths@[i] == 0,
        decreases total - depths@.len(),
    {
        depths.push(0);
    }
    let mut round: usize = 0;
    while round < total
        invariant
            round <= total,
            total == links@.len(),
            keys_ascend(links@),
            depths@.len() == total,
            forall|i: int|
                0 <= i < depths@.len() ==> #[trigger] depths@[i] == depth_within(
                    links@,
                    links@[i].0,
                    round as nat,
                ),
        decreases total - round,
    {
        let mut next: Vec<usize> = Vec::new();
        while next.len() < total
            invariant
                next@.len() <= total,
                round < total,
                total == links@.len(),
                keys_ascend(links@),
                depths@.len() == total,
                forall|i: int|
                    0 <= i < depths@.len() ==> #[trigger] depths@[i] == depth_within(
                        links@,
                        links@[i].0,
                        round as nat,
                    ),
                forall|i: int|
                    0 <= i < next@.len() ==> #[trigger] next@[i] == depth_within(
                        links@,
                        links@[i].0,
                        (round + 1) as nat,
                    ),
            decreases total - next@.len(),
        {
            let place: usize = next.len();
            proof {
                lemma_value_at(links@, place as int);
            }
            let parents = links.value_at(place);
            let depth: usize = deepest_parent(links, &parents.ids, &depths, Ghost(round as nat));
            next.push(depth);
        }
        depths = next;
        round += 1;
    }
    depths
}

/// A target with the depth by which it is ordered.
pub struct RemovalTarget {
    decision: Decision,
    depth: usize,
}

/// What a target says.
pub struct RemovalTargetView {
    pub decision: DecisionView,
    pub depth: nat,
}

impl View for RemovalTarget {
    type V = RemovalTargetView;

    closed spec fn view(&self) -> RemovalTargetView {
        RemovalTargetView { decision: self.decision@, depth: self.depth as nat }
    }
}

/// Whether one target is deleted no later than another: by kind, then the
/// deeper one, then name, then id.
pub open spec fn target_ranks(left: RemovalTargetView, right: RemovalTargetView) -> bool {
    let a = left.decision.resource;
    let b = right.decision.resource;
    if a.kind != b.kind {
        kind_rank(a.kind) < kind_rank(b.kind)
    } else if left.depth != right.depth {
        left.depth > right.depth
    } else if a.name != b.name {
        text_lt(a.name, b.name)
    } else {
        !text_lt(b.id, a.id)
    }
}

impl Ranked for RemovalTarget {
    open spec fn ranks(left: RemovalTargetView, right: RemovalTargetView) -> bool {
        target_ranks(left, right)
    }

    proof fn ranks_total(left: RemovalTargetView, right: RemovalTargetView) {
        let a = left.decision.resource;
        let b = right.decision.resource;
        lemma_text_lt_total(a.name, b.name);
        if text_lt(a.id, b.id) && text_lt(b.id, a.id) {
            lemma_text_lt_transitive(a.id, b.id, a.id);
            lemma_text_lt_irreflexive(a.id);
        }
    }

    proof fn ranks_transitive(a: RemovalTargetView, b: RemovalTargetView, c: RemovalTargetView) {
        let x = a.decision.resource;
        let y = b.decision.resource;
        let z = c.decision.resource;
        if x.kind == y.kind && y.kind == z.kind && a.depth == b.depth && b.depth == c.depth {
            if x.name != y.name && y.name != z.name {
                lemma_text_lt_transitive(x.name, y.name, z.name);
                lemma_text_lt_irreflexive(x.name);
            } else if x.name == y.name && y.name == z.name {
                lemma_text_le_transitive(x.id, y.id, z.id);
            }
        }
    }

    fn in_order(&self, other: &Self) -> (held: bool) {
        let a = &self.decision.resource;
        let b = &other.decision.resource;
        let left: u8 = a.kind.rank();
        let right: u8 = b.kind.rank();
        if left != right {
            left < right
        } else if self.depth != other.depth {
            self.depth > other.depth
        } else if !text_eq(a.name.as_str(), b.name.as_str()) {
            precedes(a.name.as_str(), b.name.as_str())
        } else {
            !precedes(b.id.as_str(), a.id.as_str())
        }
    }
}

/// A removal with its depth; only build-cache records have one.
pub open spec fn target_of(
    links: Seq<(Seq<char>, Seq<Seq<char>>)>,
    decision: DecisionView,
) -> RemovalTargetView {
    RemovalTargetView {
        decision,
        depth: if decision.resource.kind == ResourceKind::BuildCache {
            depth_of(links, decision.resource.id)
        } else {
            0
        },
    }
}

/// The removals of a plan with their depths.
pub open spec fn targets_of(decisions: Seq<DecisionView>) -> Seq<RemovalTargetView> {
    let links = cache_links(decisions);
    removals_of(decisions).map_values(|decision: DecisionView| target_of(links, decision))
}

/// The removals of a plan in the order in which they are deleted.
pub open spec fn ordered_targets(decisions: Seq<DecisionView>) -> Seq<DecisionView> {
    ranked::<RemovalTarget>(targets_of(decisions)).map_values(
        |target: RemovalTargetView| target.decision,
    )
}

proof fn lemma_links(decisions: Seq<DecisionView>, index: int)
    requires
        0 <= index < decisions.len(),
        decisions[index].resource.kind == ResourceKind::BuildCache,
    ensures
        keys_ascend(cache_links(decisions)),
        has_key(cache_links(decisions), decisions[index].resource.id),
    decreases decisions.len(),
{
    let rest = decisions.drop_last();
    let item = decisions.last().resource;
    let id = decisions[index].resource.id;
    lemma_links_ascend(rest);
    if item.kind == ResourceKind::BuildCache {
        lemma_put(cache_links(rest), item.id, item.parent_ids, id);
    }
    if index < rest.len() {
        assert(rest[index] == decisions[index]);
        lemma_links(rest, index);
    }
}

proof fn lemma_links_ascend(decisions: Seq<DecisionView>)
    ensures
        keys_ascend(cache_links(decisions)),
    decreases decisions.len(),
{
    if decisions.len() > 0 {
        let rest = decisions.drop_last();
        let item = decisions.last().resource;
        lemma_links_ascend(rest);
        if item.kind == ResourceKind::BuildCache {
            lemma_put(cache_links(rest), item.id, item.parent_ids, item.id);
        }
    }
}

/// The removals of a plan in the order in which they are deleted: by kind,
/// build-cache children before their parents, then by name and id.
pub fn ordered_removal_targets(plan: &Plan) -> (targets: Vec<Decision>)
    ensures
        views(targets@) == ordered_targets(plan@),
{
    broadcast use group_views;

    let ghost all = views(plan.decisions@);
    let links = collect_links(&plan.decisions);
    let depths = cache_depths(&links);
    let ghost by_links = |decision: DecisionView| target_of(links@, decision);
    let mut targets: Vec<RemovalTarget> = Vec::new();
    let mut index: usize = 0;
    assert(views(targets@) =~= removals_of(all.take(0)).map_values(by_links));
    while index < plan.decisions.len()
        invariant
            index <= plan.decisions@.len(),
            all == views(plan.decisions@),
            links@ == cache_links(all),
            depths@.len() == links@.len(),
            forall|i: int|
                0 <= i < depths@.len() ==> #[trigger] depths@[i] == depth_of(links@, links@[i].0),
            by_links == (|decision: DecisionView| target_of(links@, decision)),
            views(targets@) == removals_of(all.take(index as int)).map_values(by_links),
        decreases plan.decisions@.len() - index,
    {
        let decision = &plan.decisions[index];
        assert(all.take(index as int + 1).drop_last() =~= all.take(index as int));
        assert(all.take(index as int + 1).last() == decision@);
        if decision.action == Action::Remove {
            let mut depth: usize = 0;
            if decision.resource.kind == ResourceKind::BuildCache {
                proof {
                    assert(all[index as int] == decision@);
                    lemma_links(all, index as int);
                }
                match links.position(decision.resource.id.as_str()) {
                    Some(place) => {
                        depth = depths[place];
                    },
                    None => {},
                }
            }
            let target = RemovalTarget { decision: decision.clone(), depth };
            proof {
                assert(target@ == target_of(links@, decision@));
                let before = removals_of(all.take(index as int));
                assert(before.push(decision@).map_values(by_links) =~= before.map_values(
                    by_links,
                ).push(target@));
            }
            targets.push(target);
        }
        index += 1;
    }
    assert(all.take(index as int) =~= all);
    assert(removals_of(all).map_values(by_links) =~= targets_of(all));
    let sorted = sort(targets);
    let ghost wanted = ordered_targets(all);
    let mut rest = sorted;
    let mut ordered: Vec<Decision> = Vec::new();
    let ghost mut done: int = 0;
    assert(views(ordered@) =~= wanted.take(0));
    assert(sorted@.skip(0) =~= sorted@);
    while rest.len() > 0
        invariant
            0 <= done <= sorted@.len(),
            rest@ == sorted@.skip(done),
            views(sorted@) == ranked::<RemovalTarget>(targets_of(all)),
            wanted == ordered_targets(all),
            views(ordered@) == wanted.take(done),
        decreases rest@.len(),
    {
        let target = rest.remove(0);
        proof {
            assert(target@ == views(sorted@)[done]);
            assert(wanted[done] == target@.decision);
            assert(wanted.take(done + 1) =~= wanted.take(done).push(target@.decision));
            assert(rest@ =~= sorted@.skip(done + 1));
            done = done + 1;
        }
        ordered.push(target.decision);
    }
    assert(wanted.take(done) =~= wanted);
    ordered
}

/// Whether a configuration read again is the one that a plan was made from.
pub fn configuration_is_unchanged(
    initial_config: &Config,
    initial_source: &str,
    current: &LoadedConfig,
) -> (unchanged: bool)
    ensures
        unchanged == (current.source@ == initial_source@ && current.config@ == initial_config@),
{
    text_eq(current.source.as_str(), initial_source) && current.config.same(initial_config)
}

/// The first decision on a resource.
pub open spec fn decision_on(
    decisions: Seq<DecisionView>,
    kind: ResourceKind,
    id: Seq<char>,
) -> Option<DecisionView>
    decreases decisions.len(),
{
    if decisions.len() == 0 {
        None
    } else if decisions[0].resource.kind == kind && decisions[0].resource.id == id {
        Some(decisions[0])
    } else {
        decision_on(decisions.drop_first(), kind, id)
    }
}

/// What a fresh plan says of a target: still to be removed under the same rule
/// and footing, or why not.
pub open spec fn revalidated(target: DecisionView, current: Seq<DecisionView>) -> Result<
    DecisionView,
    Seq<char>,
> {
    match decision_on(current, target.resource.kind, target.resource.id) {
        None => Err("resource disappeared before deletion"@),
        Some(decision) => if decision.action != Action::Remove {
            Err("resource became ineligible: "@ + decision.reason)
        } else if decision.disposition != target.disposition || decision.matched_rule
            != target.matched_rule {
            Err("resource no longer matches the same authorized rule"@)
        } else {
            Ok(decision)
        },
    }
}

/// The decision of a fresh plan that still authorizes a target.
pub fn select_revalidated_target<'a>(target: &Decision, current_plan: &'a Plan) -> (outcome: Result<
    &'a Decision,
    String,
>)
    ensures
        match outcome {
            Ok(decision) => revalidated(target@, current_plan@) == Ok::<DecisionView, Seq<char>>(
                decision@,
            ),
            Err(message) => revalidated(target@, current_plan@) == Err::<DecisionView, Seq<char>>(
                message@,
            ),
        },
{
    broadcast use group_views;

    let ghost all = views(current_plan.decisions@);
    let ghost kind = target@.resource.kind;
    let ghost id = target@.resource.id;
    let mut index: usize = 0;
    assert(all.skip(0) =~= all);
    while index < current_plan.decisions.len()
        invariant
            index <= current_plan.decisions@.len(),
            all == views(current_plan.decisions@),
            kind == target@.resource.kind,
            id == target@.resource.id,
            decision_on(all, kind, id) == decision_on(all.skip(index as int), kind, id),
        decreases current_plan.decisions@.len() - index,
    {
        let current = &current_plan.decisions[index];
        assert(all.skip(index as int)[0] == current@);
        if current.resource.kind == target.resource.kind && text_eq(
            current.resource.id.as_str(),
            target.resource.id.as_str(),
        ) {
            if current.action != Action::Remove {
                return Err(concat2("resource became ineligible: ", current.reason.as_str()));
            }
            if current.disposition != target.disposition || !opt_text_eq(
                &current.matched_rule,
                &target.matched_rule,
            ) {
                return Err("resource no longer matches the same authorized rule".to_owned());
            }
            return Ok(current);
        }
        assert(all.skip(index as int).drop_first() =~= all.skip(index as int + 1));
        index += 1;
    }
    Err("resource disappeared before deletion".to_owned())
}

/// What is decided right before a deletion, from the configuration read again,
/// a fresh inventory and the runtime state.
pub open spec fn revalidation(
    target: DecisionView,
    config: ConfigView,
    unchanged: bool,
    inventory: Seq<ItemView>,
    now: i64,
    context: ContextView,
) -> Result<DecisionView, Seq<char>> {
    if !unchanged {
        Err("configuration changed after the plan was created"@)
    } else {
        match policy_fault(config) {
            Some(fault) => Err(
                "revalidation could not rebuild the plan: "@ + (fault.field + ": "@
                    + fault.message),
            ),
            None => revalidated(target, plan_for(config, inventory, now, context)),
        }
    }
}

/// Decides right before a deletion whether a target may still be deleted.
pub fn revalidate<'a>(
    initial_config: &Config,
    initial_source: &str,
    target: &Decision,
    loaded: &LoadedConfig,
    inventory: Vec<InventoryItem>,
    now: i64,
    context: &PlanContext<'a>,
) -> (outcome: Result<Decision, String>)
    ensures
        ({
            let wanted = revalidation(
                target@,
                loaded.config@,
                loaded.source@ == initial_source@ && loaded.config@ == initial_config@,
                views(inventory@),
                now,
                context@,
            );
            match outcome {
                Ok(decision) => wanted == Ok::<DecisionView, Seq<char>>(decision@),
                Err(message) => wanted == Err::<DecisionView, Seq<char>>(message@),
            }
        }),
{
    if !configuration_is_unchanged(initial_config, initial_source, loaded) {
        return Err("configuration changed after the plan was created".to_owned());
    }
    match build_plan_with_context(&loaded.config, inventory, now, context) {
        Ok(plan) => match select_revalidated_target(target, &plan) {
            Ok(decision) => Ok(decision.clone()),
            Err(message) => Err(message),
        },
        Err(error) => Err(
            concat2("revalidation could not rebuild the plan: ", error.message().as_str()),
        ),
    }
}

/// The request that deletes a target.
#[derive(Debug, PartialEq, Eq)]
pub enum DeleteRequest {
    /// Remove a container; a running one by force. Its volumes and links stay.
    Container { id: String, force: bool },
    /// Remove an image, never by force, and leave its untagged parents.
    Image { id: String },
    /// Remove a volume, never by force.
    Volume { id: String },
    /// Remove a network.
    Network { id: String },
    /// Prune the one build-cache record with this id.
    BuildCache { id: String },
}

/// The request that deletes a target: by its id, and by force only a running
/// container.
pub fn delete_request(target: &Decision) -> (request: DeleteRequest)
    ensures
        match (target@.resource.kind, request) {
            (ResourceKind::Container, DeleteRequest::Container { id, force }) => {
                &&& id@ == target@.resource.id
                &&& force == (target@.resource.state is Running)
            },
            (ResourceKind::Image, DeleteRequest::Image { id }) => id@ == target@.resource.id,
            (ResourceKind::Volume, DeleteRequest::Volume { id }) => id@ == target@.resource.id,
            (ResourceKind::Network, DeleteRequest::Network { id }) => id@ == target@.resource.id,
            (ResourceKind::BuildCache, DeleteRequest::BuildCache { id }) => id@
                == target@.resource.id,
            _ => false,
        },
{
    let id = target.resource.id.clone();
    match target.resource.kind {
        ResourceKind::Container => DeleteRequest::Container {
            id,
            force: target.resource.state.is_running(),
        },
        ResourceKind::Image => DeleteRequest::Image { id },
        ResourceKind::Volume => DeleteRequest::Volume { id },
        ResourceKind::Network => DeleteRequest::Network { id },
        ResourceKind::BuildCache => DeleteRequest::BuildCache { id },
    }
}

/// What Docker did when asked to delete.
#[derive(Debug, PartialEq, Eq)]
pub enum DeleteEffect {
    Removed(String),
    Skipped(String),
    Failed(String),
}

/// What Docker answers to a prune of the build cache.
#[derive(Debug, PartialEq, Eq)]
pub struct PruneResponse {
    pub caches_deleted: Option<Vec<String>>,
    pub space_reclaimed: Option<i64>,
}

/// The ids that a prune reports as deleted.
pub open spec fn pruned_ids(response: PruneResponse) -> Seq<Seq<char>> {
    match response.caches_deleted {
        Some(ids) => views(ids@),
        None => Seq::empty(),
    }
}

/// The ids other than the target's, in their order.
pub open spec fn unexpected_ids(ids: Seq<Seq<char>>, target: Seq<char>) -> Seq<Seq<char>>
    decreases ids.len(),
{
    if ids.len() == 0 {
        ids
    } else {
        let before = unexpected_ids(ids.drop_last(), target);
        if ids.last() != target {
            before.push(ids.last())
        } else {
            before
        }
    }
}

/// A number of bytes, 0 where it is unknown or negative.
pub open spec fn bytes_or_zero(bytes: Option<i64>) -> nat {
    match bytes {
        Some(value) => if value > 0 {
            value as nat
        } else {
            0
        },
        None => 0,
    }
}

/// What a prune that was to delete one record did: it must name that record and
/// no other.
pub fn classify_prune_response(target_id: &str, response: &PruneResponse) -> (effect: DeleteEffect)
    ensures
        ({
            let deleted = pruned_ids(*response);
            let unexpected = unexpected_ids(deleted, target_id@);
            match effect {
                DeleteEffect::Failed(detail) => {
                    &&& unexpected.len() > 0
                    &&& detail@ == "Docker reported unexpected build-cache deletions: "@ + joined(
                        unexpected,
                        ", "@,
                    )
                },
                DeleteEffect::Removed(detail) => {
                    &&& unexpected.len() == 0
                    &&& deleted.contains(target_id@)
                    &&& detail@ == "removed; reclaimed "@ + decimal(
                        bytes_or_zero(response.space_reclaimed),
                    ) + " bytes"@
                },
                DeleteEffect::Skipped(detail) => {
                    &&& unexpected.len() == 0
                    &&& !deleted.contains(target_id@)
                    &&& detail@ == "Docker did not delete the build-cache record"@
                },
            }
        }),
{
    broadcast use group_views;

    let none: Vec<String> = Vec::new();
    assert(views(none@) =~= Seq::<Seq<char>>::empty());
    let deleted = match &response.caches_deleted {
        Some(ids) => ids,
        None => &none,
    };
    let ghost all = views(deleted@);
    let mut unexpected: Vec<String> = Vec::new();
    let mut index: usize = 0;
    assert(views(unexpected@) =~= unexpected_ids(all.take(0), target_id@));
    while index < deleted.len()
        invariant
            index <= deleted@.len(),
            all == views(deleted@),
            views(unexpected@) == unexpected_ids(all.take(index as int), target_id@),
        decreases deleted@.len() - index,
    {
        assert(all.take(index as int + 1).drop_last() =~= all.take(index as int));
        assert(all.take(index as int + 1).last() == deleted@[index as int]@);
        if !text_eq(deleted[index].as_str(), target_id) {
            unexpected.push(deleted[index].clone());
        }
        index += 1;
    }
    assert(all.take(index as int) =~= all);
    if unexpected.len() > 0 {
        return DeleteEffect::Failed(
            concat2(
                "Docker reported unexpected build-cache deletions: ",
                join(&unexpected, ", ").as_str(),
            ),
        );
    }
    if contains_item(deleted, target_id) {
        let bytes: u64 = match response.space_reclaimed {
            Some(value) => if value > 0 {
                value as u64
            } else {
                0
            },
            None => 0,
        };
        return DeleteEffect::Removed(
            concat3("removed; reclaimed ", decimal_text(bytes).as_str(), " bytes"),
        );
    }
    DeleteEffect::Skipped("Docker did not delete the build-cache record".to_owned())
}

/// How a failed request counts: a resource that is gone or in use is skipped.
pub open spec fn error_status(status_code: Option<u16>) -> TargetStatus {
    if status_code == Some(404u16) || status_code == Some(409u16) {
        TargetStatus::Skipped
    } else {
        TargetStatus::Failed
    }
}

/// How a failed request counts, and what is reported of it. `status_code` is
/// the code with which Docker answered, where it answered.
pub fn classify_delete_error(status_code: Option<u16>, message: &str) -> (classified: (
    TargetStatus,
    String,
))
    ensures
        classified.0 == error_status(status_code),
        classified.1@ == "Docker deletion failed: "@ + message@,
{
    let status = match status_code {
        Some(code) => if code == 404 || code == 409 {
            TargetStatus::Skipped
        } else {
            TargetStatus::Failed
        },
        None => TargetStatus::Failed,
    };
    (status, concat2("Docker deletion failed: ", message))
}

/// The outcome of a target.
pub open spec fn outcome_for(
    target: DecisionView,
    status: TargetStatus,
    detail: Seq<char>,
) -> OutcomeView {
    OutcomeView {
        kind: target.resource.kind,
        id: target.resource.id,
        name: target.resource.name,
        matched_rule: or_text(target.matched_rule, "-"@),
        status,
        detail,
    }
}

/// The outcome of a target.
pub fn target_outcome(target: &Decision, status: TargetStatus, detail: String) -> (outcome:
    TargetOutcome)
    ensures
        outcome@ == outcome_for(target@, status, detail@),
{
    TargetOutcome {
        kind: target.resource.kind,
        id: target.resource.id.clone(),
        name: target.resource.name.clone(),
        matched_rule: text_or(&target.matched_rule, "-"),
        status,
        detail,
    }
}

/// What happened when a target was to be deleted.
#[derive(Debug, PartialEq, Eq)]
pub enum Attempt {
    /// The target was not confirmed again, for this reason.
    Refused(String),
    /// Docker did what it was asked, or said that it did not.
    Done(DeleteEffect),
    /// The request failed.
    Error { status_code: Option<u16>, message: String },
}

/// How an attempt counts.
pub open spec fn attempt_status(attempt: Attempt) -> TargetStatus {
    match attempt {
        Attempt::Refused(_) => TargetStatus::Skipped,
        Attempt::Done(DeleteEffect::Removed(_)) => TargetStatus::Removed,
        Attempt::Done(DeleteEffect::Skipped(_)) => TargetStatus::Skipped,
        Attempt::Done(DeleteEffect::Failed(_)) => TargetStatus::Failed,
        Attempt::Error { status_code, message: _ } => error_status(status_code),
    }
}

/// What is reported of an attempt.
pub open spec fn attempt_detail(attempt: Attempt) -> Seq<char> {
    match attempt {
        Attempt::Refused(detail) => detail@,
        Attempt::Done(DeleteEffect::Removed(detail)) => detail@,
        Attempt::Done(DeleteEffect::Skipped(detail)) => detail@,
        Attempt::Done(DeleteEffect::Failed(detail)) => detail@,
        Attempt::Error { status_code: _, message } => "Docker deletion failed: "@ + message@,
    }
}

/// A plan being applied: its targets are fixed at the start and dealt with one
/// after the other.
pub struct Execution {
    targets: Vec<Decision>,
    outcomes: Vec<TargetOutcome>,
}

impl Execution {
    /// The targets, in the order in which they are dealt with.
    pub closed spec fn targets(&self) -> Seq<DecisionView> {
        views(self.targets@)
    }

    /// The outcomes so far.
    pub closed spec fn outcomes(&self) -> Seq<OutcomeView> {
        views(self.outcomes@)
    }

    #[verifier::type_invariant]
    spec fn keeps_pace(self) -> bool {
        &&& self.outcomes@.len() <= self.targets@.len()
        &&& forall|i: int|
            #![trigger self.outcomes@[i]]
            0 <= i < self.outcomes@.len() ==> self.outcomes@[i]@ == outcome_for(
                self.targets@[i]@,
                self.outcomes@[i].status,
                self.outcomes@[i].detail@,
            )
    }

    /// Starts to apply a plan.
    pub fn start(plan: &Plan) -> (execution: Self)
        ensures
            execution.targets() == ordered_targets(plan@),
            execution.outcomes().len() == 0,
    {
        let targets = ordered_removal_targets(plan);
        Execution { targets, outcomes: Vec::new() }
    }

    /// The target to deal with next.
    pub fn next_target(&self) -> (target: Option<&Decision>)
        ensures
            match target {
                Some(decision) => {
                    &&& self.outcomes().len() < self.targets().len()
                    &&& decision@ == self.targets()[self.outcomes().len() as int]
                },
                None => self.outcomes().len() == self.targets().len(),
            },
    {
        broadcast use group_views;

        proof {
            use_type_invariant(self);
        }
        if self.outcomes.len() < self.targets.len() {
            Some(&self.targets[self.outcomes.len()])
        } else {
            None
        }
    }

    /// Records what happened to the target that was next.
    pub fn record(self, attempt: Attempt) -> (next: Self)
        requires
            self.outcomes().len() < self.targets().len(),
        ensures
            next.targets() == self.targets(),
            next.outcomes() == self.outcomes().push(
                outcome_for(
                    self.targets()[self.outcomes().len() as int],
                    attempt_status(attempt),
                    attempt_detail(attempt),
                ),
            ),
    {
        broadcast use group_views;

        proof {
            use_type_invariant(&self);
        }
        let (status, detail) = match attempt {
            Attempt::Refused(detail) => (TargetStatus::Skipped, detail),
            Attempt::Done(DeleteEffect::Removed(detail)) => (TargetStatus::Removed, detail),
            Attempt::Done(DeleteEffect::Skipped(detail)) => (TargetStatus::Skipped, detail),
            Attempt::Done(DeleteEffect::Failed(detail)) => (TargetStatus::Failed, detail),
            Attempt::Error { status_code, message } => classify_delete_error(
                status_code,
                message.as_str(),
            ),
        };
        let outcome = target_outcome(&self.targets[self.outcomes.len()], status, detail);
        let targets = self.targets;
        let mut outcomes = self.outcomes;
        outcomes.push(outcome);
        Execution { targets, outcomes }
    }

    /// The report, once every target has its outcome. Every outcome is that of
    /// the target in its place: applying a plan adds no target and hides none.
    pub fn report(self) -> (report: ExecutionReport)
        ensures
            report@ == self.outcomes(),
            report@.len() <= self.targets().len(),
            forall|i: int|
                0 <= i < report@.len() ==> #[trigger] report@[i] == outcome_for(
                    self.targets()[i],
                    report@[i].status,
                    report@[i].detail,
                ),
    {
        broadcast use group_views;

        proof {
            use_type_invariant(&self);
        }
        let report = ExecutionReport { outcomes: self.outcomes };
        assert forall|i: int| 0 <= i < report@.len() implies #[trigger] report@[i] == outcome_for(
            self.targets()[i],
            report@[i].status,
            report@[i].detail,
        ) by {
            assert(report@[i] == self.outcomes@[i]@);
        }
        report
    }
}

/// A target that is confirmed again is the same resource, still removed, under
/// the same rule and on the same footing: confirmation can drop a target but
/// never put another in its place.
pub proof fn confirmation_only_shrinks_a_plan(
    target: DecisionView,
    current: Seq<DecisionView>,
    decision: DecisionView,
)
    requires
        revalidated(target, current) == Ok::<DecisionView, Seq<char>>(decision),
    ensures
        current.contains(decision),
        decision.action == Action::Remove,
        decision.resource.kind == target.resource.kind,
        decision.resource.id == target.resource.id,
        decision.disposition == target.disposition,
        decision.matched_rule == target.matched_rule,
{
    lemma_decision_on(current, target.resource.kind, target.resource.id);
}

proof fn lemma_decision_on(decisions: Seq<DecisionView>, kind: ResourceKind, id: Seq<char>)
    ensures
        match decision_on(decisions, kind, id) {
            Some(decision) => {
                &&& decisions.contains(decision)
                &&& decision.resource.kind == kind
                &&& decision.resource.id == id
            },
            None => true,
        },
    decreases decisions.len(),
{
    if decisions.len() > 0 {
        if decisions[0].resource.kind == kind && decisions[0].resource.id == id {
            assert(decisions.contains(decisions[0]));
        } else {
            let rest = decisions.drop_first();
            lemma_decision_on(rest, kind, id);
            match decision_on(rest, kind, id) {
                Some(decision) => {
                    let i = choose|i: int| 0 <= i < rest.len() && rest[i] == decision;
                    assert(decisions[i + 1] == decision);
                },
                None => {},
            }
        }
    }
}

/// Whether parents stand strictly lower than their children, below the number
/// of records: the records form no cycle.
pub open spec fn heights_descend(
    links: Seq<(Seq<char>, Seq<Seq<char>>)>,
    height: spec_fn(Seq<char>) -> nat,
) -> bool {
    &&& forall|i: int| 0 <= i < links.len() ==> height((#[trigger] links[i]).0) < links.len()
    &&& forall|i: int, p: Seq<char>|
        0 <= i < links.len() && (#[trigger] links[i]).1.contains(p) && #[trigger] has_key(links, p)
            ==> height(p) < height(links[i].0)
}

proof fn lemma_depth_stable(
    links: Seq<(Seq<char>, Seq<Seq<char>>)>,
    height: spec_fn(Seq<char>) -> nat,
    id: Seq<char>,
    limit: nat,
)
    requires
        keys_ascend(links),
        heights_descend(links, height),
        has_key(links, id),
        height(id) <= limit,
    ensures
        depth_within(links, id, limit) == depth_within(links, id, limit + 1),
    decreases limit, 0nat,
{
    let i = key_index(links, id);
    lemma_value_at(links, i);
    let parents = links[i].1;
    assert(value_of(links, id) == Some(parents));
    if limit == 0 {
        lemma_no_known_parents(links, height, i, parents, 0);
    } else {
        assert forall|k: int|
            0 <= k < parents.len() && has_key(links, #[trigger] parents[k]) implies height(
            parents[k],
        ) <= limit - 1 by {
            assert(links[i].1.contains(parents[k]));
        }
        lemma_deepest_stable(links, height, parents, (limit - 1) as nat);
    }
}

proof fn lemma_no_known_parents(
    links: Seq<(Seq<char>, Seq<Seq<char>>)>,
    height: spec_fn(Seq<char>) -> nat,
    index: int,
    parents: Seq<Seq<char>>,
    limit: nat,
)
    requires
        heights_descend(links, height),
        0 <= index < links.len(),
        height(links[index].0) == 0,
        forall|k: int| 0 <= k < parents.len() ==> links[index].1.contains(#[trigger] parents[k]),
    ensures
        deepest(links, parents, limit) == 0,
    decreases parents.len(),
{
    if parents.len() > 0 {
        let rest = parents.drop_last();
        assert forall|k: int| 0 <= k < rest.len() implies links[index].1.contains(
            #[trigger] rest[k],
        ) by {
            assert(parents[k] == rest[k]);
        }
        lemma_no_known_parents(links, height, index, rest, limit);
        assert(links[index].1.contains(parents[parents.len() - 1]));
        assert(!has_key(links, parents.last()));
    }
}

proof fn lemma_deepest_stable(
    links: Seq<(Seq<char>, Seq<Seq<char>>)>,
    height: spec_fn(Seq<char>) -> nat,
    parents: Seq<Seq<char>>,
    limit: nat,
)
    requires
        keys_ascend(links),
        heights_descend(links, height),
        forall|k: int|
            0 <= k < parents.len() && has_key(links, #[trigger] parents[k]) ==> height(parents[k])
                <= limit,
    ensures
        deepest(links, parents, limit) == deepest(links, parents, limit + 1),
    decreases limit, 1 + parents.len(),
{
    if parents.len() > 0 {
        let rest = parents.drop_last();
        assert forall|k: int|
            0 <= k < rest.len() && has_key(links, #[trigger] rest[k]) implies height(rest[k])
            <= limit by {
            assert(parents[k] == rest[k]);
        }
        lemma_deepest_stable(links, height, rest, limit);
        if has_key(links, parents.last()) {
            assert(has_key(links, parents[parents.len() - 1]));
            lemma_depth_stable(links, height, parents.last(), limit);
        }
    }
}

proof fn lemma_deepest_reaches(
    links: Seq<(Seq<char>, Seq<Seq<char>>)>,
    parents: Seq<Seq<char>>,
    parent: Seq<char>,
    limit: nat,
)
    requires
        parents.contains(parent),
        has_key(links, parent),
    ensures
        deepest(links, parents, limit) >= depth_within(links, parent, limit) + 1,
    decreases parents.len(),
{
    let k = choose|k: int| 0 <= k < parents.len() && parents[k] == parent;
    if k < parents.len() - 1 {
        assert(parents.drop_last()[k] == parent);
        lemma_deepest_reaches(links, parents.drop_last(), parent, limit);
    }
}

proof fn lemma_parent_is_shallower(
    links: Seq<(Seq<char>, Seq<Seq<char>>)>,
    height: spec_fn(Seq<char>) -> nat,
    child: Seq<char>,
    parent: Seq<char>,
)
    requires
        keys_ascend(links),
        heights_descend(links, height),
        value_of(links, child) is Some,
        value_of(links, child).unwrap().contains(parent),
        has_key(links, parent),
    ensures
        depth_of(links, child) > depth_of(links, parent),
{
    let count = links.len();
    let i = key_index(links, child);
    lemma_value_at(links, i);
    assert(links[i].1.contains(parent));
    assert(height(parent) < height(links[i].0));
    lemma_deepest_reaches(links, links[i].1, parent, (count - 1) as nat);
    lemma_depth_stable(links, height, parent, (count - 1) as nat);
}

/// Among build-cache records that form no cycle, a child is deleted before its
/// parent.
pub proof fn children_are_deleted_before_parents(
    decisions: Seq<DecisionView>,
    height: spec_fn(Seq<char>) -> nat,
    child: int,
    parent: int,
    child_place: int,
    parent_place: int,
)
    requires
        heights_descend(cache_links(decisions), height),
        0 <= child < decisions.len(),
        0 <= parent < decisions.len(),
        decisions[child].resource.kind == ResourceKind::BuildCache,
        decisions[parent].resource.kind == ResourceKind::BuildCache,
        value_of(cache_links(decisions), decisions[child].resource.id) == Some(
            decisions[child].resource.parent_ids,
        ),
        decisions[child].resource.parent_ids.contains(decisions[parent].resource.id),
        0 <= child_place < ordered_targets(decisions).len(),
        0 <= parent_place < ordered_targets(decisions).len(),
        ranked::<RemovalTarget>(targets_of(decisions))[child_place] == target_of(
            cache_links(decisions),
            decisions[child],
        ),
        ranked::<RemovalTarget>(targets_of(decisions))[parent_place] == target_of(
            cache_links(decisions),
            decisions[parent],
        ),
    ensures
        child_place < parent_place,
        ordered_targets(decisions)[child_place] == decisions[child],
        ordered_targets(decisions)[parent_place] == decisions[parent],
{
    let links = cache_links(decisions);
    let sorted = ranked::<RemovalTarget>(targets_of(decisions));
    lemma_links(decisions, child);
    lemma_links(decisions, parent);
    lemma_parent_is_shallower(
        links,
        height,
        decisions[child].resource.id,
        decisions[parent].resource.id,
    );
    lemma_ranked_is_sorted_permutation::<RemovalTarget>(targets_of(decisions));
    if parent_place <= child_place {
        assert(RemovalTarget::ranks(sorted[parent_place], sorted[child_place]));
    }
}

/// Whether each id of a line is that of a record whose parents hold the next.
pub open spec fn is_line(links: Seq<(Seq<char>, Seq<Seq<char>>)>, line: Seq<Seq<char>>) -> bool {
    forall|i: int|
        0 <= i < line.len() - 1 ==> {
            &&& value_of(links, #[trigger] line[i]) is Some
            &&& value_of(links, line[i]).unwrap().contains(line[i + 1])
            &&& has_key(links, line[i + 1])
        }
}

proof fn lemma_line_ascends(
    links: Seq<(Seq<char>, Seq<Seq<char>>)>,
    height: spec_fn(Seq<char>) -> nat,
    line: Seq<Seq<char>>,
)
    requires
        keys_ascend(links),
        heights_descend(links, height),
        is_line(links, line),
        line.len() >= 2,
    ensures
        depth_of(links, line[0]) > depth_of(links, line.last()),
    decreases line.len(),
{
    let end = line.len() - 1;
    assert(value_of(links, line[end - 1]) is Some);
    lemma_parent_is_shallower(links, height, line[end - 1], line[end]);
    if line.len() > 2 {
        let rest = line.drop_last();
        assert forall|i: int| 0 <= i < rest.len() - 1 implies {
            &&& value_of(links, #[trigger] rest[i]) is Some
            &&& value_of(links, rest[i]).unwrap().contains(rest[i + 1])
            &&& has_key(links, rest[i + 1])
        } by {
            assert(value_of(links, line[i]) is Some);
        }
        lemma_line_ascends(links, height, rest);
    }
}

proof fn lemma_target_depth(decisions: Seq<DecisionView>, place: int)
    requires
        0 <= place < ordered_targets(decisions).len(),
    ensures
        ranked::<RemovalTarget>(targets_of(decisions))[place] == target_of(
            cache_links(decisions),
            ordered_targets(decisions)[place],
        ),
{
    let targets = targets_of(decisions);
    let target = ranked::<RemovalTarget>(targets)[place];
    lemma_ranked_holds::<RemovalTarget>(targets, place);
    let k = choose|k: int| 0 <= k < targets.len() && targets[k] == target;
    assert(targets[k] == target_of(cache_links(decisions), removals_of(decisions)[k]));
}

/// Among build-cache records that form no cycle, a record is deleted before
/// every ancestor of it, also one that it reaches through records that are
/// kept.
pub proof fn descendants_are_deleted_before_ancestors(
    decisions: Seq<DecisionView>,
    height: spec_fn(Seq<char>) -> nat,
    line: Seq<Seq<char>>,
    place: int,
    ancestor_place: int,
)
    requires
        heights_descend(cache_links(decisions), height),
        is_line(cache_links(decisions), line),
        line.len() >= 2,
        0 <= place < ordered_targets(decisions).len(),
        0 <= ancestor_place < ordered_targets(decisions).len(),
        ordered_targets(decisions)[place].resource.kind == ResourceKind::BuildCache,
        ordered_targets(decisions)[place].resource.id == line[0],
        ordered_targets(decisions)[ancestor_place].resource.kind == ResourceKind::BuildCache,
        ordered_targets(decisions)[ancestor_place].resource.id == line.last(),
    ensures
        place < ancestor_place,
{
    let links = cache_links(decisions);
    let sorted = ranked::<RemovalTarget>(targets_of(decisions));
    lemma_links_ascend(decisions);
    lemma_line_ascends(links, height, line);
    lemma_target_depth(decisions, place);
    lemma_target_depth(decisions, ancestor_place);
    lemma_ranked_is_sorted_permutation::<RemovalTarget>(targets_of(decisions));
    if ancestor_place <= place {
        assert(RemovalTarget::ranks(sorted[ancestor_place], sorted[place]));
    }
}

/// Every removal of a plan is a target, and nothing else is.
pub proof fn targets_are_exactly_the_removals(decisions: Seq<DecisionView>)
    ensures
        ordered_targets(decisions).to_multiset() == removals_of(decisions).to_multiset(),
{
    let links = cache_links(decisions);
    let removals = removals_of(decisions);
    let targets = targets_of(decisions);
    let sorted = ranked::<RemovalTarget>(targets);
    lemma_ranked_is_sorted_permutation::<RemovalTarget>(targets);
    let project = |target: RemovalTargetView| target.decision;
    assert(targets.map_values(project) =~= removals);
    lemma_mapped_multiset(sorted, targets, project);
}

} // verus!
