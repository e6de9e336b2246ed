//! Decisions and plans: what a configuration does with an inventory.

use crate::config::{Config, ConfigView};
use crate::duration::{format_duration, short_duration};
use crate::observation::{empty_observations, ObservationState, ObservationStateView};
use crate::order::{
    lemma_text_le_transitive, lemma_text_lt_irreflexive, lemma_text_lt_total,
    lemma_text_lt_transitive, precedes, ranked, sort, text_lt, Ranked,
};
use crate::policy::{cache_removals, decision_for, policy_fault, policy_of, CompiledPolicy};
use crate::resource::{kind_rank, kind_text, state_text, ItemView};
use crate::state::{empty_protection, ProtectionState, ProtectionStateView};
use crate::table::{grid, push_table, table_text};
use crate::text::{
    clone_opt_text, concat2, concat3, count_text, decimal, group_views, opt_view, or_text, text_eq,
    text_or, views,
};
use vstd::prelude::*;
use vstd::string::*;

pub use crate::resource::{InventoryItem, ResourceKind, ResourceState};

verus! {

/// On what footing a decision stands.
#[derive(Debug, Clone, Copy, PartialEq, Eq, Structural)]
pub enum Disposition {
    Protected,
    Owned,
    AuthorizedUnscoped,
    Unowned,
}

/// The word for a disposition.
pub open spec fn disposition_text(disposition: Disposition) -> Seq<char> {
    match disposition {
        Disposition::Protected => "protected"@,
        Disposition::Owned => "owned"@,
        Disposition::AuthorizedUnscoped => "authorized-unscoped"@,
        Disposition::Unowned => "unowned"@,
    }
}

impl Disposition {
    /// The word for this disposition.
    pub fn as_text(self) -> (word: &'static str)
        ensures
            word@ == disposition_text(self),
    {
        match self {
            Disposition::Protected => "protected",
            Disposition::Owned => "owned",
            Disposition::AuthorizedUnscoped => "authorized-unscoped",
            Disposition::Unowned => "unowned",
        }
    }
}

/// What is done with a resource.
#[derive(Debug, Clone, Copy, PartialEq, Eq, Structural)]
pub enum Action {
    Keep,
    Remove,
}

/// The word for an action.
pub open spec fn action_text(action: Action) -> Seq<char> {
    match action {
        Action::Keep => "keep"@,
        Action::Remove => "remove"@,
    }
}

impl Action {
    /// The word for this action.
    pub fn as_text(self) -> (word: &'static str)
        ensures
            word@ == action_text(self),
    {
        match self {
            Action::Keep => "keep",
            Action::Remove => "remove",
        }
    }
}

/// What is decided about one resource, and why.
#[derive(Debug, PartialEq, Eq)]
pub struct Decision {
    pub resource: InventoryItem,
    pub disposition: Disposition,
    pub matched_rule: Option<String>,
    pub action: Action,
    pub age_seconds: Option<u64>,
    pub reason: String,
}

/// What a decision says.
#[verifier::ext_equal]
pub struct DecisionView {
    pub resource: ItemView,
    pub disposition: Disposition,
    pub matched_rule: Option<Seq<char>>,
    pub action: Action,
    pub age_seconds: Option<u64>,
    pub reason: Seq<char>,
}

impl View for Decision {
    type V = DecisionView;

    open spec fn view(&self) -> DecisionView {
        DecisionView {
            resource: self.resource@,
            disposition: self.disposition,
            matched_rule: opt_view(self.matched_rule),
            action: self.action,
            age_seconds: self.age_seconds,
            reason: self.reason@,
        }
    }
}

impl Clone for Decision {
    fn clone(&self) -> (copy: Self)
        ensures
            copy@ == self@,
    {
        Decision {
            resource: self.resource.clone(),
            disposition: self.disposition,
            matched_rule: clone_opt_text(&self.matched_rule),
            action: self.action,
            age_seconds: self.age_seconds,
            reason: self.reason.clone(),
        }
    }
}

impl Ranked for Decision {
    /// By kind, then name, then id.
    open spec fn ranks(left: DecisionView, right: DecisionView) -> bool {
        item_ranks(left.resource, right.resource)
    }

    proof fn ranks_total(left: DecisionView, right: DecisionView) {
        lemma_item_ranks_total(left.resource, right.resource);
    }

    proof fn ranks_transitive(a: DecisionView, b: DecisionView, c: DecisionView) {
        lemma_item_ranks_transitive(a.resource, b.resource, c.resource);
    }

    fn in_order(&self, other: &Self) -> (held: bool) {
        items_in_order(&self.resource, &other.resource)
    }
}

/// Whether one item may stand in front of another: by kind, then name, then id.
pub open spec fn item_ranks(left: ItemView, right: ItemView) -> bool {
    if left.kind != right.kind {
        kind_rank(left.kind) < kind_rank(right.kind)
    } else if left.name != right.name {
        text_lt(left.name, right.name)
    } else {
        !text_lt(right.id, left.id)
    }
}

pub proof fn lemma_item_ranks_total(left: ItemView, right: ItemView)
    ensures
        item_ranks(left, right) || item_ranks(right, left),
{
    lemma_text_lt_total(left.name, right.name);
    if text_lt(left.id, right.id) && text_lt(right.id, left.id) {
        lemma_text_lt_transitive(left.id, right.id, left.id);
        lemma_text_lt_irreflexive(left.id);
    }
}

pub proof fn lemma_item_ranks_transitive(a: ItemView, b: ItemView, c: ItemView)
    requires
        item_ranks(a, b),
        item_ranks(b, c),
    ensures
        item_ranks(a, c),
{
    if a.kind == b.kind && b.kind == c.kind {
        if a.name != b.name && b.name != c.name {
            lemma_text_lt_transitive(a.name, b.name, c.name);
            lemma_text_lt_irreflexive(a.name);
        } else if a.name == b.name && b.name == c.name {
            lemma_text_le_transitive(a.id, b.id, c.id);
        }
    }
}

/// Whether one item may stand in front of another.
pub fn items_in_order(left: &InventoryItem, right: &InventoryItem) -> (held: bool)
    ensures
        held == item_ranks(left@, right@),
{
    let a: u8 = left.kind.rank();
    let b: u8 = right.kind.rank();
    if a != b {
        a < b
    } else if !text_eq(left.name.as_str(), right.name.as_str()) {
        precedes(left.name.as_str(), right.name.as_str())
    } else {
        !precedes(right.id.as_str(), left.id.as_str())
    }
}

/// What is decided about every resource of an inventory.
#[derive(Debug, PartialEq, Eq)]
pub struct Plan {
    pub decisions: Vec<Decision>,
}

impl View for Plan {
    type V = Seq<DecisionView>;

    open spec fn view(&self) -> Seq<DecisionView> {
        views(self.decisions@)
    }
}

/// Why a configuration cannot be evaluated: a field and what is wrong with it.
#[derive(Debug, PartialEq, Eq)]
pub struct PlanError {
    pub field: String,
    pub message: String,
}

/// What a plan error says.
pub struct PlanErrorView {
    pub field: Seq<char>,
    pub message: Seq<char>,
}

impl View for PlanError {
    type V = PlanErrorView;

    open spec fn view(&self) -> PlanErrorView {
        PlanErrorView { field: self.field@, message: self.message@ }
    }
}

impl PlanError {
    /// The words of this error.
    pub fn message(&self) -> (words: String)
        ensures
            words@ == self@.field + ": "@ + self@.message,
    {
        concat3(self.field.as_str(), ": ", self.message.as_str())
    }
}

/// Runtime state that policy evaluation consults besides the configuration.
#[derive(Debug, Clone, Copy)]
pub struct PlanContext<'a> {
    pub protection: &'a ProtectionState,
    pub observations: &'a ObservationState,
}

/// What the runtime state says.
pub struct ContextView {
    pub protection: ProtectionStateView,
    pub observations: ObservationStateView,
}

impl<'a> View for PlanContext<'a> {
    type V = ContextView;

    open spec fn view(&self) -> ContextView {
        ContextView { protection: self.protection@, observations: self.observations@ }
    }
}

/// No runtime protection and no observed history.
pub open spec fn empty_context() -> ContextView {
    ContextView { protection: empty_protection(), observations: empty_observations() }
}

/// The decisions on the items of an inventory, in its order.
pub open spec fn decisions_for(
    config: ConfigView,
    inventory: Seq<ItemView>,
    now: i64,
    context: ContextView,
) -> Seq<DecisionView> {
    let policy = policy_of(config);
    let removals = cache_removals(policy, inventory, now);
    Seq::new(
        inventory.len(),
        |i: int| decision_for(policy, inventory[i], now, removals, context),
    )
}

/// The plan that a configuration makes for an inventory.
pub open spec fn plan_for(
    config: ConfigView,
    inventory: Seq<ItemView>,
    now: i64,
    context: ContextView,
) -> Seq<DecisionView> {
    ranked::<Decision>(decisions_for(config, inventory, now, context))
}

/// Evaluates a configuration against an inventory, without runtime state.
pub fn build_plan(config: &Config, inventory: Vec<InventoryItem>, now_epoch_seconds: i64) -> (outcome:
    Result<Plan, PlanError>)
    ensures
        match outcome {
            Ok(plan) => {
                &&& policy_fault(config@) is None
                &&& plan@ == plan_for(
                    config@,
                    views(inventory@),
                    now_epoch_seconds,
                    empty_context(),
                )
            },
            Err(error) => policy_fault(config@) == Some(error@),
        },
{
    let protection = ProtectionState::empty();
    let observations = ObservationState::empty();
    build_plan_with_context(
        config,
        inventory,
        now_epoch_seconds,
        &PlanContext { protection: &protection, observations: &observations },
    )
}

/// Evaluates a configuration and runtime protection against an inventory.
pub fn build_plan_with_protection(
    config: &Config,
    inventory: Vec<InventoryItem>,
    now_epoch_seconds: i64,
    runtime_protection: &ProtectionState,
) -> (outcome: Result<Plan, PlanError>)
    ensures
        match outcome {
            Ok(plan) => {
                &&& policy_fault(config@) is None
                &&& plan@ == plan_for(
                    config@,
                    views(inventory@),
                    now_epoch_seconds,
                    (ContextView {
                        protection: runtime_protection@,
                        observations: empty_observations(),
                    }),
                )
            },
            Err(error) => policy_fault(config@) == Some(error@),
        },
{
    let observations = ObservationState::empty();
    build_plan_with_context(
        config,
        inventory,
        now_epoch_seconds,
        &PlanContext { protection: runtime_protection, observations: &observations },
    )
}

/// Evaluates a configuration against an inventory and all runtime state.
pub fn build_plan_with_context<'a>(
    config: &Config,
    inventory: Vec<InventoryItem>,
    now_epoch_seconds: i64,
    context: &PlanContext<'a>,
) -> (outcome: Result<Plan, PlanError>)
    ensures
        match outcome {
            Ok(plan) => {
                &&& policy_fault(config@) is None
                &&& plan@ == plan_for(config@, views(inventory@), now_epoch_seconds, context@)
            },
            Err(error) => policy_fault(config@) == Some(error@),
        },
{
    broadcast use group_views;

    let policy = match CompiledPolicy::compile(config) {
        Ok(policy) => policy,
        Err(error) => {
            return Err(error);
        },
    };
    let removals = policy.build_cache_removals(&inventory, now_epoch_seconds);
    let ghost all = views(inventory@);
    let ghost wanted = decisions_for(config@, all, now_epoch_seconds, context@);
    let mut rest = inventory;
    let mut decisions: Vec<Decision> = Vec::new();
    let ghost mut done: int = 0;
    assert(views(decisions@) =~= wanted.take(0));
    assert(inventory@.skip(0) =~= inventory@);
    while rest.len() > 0
        invariant
            0 <= done <= inventory@.len(),
            rest@ == inventory@.skip(done),
            all == views(inventory@),
            policy@ == policy_of(config@),
            removals@ == cache_removals(policy_of(config@), all, now_epoch_seconds),
            wanted == decisions_for(config@, all, now_epoch_seconds, context@),
            views(decisions@) == wanted.take(done),
        decreases rest@.len(),
    {
        let item = rest.remove(0);
        assert(item@ == all[done]);
        let decision = policy.decide(item, now_epoch_seconds, &removals, context);
        decisions.push(decision);
        proof {
            assert(wanted.take(done + 1) =~= wanted.take(done).push(decision@));
            assert(rest@ =~= inventory@.skip(done + 1));
            done = done + 1;
        }
    }
    assert(wanted.take(done) =~= wanted);
    Ok(Plan { decisions: sort(decisions) })
}

/// The decisions that remove, in their order.
pub open spec fn removals_of(decisions: Seq<DecisionView>) -> Seq<DecisionView>
    decreases decisions.len(),
{
    if decisions.len() == 0 {
        decisions
    } else {
        let before = removals_of(decisions.drop_last());
        if decisions.last().action == Action::Remove {
            before.push(decisions.last())
        } else {
            before
        }
    }
}

/// How many decisions are on resources of a kind.
pub open spec fn kind_count(decisions: Seq<DecisionView>, kind: ResourceKind) -> nat
    decreases decisions.len(),
{
    if decisions.len() == 0 {
        0
    } else {
        kind_count(decisions.drop_last(), kind) + if decisions.last().resource.kind == kind {
            1nat
        } else {
            0nat
        }
    }
}

/// How many decisions stand on a footing.
pub open spec fn disposition_count(decisions: Seq<DecisionView>, disposition: Disposition) -> nat
    decreases decisions.len(),
{
    if decisions.len() == 0 {
        0
    } else {
        disposition_count(decisions.drop_last(), disposition) + if decisions.last().disposition
            == disposition {
            1nat
        } else {
            0nat
        }
    }
}

/// How many resources of each kind were looked at.
pub open spec fn counts_text(label: Seq<char>, decisions: Seq<DecisionView>) -> Seq<char> {
    label + ": containers="@ + decimal(kind_count(decisions, ResourceKind::Container))
        + " images="@ + decimal(kind_count(decisions, ResourceKind::Image)) + " volumes="@
        + decimal(kind_count(decisions, ResourceKind::Volume)) + " networks="@ + decimal(
        kind_count(decisions, ResourceKind::Network),
    ) + " build_cache="@ + decimal(kind_count(decisions, ResourceKind::BuildCache))
}

/// The head of the plan table.
pub open spec fn plan_head() -> Seq<Seq<char>> {
    seq![
        "TYPE"@,
        "NAME"@,
        "STATE"@,
        "AGE"@,
        "DISPOSITION"@,
        "RULE"@,
        "ACTION"@,
        "REASON"@,
    ]
}

/// A decision as a row of the plan table.
pub open spec fn plan_row(decision: DecisionView) -> Seq<Seq<char>> {
    seq![
        kind_text(decision.resource.kind),
        decision.resource.name,
        state_text(decision.resource.state),
        match decision.age_seconds {
            Some(seconds) => short_duration(seconds),
            None => "unknown"@,
        },
        disposition_text(decision.disposition),
        or_text(decision.matched_rule, "-"@),
        action_text(decision.action),
        decision.reason,
    ]
}

/// The rows of the plan table, the head first.
pub open spec fn plan_rows(removals: Seq<DecisionView>) -> Seq<Seq<Seq<char>>> {
    Seq::new(
        removals.len() + 1,
        |i: int| if i == 0 {
            plan_head()
        } else {
            plan_row(removals[i - 1])
        },
    )
}

/// The plan as text.
pub open spec fn plan_table(decisions: Seq<DecisionView>) -> Seq<char> {
    let removals = removals_of(decisions);
    let unscoped = disposition_count(removals, Disposition::AuthorizedUnscoped);
    if removals.len() == 0 {
        "No removals pending.\n"@ + counts_text("Scanned"@, decisions) + "\n"@
    } else {
        (if unscoped != 0 {
            "WARNING: "@ + decimal(unscoped)
                + " pending removal(s) use authorized-unscoped policy.\n\n"@
        } else {
            Seq::empty()
        }) + table_text(plan_rows(removals), removals.len() as int + 1) + "\n"@ + "Pending removals: "@
            + decimal(removals.len()) + "\n"@ + counts_text("Scanned"@, decisions) + "\n"@
    }
}

struct ResourceCounts {
    containers: usize,
    images: usize,
    volumes: usize,
    networks: usize,
    build_cache: usize,
}

impl ResourceCounts {
    spec fn counts(&self, decisions: Seq<DecisionView>) -> bool {
        &&& self.containers == kind_count(decisions, ResourceKind::Container)
        &&& self.images == kind_count(decisions, ResourceKind::Image)
        &&& self.volumes == kind_count(decisions, ResourceKind::Volume)
        &&& self.networks == kind_count(decisions, ResourceKind::Network)
        &&& self.build_cache == kind_count(decisions, ResourceKind::BuildCache)
    }

    fn from_decisions(decisions: &Vec<Decision>) -> (counts: Self)
        ensures
            counts.counts(views(decisions@)),
    {
        broadcast use group_views;

        let ghost all = views(decisions@);
        let mut counts = ResourceCounts {
            containers: 0,
            images: 0,
            volumes: 0,
            networks: 0,
            build_cache: 0,
        };
        let mut index: usize = 0;
        while index < decisions.len()
            invariant
                index <= decisions@.len(),
                all == views(decisions@),
                counts.counts(all.take(index as int)),
                counts.containers <= index,
                counts.images <= index,
                counts.volumes <= index,
                counts.networks <= index,
                counts.build_cache <= index,
            decreases decisions@.len() - index,
        {
            assert(all.take(index as int + 1).drop_last() =~= all.take(index as int));
            assert(all.take(index as int + 1).last() == decisions@[index as int]@);
            match decisions[index].resource.kind {
                ResourceKind::Container => {
                    counts.containers += 1;
                },
                ResourceKind::Image => {
                    counts.images += 1;
                },
                ResourceKind::Volume => {
                    counts.volumes += 1;
                },
                ResourceKind::Network => {
                    counts.networks += 1;
                },
                ResourceKind::BuildCache => {
                    counts.build_cache += 1;
                },
            }
            index += 1;
        }
        assert(all.take(index as int) =~= all);
        counts
    }

    fn render(&self, label: &str, Ghost(decisions): Ghost<Seq<DecisionView>>) -> (text: String)
        requires
            self.counts(decisions),
        ensures
            text@ == counts_text(label@, decisions),
    {
        let mut text = concat2(label, ": containers=");
        text.append(count_text(self.containers).as_str());
        text.append(" images=");
        text.append(count_text(self.images).as_str());
        text.append(" volumes=");
        text.append(count_text(self.volumes).as_str());
        text.append(" networks=");
        text.append(count_text(self.networks).as_str());
        text.append(" build_cache=");
        text.append(count_text(self.build_cache).as_str());
        text
    }
}

fn decision_row(decision: &Decision) -> (row: Vec<String>)
    ensures
        views(row@) == plan_row(decision@),
        row@.len() == 8,
{
    let age = match decision.age_seconds {
        Some(seconds) => format_duration(seconds),
        None => "unknown".to_owned(),
    };
    let row = vec![
        decision.resource.kind.as_text().to_owned(),
        decision.resource.name.clone(),
        decision.resource.state.as_text(),
        age,
        decision.disposition.as_text().to_owned(),
        text_or(&decision.matched_rule, "-"),
        decision.action.as_text().to_owned(),
        decision.reason.clone(),
    ];
    assert(views(row@) =~= plan_row(decision@));
    row
}

impl Plan {
    /// How many resources the plan removes.
    pub fn pending_count(&self) -> (count: usize)
        ensures
            count == removals_of(self@).len(),
    {
        broadcast use group_views;

        let ghost all = views(self.decisions@);
        let mut count: usize = 0;
        let mut index: usize = 0;
        while index < self.decisions.len()
            invariant
                index <= self.decisions@.len(),
                all == views(self.decisions@),
                count <= index,
                count == removals_of(all.take(index as int)).len(),
            decreases self.decisions@.len() - index,
        {
            assert(all.take(index as int + 1).drop_last() =~= all.take(index as int));
            assert(all.take(index as int + 1).last() == self.decisions@[index as int]@);
            if self.decisions[index].action == Action::Remove {
                count += 1;
            }
            index += 1;
        }
        assert(all.take(index as int) =~= all);
        count
    }

    /// Whether the plan removes anything.
    pub fn has_pending_removals(&self) -> (pending: bool)
        ensures
            pending == (removals_of(self@).len() != 0),
    {
        self.pending_count() != 0
    }

    /// The plan as text.
    pub fn render_table(&self) -> (text: String)
        ensures
            text@ == plan_table(self@),
    {
        broadcast use group_views;

        let ghost all = views(self.decisions@);
        let counts = ResourceCounts::from_decisions(&self.decisions);
        let mut rows: Vec<Vec<String>> = Vec::new();
        let head = vec![
            "TYPE".to_owned(),
            "NAME".to_owned(),
            "STATE".to_owned(),
            "AGE".to_owned(),
            "DISPOSITION".to_owned(),
            "RULE".to_owned(),
            "ACTION".to_owned(),
            "REASON".to_owned(),
        ];
        assert(views(head@) =~= plan_head());
        rows.push(head);
        let mut unscoped: usize = 0;
        let mut index: usize = 0;
        assert(grid(rows@) =~= plan_rows(removals_of(all.take(0))));
        while index < self.decisions.len()
            invariant
                index <= self.decisions@.len(),
                all == views(self.decisions@),
                unscoped <= index,
                unscoped == disposition_count(
                    removals_of(all.take(index as int)),
                    Disposition::AuthorizedUnscoped,
                ),
                rows@.len() == removals_of(all.take(index as int)).len() + 1,
                forall|r: int| 0 <= r < rows@.len() ==> (#[trigger] rows@[r])@.len() == 8,
                grid(rows@) == plan_rows(removals_of(all.take(index as int))),
            decreases self.decisions@.len() - index,
        {
            let decision = &self.decisions[index];
            let ghost before = removals_of(all.take(index as int));
            let ghost held = rows@;
            assert(all.take(index as int + 1).drop_last() =~= all.take(index as int));
            assert(all.take(index as int + 1).last() == decision@);
            if decision.action == Action::Remove {
                let row = decision_row(decision);
                rows.push(row);
                proof {
                    let after = before.push(decision@);
                    assert(after.drop_last() =~= before);
                    assert(grid(rows@) =~= grid(held).push(plan_row(decision@)));
                    assert(plan_rows(after) =~= plan_rows(before).push(plan_row(decision@)));
                }
                if decision.disposition == Disposition::AuthorizedUnscoped {
                    unscoped += 1;
                }
            }
            index += 1;
        }
        assert(all.take(index as int) =~= all);
        let ghost removals = removals_of(all);
        if rows.len() == 1 {
            return concat3(
                "No removals pending.\n",
                counts.render("Scanned", Ghost(all)).as_str(),
                "\n",
            );
        }
        let mut output = String::new();
        if unscoped != 0 {
            output = concat3(
                "WARNING: ",
                count_text(unscoped).as_str(),
                " pending removal(s) use authorized-unscoped policy.\n\n",
            );
        }
        push_table(&mut output, &rows, 8);
        output.append("\n");
        output.append("Pending removals: ");
        output.append(count_text(rows.len() - 1).as_str());
        output.append("\n");
        output.append(counts.render("Scanned", Ghost(all)).as_str());
        output.append("\n");
        output
    }
}

} // verus!
