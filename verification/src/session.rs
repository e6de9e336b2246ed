//! The state of the dashboard, and how what was read anew changes it.
//!
//! Reading files, asking Docker and drawing happen outside; they hand this
//! module plain values.

use crate::activity::{CompletedPass, CompletedPassView};
use crate::candidate::{
    CandidateFamily, CandidateFamilyView, ConfiguratorError, ConfiguratorSurvey, SurveyView,
};
use crate::config::{
    complaints, default_config, Config, ConfigError, ConfigView, LoadedConfig, LoadedView,
    RulesView,
};
use crate::duration::{duration_of, read_duration};
use crate::guarantees::a_policy_without_rules_removes_nothing;
use crate::journal::{stable_config_hash, text_hash};
use crate::keys::{Editor, Overlay, Pane};
use crate::lines::{plan_identity, startup_status, startup_words, tui_plan_id};
use crate::observation::{empty_observations, ObservationState, ObservationStateView};
use crate::plan::{
    build_plan_with_context, plan_for, removals_of, Action, ContextView, Decision, DecisionView,
    Plan, PlanContext,
};
use crate::policy::policy_fault;
use crate::present::{fuzzy, fuzzy_match};
use crate::preview::{all_warned, plan_error_text, refresh_warnings_in};
use crate::profile::{profile_settings, PolicyProfile, PolicySettings, SettingsView};
use crate::proposal::{configuration_target_path, target_path, ConfigProposal, ProposalView};
use crate::resource::{clone_items, InventoryItem, ItemView, ResourceKind};
use crate::setup::{
    first_configure_row, first_row, managed_candidate_ids, managed_families, PolicyField,
};
use crate::state::{ProtectionState, ProtectionStateView};
use crate::survey::{survey_inventory, survey_of};
use crate::text::{
    concat2, concat3, concat5, count_text, decimal, group_views, is_empty_text, opt_view, text_eq,
    views,
};
use crate::unique::{lemma_ordered_once, ordered_once};
use vstd::prelude::*;
use vstd::string::*;

verus! {

/// Whether the plan on screen still says what Docker holds.
#[derive(Debug, Clone, Copy, PartialEq, Eq, Structural)]
pub enum PlanValidity {
    Valid,
    Stale,
}

/// The state of the dashboard.
#[derive(Debug)]
pub struct Session {
    pub explicit_config: Option<String>,
    pub loaded: LoadedConfig,
    /// Whether no configuration was found and the built-in one stands in.
    pub built_in: bool,
    pub plan: Plan,
    pub plan_id: String,
    pub created_at: i64,
    pub config_hash: String,
    pub validity: PlanValidity,
    pub history: Vec<CompletedPass>,
    pub pane: Pane,
    pub selected: usize,
    pub filter: String,
    pub editor: Editor,
    pub detail_open: bool,
    pub overlay: Overlay,
    pub confirm_scroll: usize,
    pub overlay_scroll: u16,
    pub pane_scroll: u16,
    pub survey: ConfiguratorSurvey,
    pub protection: ProtectionState,
    pub observations: ObservationState,
    /// The ids of the families that are used, in order.
    pub chosen: Vec<String>,
    /// The family that is selected, by its place in the survey.
    pub row: usize,
    pub profile: PolicyProfile,
    pub policy: PolicySettings,
    pub field: PolicyField,
    pub proposal: Option<ConfigProposal>,
    pub input: String,
    pub input_kind: ResourceKind,
    pub status: String,
}

/// What the state of the dashboard says.
#[verifier::ext_equal]
pub struct SessionView {
    pub explicit_config: Option<Seq<char>>,
    pub loaded: LoadedView,
    pub built_in: bool,
    pub decisions: Seq<DecisionView>,
    pub plan_id: Seq<char>,
    pub created_at: i64,
    pub config_hash: Seq<char>,
    pub validity: PlanValidity,
    pub history: Seq<CompletedPassView>,
    pub pane: Pane,
    pub selected: usize,
    pub filter: Seq<char>,
    pub editor: Editor,
    pub detail_open: bool,
    pub overlay: Overlay,
    pub confirm_scroll: usize,
    pub overlay_scroll: u16,
    pub pane_scroll: u16,
    pub survey: SurveyView,
    pub protection: ProtectionStateView,
    pub observations: ObservationStateView,
    pub chosen: Seq<Seq<char>>,
    pub row: usize,
    pub profile: PolicyProfile,
    pub policy: SettingsView,
    pub field: PolicyField,
    pub proposal: Option<ProposalView>,
    pub input: Seq<char>,
    pub input_kind: ResourceKind,
    pub status: Seq<char>,
}

impl View for Session {
    type V = SessionView;

    open spec fn view(&self) -> SessionView {
        SessionView {
            explicit_config: opt_view(self.explicit_config),
            loaded: self.loaded@,
            built_in: self.built_in,
            decisions: self.plan@,
            plan_id: self.plan_id@,
            created_at: self.created_at,
            config_hash: self.config_hash@,
            validity: self.validity,
            history: views(self.history@),
            pane: self.pane,
            selected: self.selected,
            filter: self.filter@,
            editor: self.editor,
            detail_open: self.detail_open,
            overlay: self.overlay,
            confirm_scroll: self.confirm_scroll,
            overlay_scroll: self.overlay_scroll,
            pane_scroll: self.pane_scroll,
            survey: self.survey@,
            protection: self.protection@,
            observations: self.observations@,
            chosen: views(self.chosen@),
            row: self.row,
            profile: self.profile,
            policy: self.policy@,
            field: self.field,
            proposal: opt_view(self.proposal),
            input: self.input@,
            input_kind: self.input_kind,
            status: self.status@,
        }
    }
}

/// Whether a decision shows under a filter: by name, by id or by rule.
pub open spec fn shows(filter: Seq<char>, decision: DecisionView) -> bool {
    ||| filter.len() == 0
    ||| fuzzy(decision.resource.name, filter)
    ||| fuzzy(decision.resource.id, filter)
    ||| decision.matched_rule is Some && fuzzy(decision.matched_rule->0, filter)
}

/// The decisions of one action that show under a filter, in their order.
pub open spec fn shown(decisions: Seq<DecisionView>, action: Action, filter: Seq<char>) -> Seq<
    DecisionView,
>
    decreases decisions.len(),
{
    if decisions.len() == 0 {
        decisions
    } else {
        let before = shown(decisions.drop_last(), action, filter);
        let last = decisions.last();
        if last.action == action && shows(filter, last) {
            before.push(last)
        } else {
            before
        }
    }
}

/// The rows of the pane on screen.
pub open spec fn rows_of(session: SessionView) -> Seq<DecisionView> {
    match session.pane {
        Pane::Review => shown(session.decisions, Action::Remove, session.filter),
        Pane::Keeping => shown(session.decisions, Action::Keep, session.filter),
        Pane::Setup => Seq::empty(),
    }
}

/// The row that is selected.
pub open spec fn selection(session: SessionView) -> Option<DecisionView> {
    if session.selected < rows_of(session).len() {
        Some(rows_of(session)[session.selected as int])
    } else {
        None
    }
}

/// The family that is selected.
pub open spec fn selected_family(session: SessionView) -> Option<CandidateFamilyView> {
    if session.row < session.survey.candidates.len() {
        Some(session.survey.candidates[session.row as int])
    } else {
        None
    }
}

/// The resources that the plan speaks of.
pub open spec fn resources_of(decisions: Seq<DecisionView>) -> Seq<ItemView> {
    decisions.map_values(|decision: DecisionView| decision.resource)
}

/// The runtime state that plans and previews share.
pub open spec fn context_of(session: SessionView) -> ContextView {
    ContextView { protection: session.protection, observations: session.observations }
}

fn filter_matches(filter: &str, decision: &Decision) -> (found: bool)
    ensures
        found == shows(filter@, decision@),
{
    if is_empty_text(filter) || fuzzy_match(decision.resource.name.as_str(), filter)
        || fuzzy_match(decision.resource.id.as_str(), filter) {
        return true;
    }
    match &decision.matched_rule {
        Some(rule) => fuzzy_match(rule.as_str(), filter),
        None => false,
    }
}

fn shown_rows<'a>(plan: &'a Plan, action: Action, filter: &str) -> (rows: Vec<&'a Decision>)
    ensures
        views(rows@) == shown(plan@, action, filter@),
{
    broadcast use group_views;

    let ghost all = plan@;
    let mut rows: Vec<&Decision> = Vec::new();
    let mut index: usize = 0;
    assert(views(rows@) =~= shown(all.take(0), action, filter@));
    while index < plan.decisions.len()
        invariant
            index <= plan.decisions@.len(),
            all == views(plan.decisions@),
            views(rows@) == shown(all.take(index as int), action, filter@),
        decreases plan.decisions@.len() - index,
    {
        let decision = &plan.decisions[index];
        assert(all.take(index as int + 1).drop_last() =~= all.take(index as int));
        assert(all.take(index as int + 1).last() == decision@);
        let ghost listed = views(rows@);
        if decision.action == action && filter_matches(filter, decision) {
            rows.push(decision);
            assert(views(rows@) == listed.push(decision@));
        }
        index += 1;
    }
    assert(all.take(index as int) =~= all);
    rows
}

proof fn lemma_unfiltered(decisions: Seq<DecisionView>)
    ensures
        shown(decisions, Action::Remove, Seq::empty()) == removals_of(decisions),
    decreases decisions.len(),
{
    if decisions.len() > 0 {
        lemma_unfiltered(decisions.drop_last());
    }
}

impl Session {
    /// Every removal of the plan, whatever the filter.
    pub fn plan_targets(&self) -> (targets: Vec<&Decision>)
        ensures
            views(targets@) == removals_of(self@.decisions),
    {
        let everything = String::new();
        proof {
            lemma_unfiltered(self@.decisions);
        }
        assert(everything@ =~= Seq::empty());
        shown_rows(&self.plan, Action::Remove, everything.as_str())
    }

    /// The removals that show under the filter.
    pub fn review_rows(&self) -> (rows: Vec<&Decision>)
        ensures
            views(rows@) == shown(self@.decisions, Action::Remove, self@.filter),
    {
        shown_rows(&self.plan, Action::Remove, self.filter.as_str())
    }

    /// What the plan keeps, as far as it shows under the filter.
    pub fn keeping_rows(&self) -> (rows: Vec<&Decision>)
        ensures
            views(rows@) == shown(self@.decisions, Action::Keep, self@.filter),
    {
        shown_rows(&self.plan, Action::Keep, self.filter.as_str())
    }

    /// The rows of the pane on screen.
    pub fn current_rows(&self) -> (rows: Vec<&Decision>)
        ensures
            views(rows@) == rows_of(self@),
    {
        match self.pane {
            Pane::Review => self.review_rows(),
            Pane::Keeping => self.keeping_rows(),
            Pane::Setup => {
                let rows: Vec<&Decision> = Vec::new();
                assert(views(rows@) =~= Seq::empty());
                rows
            },
        }
    }

    /// The row that is selected.
    pub fn selected_decision(&self) -> (decision: Option<&Decision>)
        ensures
            match decision {
                Some(row) => selection(self@) == Some(row@),
                None => selection(self@) is None,
            },
    {
        broadcast use group_views;

        let rows = self.current_rows();
        if self.selected < rows.len() {
            Some(rows[self.selected])
        } else {
            None
        }
    }

    /// The family that is selected.
    pub fn selected_candidate(&self) -> (family: Option<&CandidateFamily>)
        ensures
            match family {
                Some(found) => selected_family(self@) == Some(found@),
                None => selected_family(self@) is None,
            },
    {
        broadcast use group_views;

        if self.row < self.survey.candidates.len() {
            Some(&self.survey.candidates[self.row])
        } else {
            None
        }
    }

    /// The resources that the plan speaks of.
    pub fn inventory_snapshot(&self) -> (inventory: Vec<InventoryItem>)
        ensures
            views(inventory@) == resources_of(self@.decisions),
    {
        plan_resources(&self.plan)
    }

    /// The runtime state that plans and previews share.
    pub fn plan_context(&self) -> (context: PlanContext<'_>)
        ensures
            context@ == context_of(self@),
    {
        PlanContext { protection: &self.protection, observations: &self.observations }
    }

    /// How often the dashboard reads everything anew: as configured, else every
    /// five minutes. Seconds and nanoseconds.
    pub fn refresh_interval(&self) -> (span: (u64, u32))
        ensures
            span == interval_of(self@.loaded.config),
    {
        if let Some(text) = &self.loaded.config.tui.refresh {
            if let Ok(span) = read_duration(text.as_str()) {
                if span.0 != 0 || span.1 != 0 {
                    return span;
                }
            }
        }
        (300, 0)
    }
}

/// How often the dashboard reads everything anew.
pub open spec fn interval_of(config: ConfigView) -> (u64, u32) {
    match config.tui.refresh {
        Some(text) => match duration_of(text) {
            Ok(span) => if span.0 != 0 || span.1 != 0 {
                span
            } else {
                (300, 0)
            },
            Err(_) => (300, 0),
        },
        None => (300, 0),
    }
}

fn plan_resources(plan: &Plan) -> (inventory: Vec<InventoryItem>)
    ensures
        views(inventory@) == resources_of(plan@),
{
    broadcast use group_views;

    let ghost wanted = resources_of(plan@);
    let mut inventory: Vec<InventoryItem> = Vec::new();
    let mut index: usize = 0;
    assert(views(inventory@) =~= wanted.take(0));
    while index < plan.decisions.len()
        invariant
            index <= plan.decisions@.len(),
            wanted == resources_of(plan@),
            plan@ == views(plan.decisions@),
            views(inventory@) == wanted.take(index as int),
        decreases plan.decisions@.len() - index,
    {
        let item = plan.decisions[index].resource.clone();
        assert(wanted[index as int] == item@);
        assert(wanted.take(index as int + 1) =~= wanted.take(index as int).push(item@));
        inventory.push(item);
        index += 1;
    }
    assert(wanted.take(index as int) =~= wanted);
    inventory
}

/// What a filter hides is still confirmed and still removed: the targets of a
/// plan are all its removals, and a filter shows no row beyond them.
pub proof fn a_filter_never_narrows_the_targets(
    decisions: Seq<DecisionView>,
    filter: Seq<char>,
    row: DecisionView,
)
    ensures
        shown(decisions, Action::Remove, filter).contains(row) ==> removals_of(decisions).contains(
            row,
        ),
        shown(decisions, Action::Remove, filter).len() <= removals_of(decisions).len(),
        filter.len() == 0 ==> shown(decisions, Action::Remove, filter) == removals_of(decisions),
    decreases decisions.len(),
{
    if filter.len() == 0 {
        assert(filter =~= Seq::empty());
        lemma_unfiltered(decisions);
    }
    if decisions.len() > 0 {
        let rest = decisions.drop_last();
        a_filter_never_narrows_the_targets(rest, filter, row);
        let few = shown(decisions, Action::Remove, filter);
        let all = removals_of(decisions);
        if few.contains(row) {
            let i = choose|i: int| 0 <= i < few.len() && few[i] == row;
            if i < shown(rest, Action::Remove, filter).len() {
                assert(shown(rest, Action::Remove, filter)[i] == row);
                let j = choose|j: int|
                    0 <= j < removals_of(rest).len() && removals_of(rest)[j] == row;
                assert(all[j] == row);
            } else {
                assert(all[all.len() - 1] == row);
            }
        }
    }
}

/// What was read for a dashboard that opens.
pub struct Opening {
    pub explicit_config: Option<String>,
    pub loaded: LoadedConfig,
    pub built_in: bool,
    pub protection: ProtectionState,
    pub history: Vec<CompletedPass>,
    pub created_at: i64,
    /// What Docker holds and since when it is unused, or why Docker did not
    /// answer.
    pub docker: Result<(Vec<InventoryItem>, ObservationState), String>,
}

/// Whether families hold an id.
pub open spec fn has_family(families: Seq<CandidateFamilyView>, id: Seq<char>) -> bool {
    exists|i: int| 0 <= i < families.len() && (#[trigger] families[i]).id == id
}

/// The inventory that a dashboard opens on.
pub open spec fn opening_inventory(opening: Opening) -> Seq<ItemView> {
    match opening.docker {
        Ok(read) => views(read.0@),
        Err(_) => Seq::empty(),
    }
}

/// The observations that a dashboard opens on.
pub open spec fn opening_observations(opening: Opening) -> ObservationStateView {
    match opening.docker {
        Ok(read) => read.1@,
        Err(_) => empty_observations(),
    }
}

/// The plan that a dashboard opens on: none while Docker does not answer.
pub open spec fn opening_plan(opening: Opening) -> Seq<DecisionView> {
    match opening.docker {
        Ok(read) => plan_for(
            opening.loaded@.config,
            views(read.0@),
            opening.created_at,
            ContextView { protection: opening.protection@, observations: read.1@ },
        ),
        Err(_) => Seq::empty(),
    }
}

/// What a dashboard says when it opens.
pub open spec fn opening_status(opening: Opening) -> Seq<char> {
    match opening.docker {
        Ok(_) => startup_words(opening.loaded@, opening.built_in, opening_plan(opening)),
        Err(message) => "Docker unavailable: "@ + message@
            + " \u{2022} fix the endpoint and press r"@,
    }
}

/// The survey that a dashboard opens on, warnings included.
pub open spec fn opening_survey(opening: Opening) -> SurveyView {
    let survey = survey_of(opening_inventory(opening));
    SurveyView {
        candidates: all_warned(
            survey.candidates,
            profile_settings(PolicyProfile::Workstation),
            resources_of(opening_plan(opening)),
            opening.created_at,
            ContextView {
                protection: opening.protection@,
                observations: opening_observations(opening),
            },
        ),
        ..survey
    }
}

/// The state of a dashboard that opens.
pub open spec fn opened(opening: Opening) -> SessionView {
    let decisions = opening_plan(opening);
    let survey = opening_survey(opening);
    let hash = text_hash(opening.loaded@.source);
    SessionView {
        explicit_config: opt_view(opening.explicit_config),
        loaded: opening.loaded@,
        built_in: opening.built_in,
        decisions,
        plan_id: text_hash(plan_identity(hash, opening.created_at, decisions)),
        created_at: opening.created_at,
        config_hash: hash,
        validity: if opening.docker is Ok {
            PlanValidity::Valid
        } else {
            PlanValidity::Stale
        },
        history: views(opening.history@),
        pane: if opening.built_in {
            Pane::Setup
        } else {
            Pane::Review
        },
        selected: 0,
        filter: Seq::empty(),
        editor: Editor::Closed,
        detail_open: false,
        overlay: Overlay::Hidden,
        confirm_scroll: 0,
        overlay_scroll: 0,
        pane_scroll: 0,
        survey,
        protection: opening.protection@,
        observations: opening_observations(opening),
        chosen: ordered_once::<String>(
            managed_families(opening.loaded@.config.rules, survey.candidates),
        ),
        row: first_row(survey.candidates) as usize,
        profile: PolicyProfile::Workstation,
        policy: profile_settings(PolicyProfile::Workstation),
        field: PolicyField::Containers,
        proposal: None,
        input: Seq::empty(),
        input_kind: ResourceKind::Container,
        status: opening_status(opening),
    }
}

impl Session {
    /// The state of a dashboard that opens. A configuration that makes no plan
    /// is an error.
    pub fn open(opening: Opening) -> (outcome: Result<Session, String>)
        ensures
            match outcome {
                Ok(session) => {
                    &&& opening.docker is Err || policy_fault(opening.loaded@.config) is None
                    &&& session@ == opened(opening)
                },
                Err(message) => {
                    &&& opening.docker is Ok
                    &&& policy_fault(opening.loaded@.config) matches Some(fault) && message@
                        == "cannot build TUI snapshot: "@ + plan_error_text(fault)
                },
            },
    {
        broadcast use group_views;

        let ghost given = opening;
        let hash = stable_config_hash(opening.loaded.source.as_str());
        let inventory: Vec<InventoryItem>;
        let observations: ObservationState;
        let mut unavailable: Option<String> = None;
        let plan: Plan;
        match opening.docker {
            Ok(read) => {
                let context = PlanContext { protection: &opening.protection, observations: &read.1 };
                let copy = clone_items(&read.0);
                match build_plan_with_context(
                    &opening.loaded.config,
                    copy,
                    opening.created_at,
                    &context,
                ) {
                    Ok(built) => {
                        plan = built;
                    },
                    Err(error) => {
                        return Err(
                            concat2("cannot build TUI snapshot: ", error.message().as_str()),
                        );
                    },
                }
                inventory = read.0;
                observations = read.1;
            },
            Err(message) => {
                unavailable = Some(message);
                inventory = Vec::new();
                assert(views(inventory@) =~= Seq::empty());
                observations = ObservationState::empty();
                let decisions: Vec<Decision> = Vec::new();
                assert(views(decisions@) =~= Seq::empty());
                plan = Plan { decisions };
            },
        }
        let mut survey = survey_inventory(&inventory);
        let policy = PolicyProfile::Workstation.settings();
        let planned = plan_resources(&plan);
        let context = PlanContext { protection: &opening.protection, observations: &observations };
        refresh_warnings_in(&mut survey, &policy, &planned, opening.created_at, &context);
        assert(survey@ =~= opening_survey(given));
        let row: usize = first_configure_row(&survey);
        let chosen = managed_candidate_ids(&opening.loaded.config, &survey);
        let plan_id = tui_plan_id(hash.as_str(), opening.created_at, &plan);
        let validity = if unavailable.is_none() {
            PlanValidity::Valid
        } else {
            PlanValidity::Stale
        };
        let status = match &unavailable {
            None => startup_status(&opening.loaded, opening.built_in, &plan),
            Some(message) => concat3(
                "Docker unavailable: ",
                message.as_str(),
                " \u{2022} fix the endpoint and press r",
            ),
        };
        let session = Session {
            explicit_config: opening.explicit_config,
            loaded: opening.loaded,
            built_in: opening.built_in,
            plan,
            plan_id,
            created_at: opening.created_at,
            config_hash: hash,
            validity,
            history: opening.history,
            pane: if opening.built_in {
                Pane::Setup
            } else {
                Pane::Review
            },
            selected: 0,
            filter: String::new(),
            editor: Editor::Closed,
            detail_open: false,
            overlay: Overlay::Hidden,
            confirm_scroll: 0,
            overlay_scroll: 0,
            pane_scroll: 0,
            survey,
            protection: opening.protection,
            observations,
            chosen,
            row,
            profile: PolicyProfile::Workstation,
            policy,
            field: PolicyField::Containers,
            proposal: None,
            input: String::new(),
            input_kind: ResourceKind::Container,
            status,
        };
        assert(session@ =~= opened(given));
        Ok(session)
    }
}

/// What was read anew.
pub struct Reading {
    pub loaded: LoadedConfig,
    pub built_in: bool,
    pub protection: ProtectionState,
    pub inventory: Vec<InventoryItem>,
    pub observations: ObservationState,
    pub history: Vec<CompletedPass>,
    pub created_at: i64,
}

/// The runtime state that was read.
pub open spec fn reading_context(reading: Reading) -> ContextView {
    ContextView { protection: reading.protection@, observations: reading.observations@ }
}

/// The plan for what was read.
pub open spec fn reading_plan(reading: Reading) -> Seq<DecisionView> {
    plan_for(
        reading.loaded@.config,
        views(reading.inventory@),
        reading.created_at,
        reading_context(reading),
    )
}

/// The survey of what was read, warnings included.
pub open spec fn reading_survey(reading: Reading, policy: SettingsView) -> SurveyView {
    let survey = survey_of(views(reading.inventory@));
    SurveyView {
        candidates: all_warned(
            survey.candidates,
            policy,
            views(reading.inventory@),
            reading.created_at,
            reading_context(reading),
        ),
        ..survey
    }
}

/// Ids as far as families hold them.
pub open spec fn still_offered(ids: Seq<Seq<char>>, families: Seq<CandidateFamilyView>) -> Seq<
    Seq<char>,
>
    decreases ids.len(),
{
    if ids.len() == 0 {
        ids
    } else {
        let before = still_offered(ids.drop_last(), families);
        if has_family(families, ids.last()) {
            before.push(ids.last())
        } else {
            before
        }
    }
}

/// The families that are used after a reading: those that still exist, else
/// those that the configuration's generated rules stand for.
pub open spec fn chosen_after(
    ids: Seq<Seq<char>>,
    rules: RulesView,
    families: Seq<CandidateFamilyView>,
) -> Seq<Seq<char>> {
    let kept = still_offered(ids, families);
    if kept.len() == 0 {
        ordered_once::<String>(managed_families(rules, families))
    } else {
        kept
    }
}

/// The place of the first family with an id.
pub open spec fn family_place(families: Seq<CandidateFamilyView>, id: Seq<char>) -> Option<int>
    decreases families.len(),
{
    if families.len() == 0 {
        None
    } else if families[0].id == id {
        Some(0)
    } else {
        match family_place(families.drop_first(), id) {
            Some(place) => Some(place + 1),
            None => None,
        }
    }
}

/// The family that is selected after a reading: the same one where it still
/// exists.
pub open spec fn row_kept(session: SessionView, families: Seq<CandidateFamilyView>) -> int {
    match selected_family(session) {
        Some(family) => match family_place(families, family.id) {
            Some(place) => place,
            None => first_row(families),
        },
        None => first_row(families),
    }
}

/// What is said after a reading.
pub open spec fn reading_status(decisions: Seq<DecisionView>, config: ConfigView) -> Seq<char> {
    "Refreshed: "@ + decimal(removals_of(decisions).len()) + " would be removed, "@ + decimal(
        (decisions.len() - removals_of(decisions).len()) as nat,
    ) + " kept"@ + (if config.rules.build_cache is Some {
        " \u{2022} build cache is authorized without ownership evidence"@
    } else {
        ""@
    })
}

/// A position held inside a list.
pub open spec fn held_inside(position: usize, count: nat) -> usize {
    if count == 0 {
        0
    } else if position >= count {
        (count - 1) as usize
    } else {
        position
    }
}

/// How many rows a pane has.
pub open spec fn row_count(session: SessionView) -> nat {
    match session.pane {
        Pane::Setup => session.survey.candidates.len(),
        _ => rows_of(session).len(),
    }
}

/// The state with a selection that exists.
pub open spec fn clamped(session: SessionView) -> SessionView {
    SessionView { selected: held_inside(session.selected, row_count(session)), ..session }
}

/// The state after a reading.
pub open spec fn refreshed(session: SessionView, reading: Reading) -> SessionView {
    let decisions = reading_plan(reading);
    let survey = reading_survey(reading, session.policy);
    let hash = text_hash(reading.loaded@.source);
    let next = SessionView {
        loaded: reading.loaded@,
        built_in: reading.built_in,
        decisions,
        plan_id: text_hash(plan_identity(hash, reading.created_at, decisions)),
        created_at: reading.created_at,
        config_hash: hash,
        validity: PlanValidity::Valid,
        history: views(reading.history@),
        protection: reading.protection@,
        observations: reading.observations@,
        survey,
        chosen: chosen_after(session.chosen, reading.loaded@.config.rules, survey.candidates),
        proposal: None,
        row: row_kept(session, survey.candidates) as usize,
        status: reading_status(decisions, reading.loaded@.config),
        ..session
    };
    clamped(next)
}

/// Whether families hold an id.
pub fn holds_family(families: &Vec<CandidateFamily>, id: &str) -> (held: bool)
    ensures
        held == has_family(views(families@), id@),
{
    find_family(families, id).is_some()
}

/// The place of the first family with an id.
pub fn find_family(families: &Vec<CandidateFamily>, id: &str) -> (place: Option<usize>)
    ensures
        match place {
            Some(index) => family_place(views(families@), id@) == Some(index as int) && index
                < families@.len() && families@[index as int].id@ == id@,
            None => family_place(views(families@), id@) is None,
        },
        place is Some <==> has_family(views(families@), id@),
{
    broadcast use group_views;

    let ghost all = views(families@);
    let mut index: usize = 0;
    assert(all.skip(0) =~= all);
    while index < families.len()
        invariant
            index <= families@.len(),
            all == views(families@),
            family_place(all, id@) == (match family_place(all.skip(index as int), id@) {
                Some(place) => Some(place + index),
                None => None,
            }),
            forall|i: int| 0 <= i < index ==> (#[trigger] all[i]).id != id@,
        decreases families@.len() - index,
    {
        assert(all.skip(index as int).drop_first() =~= all.skip(index as int + 1));
        assert(all.skip(index as int)[0] == families@[index as int]@);
        if text_eq(families[index].id.as_str(), id) {
            assert(all[index as int].id == id@);
            return Some(index);
        }
        assert(all[index as int].id != id@);
        index += 1;
    }
    None
}

fn retain_offered(ids: &Vec<String>, families: &Vec<CandidateFamily>) -> (kept: Vec<String>)
    ensures
        views(kept@) == still_offered(views(ids@), views(families@)),
{
    broadcast use group_views;

    let ghost all = views(ids@);
    let mut kept: Vec<String> = Vec::new();
    let mut index: usize = 0;
    assert(views(kept@) =~= still_offered(all.take(0), views(families@)));
    while index < ids.len()
        invariant
            index <= ids@.len(),
            all == views(ids@),
            views(kept@) == still_offered(all.take(index as int), views(families@)),
        decreases ids@.len() - index,
    {
        assert(all.take(index as int + 1).drop_last() =~= all.take(index as int));
        assert(all.take(index as int + 1).last() == ids@[index as int]@);
        if holds_family(families, ids[index].as_str()) {
            kept.push(ids[index].clone());
        }
        index += 1;
    }
    assert(all.take(index as int) =~= all);
    kept
}

fn refresh_words(plan: &Plan, config: &Config) -> (words: String)
    ensures
        words@ == reading_status(plan@, config@),
{
    broadcast use group_views;

    let pending: usize = plan.pending_count();
    let total: usize = plan.decisions.len();
    proof {
        lemma_fewer_removals(plan@);
    }
    let mut words = concat5(
        "Refreshed: ",
        count_text(pending).as_str(),
        " would be removed, ",
        count_text(total - pending).as_str(),
        " kept",
    );
    words.append(
        if config.rules.build_cache.is_some() {
            " \u{2022} build cache is authorized without ownership evidence"
        } else {
            ""
        },
    );
    words
}

proof fn lemma_fewer_removals(decisions: Seq<DecisionView>)
    ensures
        removals_of(decisions).len() <= decisions.len(),
    decreases decisions.len(),
{
    if decisions.len() > 0 {
        lemma_fewer_removals(decisions.drop_last());
    }
}

impl Session {
    /// Holds the selection inside the rows on screen.
    pub fn clamp_selection(&mut self)
        ensures
            final(self)@ == clamped(old(self)@),
    {
        broadcast use group_views;

        let count: usize = match self.pane {
            Pane::Setup => self.survey.candidates.len(),
            _ => self.current_rows().len(),
        };
        if count == 0 {
            self.selected = 0;
        } else if self.selected >= count {
            self.selected = count - 1;
        }
    }

    /// Takes over what was read anew. A configuration that makes no plan is an
    /// error, and changes nothing.
    pub fn refresh(&mut self, reading: Reading) -> (outcome: Result<(), String>)
        ensures
            match outcome {
                Ok(_) => {
                    &&& policy_fault(reading.loaded@.config) is None
                    &&& final(self)@ == refreshed(old(self)@, reading)
                },
                Err(message) => {
                    &&& policy_fault(reading.loaded@.config) matches Some(fault) && message@
                        == "cannot refresh TUI snapshot: "@ + plan_error_text(fault)
                    &&& final(self)@ == old(self)@
                },
            },
    {
        broadcast use group_views;

        let ghost given = reading;
        let ghost before = self@;
        let context = PlanContext {
            protection: &reading.protection,
            observations: &reading.observations,
        };
        let plan = match build_plan_with_context(
            &reading.loaded.config,
            clone_items(&reading.inventory),
            reading.created_at,
            &context,
        ) {
            Ok(plan) => plan,
            Err(error) => {
                return Err(concat2("cannot refresh TUI snapshot: ", error.message().as_str()));
            },
        };
        let hash = stable_config_hash(reading.loaded.source.as_str());
        let mut survey = survey_inventory(&reading.inventory);
        refresh_warnings_in(
            &mut survey,
            &self.policy,
            &reading.inventory,
            reading.created_at,
            &context,
        );
        assert(survey@ =~= reading_survey(given, before.policy));
        let row: usize = match self.selected_candidate() {
            Some(family) => match find_family(&survey.candidates, family.id.as_str()) {
                Some(place) => place,
                None => first_configure_row(&survey),
            },
            None => first_configure_row(&survey),
        };
        let mut chosen = retain_offered(&self.chosen, &survey.candidates);
        if chosen.len() == 0 {
            chosen = managed_candidate_ids(&reading.loaded.config, &survey);
        }
        self.status = refresh_words(&plan, &reading.loaded.config);
        self.plan_id = tui_plan_id(hash.as_str(), reading.created_at, &plan);
        self.config_hash = hash;
        self.loaded = reading.loaded;
        self.built_in = reading.built_in;
        self.plan = plan;
        self.created_at = reading.created_at;
        self.validity = PlanValidity::Valid;
        self.history = reading.history;
        self.protection = reading.protection;
        self.observations = reading.observations;
        self.survey = survey;
        self.chosen = chosen;
        self.proposal = None;
        self.row = row;
        self.clamp_selection();
        assert(self@ =~= refreshed(before, given));
        Ok(())
    }
}

/// After a reading the plan is valid, no proposal is left over, and every
/// family in use exists.
pub proof fn a_reading_leaves_nothing_stale(session: SessionView, reading: Reading, index: int)
    requires
        0 <= index < refreshed(session, reading).chosen.len(),
    ensures
        refreshed(session, reading).validity == PlanValidity::Valid,
        refreshed(session, reading).proposal is None,
        has_family(
            refreshed(session, reading).survey.candidates,
            refreshed(session, reading).chosen[index],
        ),
{
    let next = refreshed(session, reading);
    let families = next.survey.candidates;
    let rules = reading.loaded@.config.rules;
    let kept = still_offered(session.chosen, families);
    if kept.len() == 0 {
        let managed = managed_families(rules, families);
        lemma_ordered_once::<String>(managed);
        assert(ordered_once::<String>(managed).contains(next.chosen[index]));
        let i = choose|i: int| 0 <= i < managed.len() && managed[i] == next.chosen[index];
        lemma_managed_are_offered(rules, families, i);
    } else {
        lemma_kept_are_offered(session.chosen, families, index);
    }
}

proof fn lemma_managed_are_offered(
    rules: RulesView,
    families: Seq<CandidateFamilyView>,
    index: int,
)
    requires
        0 <= index < managed_families(rules, families).len(),
    ensures
        has_family(families, managed_families(rules, families)[index]),
    decreases families.len(),
{
    let rest = families.drop_last();
    let all = managed_families(rules, families);
    if index < managed_families(rules, rest).len() {
        lemma_managed_are_offered(rules, rest, index);
        let i = choose|i: int| 0 <= i < rest.len() && (#[trigger] rest[i]).id == all[index];
        assert(families[i].id == all[index]);
    } else {
        assert(families[families.len() - 1].id == all[index]);
    }
}

proof fn lemma_kept_are_offered(
    ids: Seq<Seq<char>>,
    families: Seq<CandidateFamilyView>,
    index: int,
)
    requires
        0 <= index < still_offered(ids, families).len(),
    ensures
        has_family(families, still_offered(ids, families)[index]),
    decreases ids.len(),
{
    if index < still_offered(ids.drop_last(), families).len() {
        lemma_kept_are_offered(ids.drop_last(), families, index);
    }
}

/// The configuration that stands in where none was found.
pub open spec fn built_in_config(path: Seq<char>) -> LoadedView {
    LoadedView { path, config: default_config(), source: Seq::empty() }
}

/// Where the dashboard stands in for a configuration that could not be read:
/// at the path where one would be written if none was found and none was
/// named, or at the path that was named if nothing is there.
pub open spec fn stand_in_path(
    error: ConfigError,
    explicit: bool,
    missing: bool,
    config_home: Option<Seq<char>>,
    home: Option<Seq<char>>,
) -> Option<Option<Seq<char>>> {
    match error {
        ConfigError::NotFound { .. } if !explicit => Some(
            target_path(None, None, config_home, home),
        ),
        ConfigError::Read { path, .. } if explicit && missing => Some(Some(path@)),
        _ => None,
    }
}

/// The built-in configuration has nothing wrong with it and removes nothing.
pub proof fn the_built_in_configuration_is_safe(
    path: Seq<char>,
    inventory: Seq<ItemView>,
    now: i64,
    context: ContextView,
)
    ensures
        complaints(built_in_config(path).config) == Seq::<Seq<char>>::empty(),
        removals_of(plan_for(built_in_config(path).config, inventory, now, context)) == Seq::<
            DecisionView,
        >::empty(),
{
    a_policy_without_rules_removes_nothing(default_config(), inventory, now, context);
}

/// The configuration that the dashboard opens with, given how reading the
/// selected one went; `missing` says that the file was not there. True beside
/// it if the built-in configuration stands in.
pub fn dashboard_config(
    outcome: Result<LoadedConfig, ConfigError>,
    explicit: &Option<String>,
    missing: bool,
    config_home: &Option<String>,
    home: &Option<String>,
) -> (chosen: Result<(LoadedConfig, bool), ConfiguratorError>)
    ensures
        match outcome {
            Ok(loaded) => chosen == Ok::<(LoadedConfig, bool), ConfiguratorError>((loaded, false)),
            Err(error) => match stand_in_path(
                error,
                *explicit is Some,
                missing,
                opt_view(*config_home),
                opt_view(*home),
            ) {
                Some(Some(path)) => chosen matches Ok(pair) && pair.1 && pair.0@
                    == built_in_config(path),
                Some(None) => chosen matches Err(ConfiguratorError::Invalid(message)) && message@
                    == "cannot select a configuration path: set XDG_CONFIG_HOME or HOME"@,
                None => chosen == Err::<(LoadedConfig, bool), ConfiguratorError>(
                    ConfiguratorError::Config(error),
                ),
            },
        },
{
    let path = match outcome {
        Ok(loaded) => {
            return Ok((loaded, false));
        },
        Err(ConfigError::NotFound { searched }) => {
            if explicit.is_some() {
                return Err(ConfiguratorError::Config(ConfigError::NotFound { searched }));
            }
            match configuration_target_path(&None, &None, config_home, home) {
                Ok(path) => path,
                Err(error) => {
                    return Err(error);
                },
            }
        },
        Err(ConfigError::Read { path, message }) => {
            if explicit.is_none() || !missing {
                return Err(ConfiguratorError::Config(ConfigError::Read { path, message }));
            }
            path
        },
        Err(error) => {
            return Err(ConfiguratorError::Config(error));
        },
    };
    let stand_in = LoadedConfig { path, config: Config::default(), source: String::new() };
    assert(stand_in@ =~= built_in_config(path@));
    Ok((stand_in, true))
}

} // verus!
