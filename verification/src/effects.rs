//! What the dashboard decides around its work outside: which protection to
//! write, whether a confirmed plan may still be applied, and what to say of
//! how the work went.

use crate::activity::{ActivityEvent, CompletedPass, EventData};
use crate::config::LoadedConfig;
use crate::events::{overlay_end, pressed, told};
use crate::executor::ExecutionReport;
use crate::keys::{Editor, Key, KeyPress, Overlay, Pane};
use crate::lines::{execution_status, execution_words, family_protection_target, family_size};
use crate::plan::{removals_of, Disposition};
use crate::present::{family_label, family_pair, protection_for, protection_kind};
use crate::proposal::ConfigProposal;
use crate::session::{selection, PlanValidity, Session, SessionView};
use crate::setup::field_title;
use crate::state::{
    protecting_entry, protection_text, ProtectionEntryView, ProtectionKind, ProtectionState,
    ProtectionStateView,
};
use crate::text::{
    concat2, concat3, concat4, concat5, count_text, decimal, group_views, starts_with, text_eq,
    views,
};
use crate::text_map::TextMap;
use vstd::prelude::*;
use vstd::string::*;

verus! {

/// What is to be done with protection.
#[derive(Debug, PartialEq, Eq)]
pub enum Change {
    /// Nothing, for a reason.
    Stay { words: String },
    Add { kind: ProtectionKind, value: String, words: String },
    Remove { kind: ProtectionKind, value: String, words: String },
}

/// What is to be done with protection, as contracts speak of it.
pub enum ChangeView {
    Stay { words: Seq<char> },
    Add { kind: ProtectionKind, value: Seq<char>, words: Seq<char> },
    Remove { kind: ProtectionKind, value: Seq<char>, words: Seq<char> },
}

impl View for Change {
    type V = ChangeView;

    open spec fn view(&self) -> ChangeView {
        match self {
            Change::Stay { words } => ChangeView::Stay { words: words@ },
            Change::Add { kind, value, words } => ChangeView::Add {
                kind: *kind,
                value: value@,
                words: words@,
            },
            Change::Remove { kind, value, words } => ChangeView::Remove {
                kind: *kind,
                value: value@,
                words: words@,
            },
        }
    }
}

/// How the protection of the selected resource is toggled: where an entry
/// protects it, the value of that entry goes under the resource's own kind,
/// else an entry for its id comes. What the configuration protects is not for
/// the dashboard to release.
pub open spec fn protection_toggle(session: SessionView, stored: ProtectionStateView) -> ChangeView {
    match selection(session) {
        None => ChangeView::Stay { words: "Nothing is selected"@ },
        Some(decision) => match protection_for(decision.resource.kind) {
            None => ChangeView::Stay {
                words: "Build-cache records cannot be protected: Docker exposes no stable owner metadata"@,
            },
            Some(kind) => match protecting_entry(stored.entries, decision.resource) {
                Some(entry) => ChangeView::Remove {
                    kind,
                    value: entry.value,
                    words: "Removed protection: "@ + protection_text(kind) + " "@ + entry.value,
                },
                None => if decision.disposition == Disposition::Protected {
                    ChangeView::Stay {
                        words: decision.resource.name + " is protected by configuration; edit "@
                            + session.loaded.path + " to remove it"@,
                    }
                } else {
                    ChangeView::Add {
                        kind,
                        value: decision.resource.id,
                        words: "Protected: "@ + protection_text(kind) + " "@
                            + decision.resource.name,
                    }
                },
            },
        },
    }
}

/// Whether a label entry protects a pair.
pub open spec fn protects_pair(entries: Seq<ProtectionEntryView>, pair: Seq<char>) -> bool {
    exists|i: int|
        0 <= i < entries.len() && (#[trigger] entries[i]).kind == ProtectionKind::Label
            && entries[i].value == pair
}

/// What is said of a family's entry.
pub open spec fn family_words(lead: Seq<char>, pair: Seq<char>, members: nat) -> Seq<char> {
    lead + pair + " ("@ + decimal(members) + " objects)"@
}

/// How the protection of the selected resource's family is toggled, through
/// one label entry.
pub open spec fn family_toggle(session: SessionView, stored: ProtectionStateView) -> ChangeView {
    match selection(session) {
        None => ChangeView::Stay { words: "Nothing is selected"@ },
        Some(decision) => match family_pair(decision.resource.labels) {
            None => ChangeView::Stay {
                words: decision.resource.name
                    + " carries no Compose or agent family label; press space to protect it alone"@,
            },
            Some((key, value)) => {
                let pair = key + "="@ + value;
                let members = family_size(session.decisions, key, value);
                if protects_pair(stored.entries, pair) {
                    ChangeView::Remove {
                        kind: ProtectionKind::Label,
                        value: pair,
                        words: family_words("Removed protection: label "@, pair, members),
                    }
                } else {
                    ChangeView::Add {
                        kind: ProtectionKind::Label,
                        value: pair,
                        words: family_words("Protected family: label "@, pair, members),
                    }
                }
            },
        },
    }
}

fn write_family_words(lead: &str, pair: &str, members: usize) -> (words: String)
    ensures
        words@ == family_words(lead@, pair@, members as nat),
{
    concat5(lead, pair, " (", count_text(members).as_str(), " objects)")
}

fn holds_pair(stored: &ProtectionState, pair: &str) -> (held: bool)
    ensures
        held == protects_pair(stored@.entries, pair@),
{
    broadcast use group_views;

    let ghost all = stored@.entries;
    let mut index: usize = 0;
    while index < stored.entries.len()
        invariant
            index <= stored.entries@.len(),
            all == views(stored.entries@),
            forall|i: int|
                0 <= i < index ==> !((#[trigger] all[i]).kind == ProtectionKind::Label
                    && all[i].value == pair@),
        decreases stored.entries@.len() - index,
    {
        let entry = &stored.entries[index];
        assert(all[index as int] == entry@);
        if entry.kind == ProtectionKind::Label && text_eq(entry.value.as_str(), pair) {
            return true;
        }
        index += 1;
    }
    false
}

/// What follows from confirming a plan, before the configuration is read
/// again.
#[derive(Debug, PartialEq, Eq)]
pub enum ApplyStep {
    /// Nothing is applied.
    Stop,
    /// The dashboard ends with an error.
    Fail(String),
    /// The configuration is to be read again.
    ReadConfiguration,
}

/// The state after a plan was found outdated.
pub open spec fn outdated(session: SessionView, words: Seq<char>) -> SessionView {
    SessionView { validity: PlanValidity::Stale, status: words, ..session }
}

/// Whether the configuration that was read again still authorizes the plan;
/// where it does not, the state that says so.
pub open spec fn authorization(session: SessionView, current: Result<(LoadedConfig, bool), String>) -> (
    SessionView,
    bool,
) {
    match current {
        Err(message) => (
            outdated(session, "Configuration cannot authorize this plan: "@ + message@),
            false,
        ),
        Ok((loaded, built_in)) => if built_in {
            (
                outdated(session, "Configuration disappeared; press r to generate a new plan"@),
                false,
            )
        } else if loaded@.source != session.loaded.source || loaded@.config
            != session.loaded.config {
            (
                outdated(session, "Configuration changed; press r and confirm the new plan"@),
                false,
            )
        } else {
            (session, true)
        },
    }
}

/// A plan is applied only as long as the configuration reads as it did when
/// the plan was made.
pub proof fn only_the_same_configuration_authorizes(
    session: SessionView,
    current: Result<(LoadedConfig, bool), String>,
)
    ensures
        authorization(session, current).1 <==> (current is Ok && !current->Ok_0.1
            && current->Ok_0.0@.source == session.loaded.source && current->Ok_0.0@.config
            == session.loaded.config),
        !authorization(session, current).1 ==> authorization(session, current).0.validity
            == PlanValidity::Stale,
{
}

/// Only the key that confirms applies a plan, and only from the box that
/// showed it.
pub proof fn only_a_confirmation_applies(session: SessionView, press: KeyPress)
    requires
        pressed(session, press).1 is Apply,
    ensures
        session.overlay == Overlay::Confirm,
        press.key == Key::Enter,
{
}

/// The box to confirm a plan in opens only on a plan that is valid and removes
/// something.
pub proof fn a_stale_plan_is_never_put_up(session: SessionView, press: KeyPress)
    requires
        session.overlay != Overlay::Confirm,
        pressed(session, press).0.overlay == Overlay::Confirm,
    ensures
        session.validity == PlanValidity::Valid,
        removals_of(session.decisions).len() > 0,
{
}

/// A key press leaves the plan, the protection and what was loaded as they
/// are: those change only by reading anew.
pub proof fn keys_never_change_the_plan(session: SessionView, press: KeyPress)
    ensures
        pressed(session, press).0.decisions == session.decisions,
        pressed(session, press).0.plan_id == session.plan_id,
        pressed(session, press).0.protection == session.protection,
        pressed(session, press).0.loaded == session.loaded,
        pressed(session, press).0.validity == session.validity,
{
}

/// Scrolling never leaves the log or the help behind its last line.
pub proof fn boxes_never_scroll_past_their_end(session: SessionView, press: KeyPress)
    requires
        session.overlay == Overlay::Help || session.overlay == Overlay::Activity,
        session.overlay_scroll <= overlay_end(session),
    ensures
        pressed(session, press).0.overlay_scroll <= overlay_end(session),
{
}

impl Session {
    /// How the protection of the selected resource is toggled.
    pub fn protection_change(&self, stored: &ProtectionState) -> (change: Change)
        ensures
            change@ == protection_toggle(self@, stored@),
    {
        let decision = match self.selected_decision() {
            None => {
                return Change::Stay { words: "Nothing is selected".to_owned() };
            },
            Some(decision) => decision,
        };
        let kind = match protection_kind(decision.resource.kind) {
            None => {
                return Change::Stay {
                    words: "Build-cache records cannot be protected: Docker exposes no stable owner metadata".to_owned(),
                };
            },
            Some(kind) => kind,
        };
        match stored.matching_entry(&decision.resource) {
            Some(entry) => Change::Remove {
                kind,
                value: entry.value.clone(),
                words: concat4(
                    "Removed protection: ",
                    kind.as_text(),
                    " ",
                    entry.value.as_str(),
                ),
            },
            None => if decision.disposition == Disposition::Protected {
                Change::Stay {
                    words: concat4(
                        decision.resource.name.as_str(),
                        " is protected by configuration; edit ",
                        self.loaded.path.as_str(),
                        " to remove it",
                    ),
                }
            } else {
                Change::Add {
                    kind,
                    value: decision.resource.id.clone(),
                    words: concat4(
                        "Protected: ",
                        kind.as_text(),
                        " ",
                        decision.resource.name.as_str(),
                    ),
                }
            },
        }
    }

    /// How the protection of the selected resource's family is toggled.
    pub fn family_change(&self, stored: &ProtectionState) -> (change: Change)
        ensures
            change@ == family_toggle(self@, stored@),
    {
        let decision = match self.selected_decision() {
            None => {
                return Change::Stay { words: "Nothing is selected".to_owned() };
            },
            Some(decision) => decision,
        };
        match family_label(&decision.resource) {
            None => Change::Stay {
                words: concat2(
                    decision.resource.name.as_str(),
                    " carries no Compose or agent family label; press space to protect it alone",
                ),
            },
            Some((key, value)) => {
                let (pair, members) = family_protection_target(&self.plan, key, value);
                if holds_pair(stored, pair.as_str()) {
                    let words = write_family_words(
                        "Removed protection: label ",
                        pair.as_str(),
                        members,
                    );
                    Change::Remove { kind: ProtectionKind::Label, value: pair, words }
                } else {
                    let words = write_family_words(
                        "Protected family: label ",
                        pair.as_str(),
                        members,
                    );
                    Change::Add { kind: ProtectionKind::Label, value: pair, words }
                }
            },
        }
    }

    /// Says what was done.
    pub fn report(&mut self, words: String)
        ensures
            final(self)@ == told(old(self)@, words@),
    {
        self.status = words;
    }

    /// Begins to apply the confirmed plan.
    pub fn begin_apply(&mut self) -> (next: ApplyStep)
        ensures
            ({
                let before = old(self)@;
                let stale = before.validity == PlanValidity::Stale;
                let empty = removals_of(before.decisions).len() == 0;
                match next {
                    ApplyStep::Stop => {
                        &&& stale || empty
                        &&& final(self)@ == told(
                            before,
                            if stale {
                                "Plan is stale because refresh failed; fix the error and press r"@
                            } else {
                                "Nothing would be removed"@
                            },
                        )
                    },
                    ApplyStep::Fail(message) => {
                        &&& !stale && !empty && before.built_in
                        &&& message@ == "built-in safe mode cannot contain removal targets"@
                        &&& final(self)@ == before
                    },
                    ApplyStep::ReadConfiguration => {
                        &&& !stale && !empty && !before.built_in
                        &&& final(self)@ == before
                    },
                }
            }),
    {
        if self.validity == PlanValidity::Stale {
            self.status = "Plan is stale because refresh failed; fix the error and press r".to_owned();
            return ApplyStep::Stop;
        }
        if !self.plan.has_pending_removals() {
            self.status = "Nothing would be removed".to_owned();
            return ApplyStep::Stop;
        }
        if self.built_in {
            return ApplyStep::Fail("built-in safe mode cannot contain removal targets".to_owned());
        }
        ApplyStep::ReadConfiguration
    }

    /// Whether the configuration that was read again still authorizes the
    /// plan.
    pub fn authorize(&mut self, current: Result<(LoadedConfig, bool), String>) -> (authorized: bool)
        ensures
            (final(self)@, authorized) == authorization(old(self)@, current),
    {
        let words = match current {
            Err(message) => concat2(
                "Configuration cannot authorize this plan: ",
                message.as_str(),
            ),
            Ok((loaded, built_in)) => if built_in {
                "Configuration disappeared; press r to generate a new plan".to_owned()
            } else if !text_eq(loaded.source.as_str(), self.loaded.source.as_str())
                || !loaded.config.same(&self.loaded.config) {
                "Configuration changed; press r and confirm the new plan".to_owned()
            } else {
                return true;
            },
        };
        self.validity = PlanValidity::Stale;
        self.status = words;
        false
    }

    /// Says what the execution of the plan came to.
    pub fn executed(&mut self, report: &ExecutionReport)
        ensures
            final(self)@ == told(old(self)@, execution_words(report@)),
    {
        self.status = execution_status(report);
    }

    /// Whether what is on screen may be read anew by itself: not while an
    /// answer is awaited.
    pub fn may_refresh(&self) -> (allowed: bool)
        ensures
            allowed == (self.overlay == Overlay::Hidden || self.overlay == Overlay::Help
                || self.overlay == Overlay::Activity),
    {
        self.overlay == Overlay::Hidden || self.overlay == Overlay::Help || self.overlay
            == Overlay::Activity
    }

    /// Says that reading anew failed: the plan is stale from then on. By itself
    /// it also closes the box on screen.
    pub fn refresh_failed(&mut self, message: &str, by_itself: bool)
        ensures
            final(self)@ == (SessionView {
                validity: PlanValidity::Stale,
                overlay: if by_itself {
                    Overlay::Hidden
                } else {
                    old(self)@.overlay
                },
                status: "Refresh failed: "@ + message@,
                ..old(self)@
            }),
    {
        self.validity = PlanValidity::Stale;
        if by_itself {
            self.overlay = Overlay::Hidden;
        }
        self.status = concat2("Refresh failed: ", message);
    }

    /// Says that the activity log could not be read.
    pub fn activity_failed(&mut self, message: &str)
        ensures
            final(self)@ == told(old(self)@, "Activity refresh failed: "@ + message@),
    {
        self.status = concat2("Activity refresh failed: ", message);
    }

    /// Takes over a proposal.
    pub fn proposed(&mut self, proposal: ConfigProposal)
        ensures
            final(self)@ == (SessionView {
                status: "Proposal "@ + proposal@.proposal_id + ": "@ + decimal(
                    proposal@.preview.after_pending as nat,
                ) + " would be removed after save; press s to review"@,
                proposal: Some(proposal@),
                ..old(self)@
            }),
    {
        self.status = concat5(
            "Proposal ",
            proposal.proposal_id.as_str(),
            ": ",
            count_text(proposal.preview.after_pending).as_str(),
            " would be removed after save; press s to review",
        );
        self.proposal = Some(proposal);
    }

    /// Says that no proposal could be made.
    pub fn proposal_blocked(&mut self, message: &str)
        ensures
            final(self)@ == told(old(self)@, "Proposal blocked: "@ + message@),
    {
        self.status = concat2("Proposal blocked: ", message);
    }

    /// Goes by the configuration that was written from now on.
    pub fn config_written(&mut self, path: &str)
        ensures
            final(self)@ == (SessionView { explicit_config: Some(path@), ..old(self)@ }),
    {
        self.explicit_config = Some(path.to_owned());
    }

    /// Shows the review once a configuration was written and read.
    pub fn saved(&mut self, path: &str)
        ensures
            final(self)@ == (SessionView {
                pane: Pane::Review,
                status: "Saved "@ + path@
                    + " \u{2022} review refreshed \u{2022} apply remains a separate confirmation"@,
                ..old(self)@
            }),
    {
        self.pane = Pane::Review;
        self.status = concat3(
            "Saved ",
            path,
            " \u{2022} review refreshed \u{2022} apply remains a separate confirmation",
        );
    }

    /// Says that the configuration could not be written.
    pub fn save_blocked(&mut self, message: &str)
        ensures
            final(self)@ == told(
                old(self)@,
                "Save blocked; refresh and review again: "@ + message@,
            ),
    {
        self.status = concat2("Save blocked; refresh and review again: ", message);
    }
}

fn counts_same(left: &TextMap<u64>, right: &TextMap<u64>) -> (same: bool)
    ensures
        same == (left@ == right@),
{
    let count: usize = left.len();
    if count != right.len() {
        return false;
    }
    let mut index: usize = 0;
    while index < count
        invariant
            index <= count,
            count == left@.len(),
            count == right@.len(),
            forall|i: int| 0 <= i < index ==> left@[i] == right@[i],
        decreases count - index,
    {
        if !text_eq(left.key_at(index).as_str(), right.key_at(index).as_str())
            || *left.value_at(index) != *right.value_at(index) {
            assert(left@[index as int] != right@[index as int]);
            return false;
        }
        index += 1;
    }
    assert(left@ =~= right@);
    true
}

fn data_same(left: &EventData, right: &EventData) -> (same: bool)
    ensures
        same == (left@ == right@),
{
    match (left, right) {
        (EventData::PassStarted, EventData::PassStarted) => true,
        (
            EventData::Action {
                action: a_action,
                resource_kind: a_kind,
                resource_id: a_id,
                resource_name: a_name,
                matched_rule: a_rule,
                age_seconds: a_age,
                freed_bytes: a_freed,
                detail: a_detail,
            },
            EventData::Action {
                action: b_action,
                resource_kind: b_kind,
                resource_id: b_id,
                resource_name: b_name,
                matched_rule: b_rule,
                age_seconds: b_age,
                freed_bytes: b_freed,
                detail: b_detail,
            },
        ) => text_eq(a_action.as_str(), b_action.as_str()) && text_eq(
            a_kind.as_str(),
            b_kind.as_str(),
        ) && text_eq(a_id.as_str(), b_id.as_str()) && text_eq(a_name.as_str(), b_name.as_str())
            && text_eq(a_rule.as_str(), b_rule.as_str()) && *a_age == *b_age && *a_freed
            == *b_freed && text_eq(a_detail.as_str(), b_detail.as_str()),
        (
            EventData::PassSummary {
                completed_at: a_at,
                rule_match_counts: a_counts,
                removed_count: a_removed,
                skipped_count: a_skipped,
                failure_count: a_failed,
                reclaimed_bytes: a_bytes,
            },
            EventData::PassSummary {
                completed_at: b_at,
                rule_match_counts: b_counts,
                removed_count: b_removed,
                skipped_count: b_skipped,
                failure_count: b_failed,
                reclaimed_bytes: b_bytes,
            },
        ) => *a_at == *b_at && counts_same(a_counts, b_counts) && *a_removed == *b_removed
            && *a_skipped == *b_skipped && *a_failed == *b_failed && *a_bytes == *b_bytes,
        _ => false,
    }
}

fn events_same(left: &Vec<ActivityEvent>, right: &Vec<ActivityEvent>) -> (same: bool)
    ensures
        same == (views(left@) == views(right@)),
{
    broadcast use group_views;

    let ghost all_left = views(left@);
    let ghost all_right = views(right@);
    if left.len() != right.len() {
        assert(all_left.len() != all_right.len());
        return false;
    }
    let mut index: usize = 0;
    while index < left.len()
        invariant
            index <= left@.len(),
            left@.len() == right@.len(),
            all_left == views(left@),
            all_right == views(right@),
            forall|i: int| 0 <= i < index ==> all_left[i] == all_right[i],
        decreases left@.len() - index,
    {
        let a = &left[index];
        let b = &right[index];
        let same = a.schema_version == b.schema_version && text_eq(
            a.pass_id.as_str(),
            b.pass_id.as_str(),
        ) && text_eq(a.source.as_str(), b.source.as_str()) && a.sequence == b.sequence
            && a.timestamp == b.timestamp && text_eq(
            a.config_hash.as_str(),
            b.config_hash.as_str(),
        ) && data_same(&a.data, &b.data);
        assert(same == (a@ == b@));
        if !same {
            assert(all_left[index as int] != all_right[index as int]);
            return false;
        }
        index += 1;
    }
    assert(all_left =~= all_right);
    true
}

fn passes_same(left: &Vec<CompletedPass>, right: &Vec<CompletedPass>) -> (same: bool)
    ensures
        same == (views(left@) == views(right@)),
{
    broadcast use group_views;

    let ghost all_left = views(left@);
    let ghost all_right = views(right@);
    if left.len() != right.len() {
        assert(all_left.len() != all_right.len());
        return false;
    }
    let mut index: usize = 0;
    while index < left.len()
        invariant
            index <= left@.len(),
            left@.len() == right@.len(),
            all_left == views(left@),
            all_right == views(right@),
            forall|i: int| 0 <= i < index ==> all_left[i] == all_right[i],
        decreases left@.len() - index,
    {
        let a = &left[index];
        let b = &right[index];
        let same = text_eq(a.pass_id.as_str(), b.pass_id.as_str()) && text_eq(
            a.source.as_str(),
            b.source.as_str(),
        ) && a.started_at == b.started_at && a.completed_at == b.completed_at && text_eq(
            a.config_hash.as_str(),
            b.config_hash.as_str(),
        ) && events_same(&a.actions, &b.actions) && counts_same(
            &a.rule_match_counts,
            &b.rule_match_counts,
        ) && a.removed_count == b.removed_count && a.skipped_count == b.skipped_count
            && a.failure_count == b.failure_count && a.reclaimed_bytes == b.reclaimed_bytes;
        assert(same == (a@ == b@));
        if !same {
            assert(all_left[index as int] != all_right[index as int]);
            return false;
        }
        index += 1;
    }
    assert(all_left =~= all_right);
    true
}

impl Session {
    /// Takes over the activity log, and says so where it changed.
    pub fn note_activity(&mut self, history: Vec<CompletedPass>)
        ensures
            final(self)@ == (if views(history@) == old(self)@.history {
                old(self)@
            } else {
                SessionView {
                    history: views(history@),
                    status: "Activity log updated"@,
                    ..old(self)@
                }
            }),
    {
        if !passes_same(&history, &self.history) {
            self.history = history;
            self.status = "Activity log updated".to_owned();
        }
    }

    /// What the last line of the screen says: what is typed, else the status.
    pub fn footer_status(&self) -> (words: String)
        ensures
            words@ == footer_words(self@),
    {
        match self.editor {
            Editor::Prefix => concat3("prefix=", self.input.as_str(), "\u{258c}"),
            Editor::Policy => concat4(
                self.field.title(),
                "=",
                self.input.as_str(),
                "\u{258c}",
            ),
            Editor::Filter => concat3("/", self.filter.as_str(), "\u{258c}"),
            Editor::Closed => self.status.clone(),
        }
    }

    /// The box in which a value is typed.
    pub fn editor_box(&self) -> (shown: Option<EditorBox<'_>>)
        ensures
            match shown {
                Some(text) => editor_words(self@) == Some(text@),
                None => editor_words(self@) is None,
            },
    {
        let (title, label, guidance, value) = match self.editor {
            Editor::Policy => (
                "Edit policy value",
                self.field.title(),
                "Durations: 15m, 2h, 7d \u{2022} cache bytes: 10GiB",
                self.input.as_str(),
            ),
            Editor::Prefix => (
                "Add explicit name prefix",
                "prefix",
                "Only matching names become owned by this rule",
                self.input.as_str(),
            ),
            Editor::Filter => (
                "Narrow this list",
                "filter",
                "Matching is case-insensitive and fuzzy",
                self.filter.as_str(),
            ),
            Editor::Closed => {
                return None;
            },
        };
        let message = if starts_with(self.status.as_str(), "Invalid value:") {
            self.status.as_str()
        } else {
            guidance
        };
        Some(EditorBox { title, label, message, value })
    }
}

/// What the last line of the screen says.
pub open spec fn footer_words(session: SessionView) -> Seq<char> {
    match session.editor {
        Editor::Prefix => "prefix="@ + session.input + "\u{258c}"@,
        Editor::Policy => field_title(session.field) + "="@ + session.input + "\u{258c}"@,
        Editor::Filter => "/"@ + session.filter + "\u{258c}"@,
        Editor::Closed => session.status,
    }
}

/// The box in which a value is typed.
#[derive(Debug, PartialEq, Eq)]
pub struct EditorBox<'a> {
    pub title: &'a str,
    pub label: &'a str,
    pub message: &'a str,
    pub value: &'a str,
}

/// What the box says.
#[verifier::ext_equal]
pub struct EditorBoxView {
    pub title: Seq<char>,
    pub label: Seq<char>,
    pub message: Seq<char>,
    pub value: Seq<char>,
}

impl<'a> View for EditorBox<'a> {
    type V = EditorBoxView;

    open spec fn view(&self) -> EditorBoxView {
        EditorBoxView {
            title: self.title@,
            label: self.label@,
            message: self.message@,
            value: self.value@,
        }
    }
}

/// The guidance, or what was wrong with the value that was typed.
pub open spec fn guided(session: SessionView, guidance: Seq<char>) -> Seq<char> {
    if "Invalid value:"@.is_prefix_of(session.status) {
        session.status
    } else {
        guidance
    }
}

/// The box in which a value is typed: each editor shows what it writes.
pub open spec fn editor_words(session: SessionView) -> Option<EditorBoxView> {
    match session.editor {
        Editor::Policy => Some(
            EditorBoxView {
                title: "Edit policy value"@,
                label: field_title(session.field),
                message: guided(session, "Durations: 15m, 2h, 7d \u{2022} cache bytes: 10GiB"@),
                value: session.input,
            },
        ),
        Editor::Prefix => Some(
            EditorBoxView {
                title: "Add explicit name prefix"@,
                label: "prefix"@,
                message: guided(session, "Only matching names become owned by this rule"@),
                value: session.input,
            },
        ),
        Editor::Filter => Some(
            EditorBoxView {
                title: "Narrow this list"@,
                label: "filter"@,
                message: guided(session, "Matching is case-insensitive and fuzzy"@),
                value: session.filter,
            },
        ),
        Editor::Closed => None,
    }
}

} // verus!
