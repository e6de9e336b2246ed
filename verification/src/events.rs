//! What a key press does to the dashboard, and what is left to be done outside
//! for it.

use crate::candidate::{CandidateSelector, SurveyView};
use crate::help::{help_entries, help_table};
use crate::keys::{
    intent_for, is_global_quit, meaning, Editor, Intent, Key, KeyPress, Overlay, Pane,
};
use crate::lines::{activity_scroll_end, log_lines, scroll_end};
use crate::outside::{quote, quoted};
use crate::plan::{removals_of, PlanContext};
use crate::present::{
    family_label, family_pair, move_scroll, protection_for, protection_kind, scrolled,
};
use crate::preview::{all_warned, refresh_warnings_in};
use crate::profile::{profile_settings, profile_title, settings_fault, PolicyProfile, SettingsView};
use crate::resource::ResourceKind;
use crate::session::{
    clamped, context_of, family_place, find_family, resources_of, rows_of, selected_family,
    selection, PlanValidity, Session, SessionView,
};
use crate::setup::{
    field_text, field_title, fields, move_configure_row, policy_field_value, row_after,
    set_policy_field, step, stepped, with_field, PolicyField,
};
use crate::survey::{
    add_name_prefix_candidate, prefix_family, prefix_fault, prefix_id, with_family,
};
use crate::text::{
    chars_of, clone_texts, concat2, concat3, concat4, contains_item, group_views, text_eq, text_of,
    trim, trimmed, views,
};
use crate::order::sort;
use crate::unique::{dedup, ordered_once};
use vstd::prelude::*;
use vstd::string::*;

verus! {

/// What is left to be done outside after a key press.
#[derive(Debug, PartialEq, Eq)]
pub enum Effect {
    Nothing,
    /// The dashboard closes.
    Quit,
    /// Everything is read anew.
    Refresh,
    /// The protection of the selected resource is toggled.
    ToggleProtection,
    /// The protection of the selected resource's family is toggled.
    ToggleFamily,
    /// A proposal is worked out.
    Preview,
    /// The confirmed plan is applied.
    Apply,
    /// The proposal is written.
    Save,
    /// The dashboard ends with an error.
    Fail(String),
}

/// What is left to be done, as contracts speak of it.
pub enum EffectView {
    Nothing,
    Quit,
    Refresh,
    ToggleProtection,
    ToggleFamily,
    Preview,
    Apply,
    Save,
    Fail(Seq<char>),
}

impl View for Effect {
    type V = EffectView;

    open spec fn view(&self) -> EffectView {
        match self {
            Effect::Nothing => EffectView::Nothing,
            Effect::Quit => EffectView::Quit,
            Effect::Refresh => EffectView::Refresh,
            Effect::ToggleProtection => EffectView::ToggleProtection,
            Effect::ToggleFamily => EffectView::ToggleFamily,
            Effect::Preview => EffectView::Preview,
            Effect::Apply => EffectView::Apply,
            Effect::Save => EffectView::Save,
            Effect::Fail(message) => EffectView::Fail(message@),
        }
    }
}

/// The state with another status.
pub open spec fn told(session: SessionView, words: Seq<char>) -> SessionView {
    SessionView { status: words, ..session }
}

/// The state with another selection.
pub open spec fn moved(session: SessionView, delta: int) -> SessionView {
    match session.pane {
        Pane::Setup => SessionView {
            row: row_after(session.survey.candidates, session.row as int, delta) as usize,
            ..session
        },
        _ => SessionView {
            selected: stepped(session.selected as int, delta, rows_of(session).len()) as usize,
            ..session
        },
    }
}

/// Ids without one.
pub open spec fn without_id(ids: Seq<Seq<char>>, id: Seq<char>) -> Seq<Seq<char>>
    decreases ids.len(),
{
    if ids.len() == 0 {
        ids
    } else if ids.last() == id {
        without_id(ids.drop_last(), id)
    } else {
        without_id(ids.drop_last(), id).push(ids.last())
    }
}

/// Ids with one more, each once, in order.
pub open spec fn with_id(ids: Seq<Seq<char>>, id: Seq<char>) -> Seq<Seq<char>> {
    ordered_once::<String>(ids.push(id))
}

/// The state once the selected family is used or dropped. The build cache is
/// asked about first.
pub open spec fn candidate_toggled(session: SessionView) -> SessionView {
    match selected_family(session) {
        None => told(session, "No ownership candidate selected"@),
        Some(family) => if session.chosen.contains(family.id) {
            SessionView {
                chosen: without_id(session.chosen, family.id),
                proposal: None,
                status: "Excluded candidate "@ + family.id,
                ..session
            }
        } else if family.selector is BuildCache {
            SessionView { overlay: Overlay::CacheConfirm, ..session }
        } else {
            SessionView {
                chosen: with_id(session.chosen, family.id),
                proposal: None,
                status: "Selected candidate "@ + family.id,
                ..session
            }
        },
    }
}

/// The place of a profile.
pub open spec fn profile_index(profile: PolicyProfile) -> int {
    match profile {
        PolicyProfile::SharedHost => 0,
        PolicyProfile::Workstation => 1,
        PolicyProfile::EphemeralCi => 2,
    }
}

/// The profile at a place.
pub open spec fn profile_at(index: int) -> PolicyProfile {
    if index <= 0 {
        PolicyProfile::SharedHost
    } else if index == 1 {
        PolicyProfile::Workstation
    } else {
        PolicyProfile::EphemeralCi
    }
}

/// The survey with the warnings that hold under a policy.
pub open spec fn rewarned(session: SessionView, policy: SettingsView) -> SurveyView {
    SurveyView {
        candidates: all_warned(
            session.survey.candidates,
            policy,
            resources_of(session.decisions),
            session.created_at,
            context_of(session),
        ),
        ..session.survey
    }
}

/// The state under another profile.
pub open spec fn profile_cycled(session: SessionView, delta: int) -> SessionView {
    let profile = profile_at(stepped(profile_index(session.profile), delta, 3));
    let policy = profile_settings(profile);
    SessionView {
        profile,
        policy,
        survey: rewarned(session, policy),
        proposal: None,
        status: "Policy profile: "@ + profile_title(profile),
        ..session
    }
}

/// The place of a field.
pub open spec fn field_index(field: PolicyField) -> int {
    match field {
        PolicyField::Containers => 0,
        PolicyField::Images => 1,
        PolicyField::Volumes => 2,
        PolicyField::CacheAge => 3,
        PolicyField::CacheBytes => 4,
    }
}

/// The state with another field to edit.
pub open spec fn field_cycled(session: SessionView, delta: int) -> SessionView {
    let field = fields()[stepped(field_index(session.field), delta, 5)];
    SessionView {
        field,
        status: "Editable policy field: "@ + field_title(field) + " \u{2022} press e"@,
        ..session
    }
}

/// The state in which a field is edited.
pub open spec fn field_opened(session: SessionView) -> SessionView {
    SessionView {
        input: field_text(session.field, session.policy),
        editor: Editor::Policy,
        status: "Edit "@ + field_title(session.field)
            + " \u{2022} durations use 15m/2h/7d; cache bytes accept 10GiB"@,
        ..session
    }
}

/// The settings that were typed, or why they are none.
pub open spec fn typed_policy(session: SessionView) -> Result<SettingsView, Seq<char>> {
    match with_field(session.field, session.policy, trimmed(session.input)) {
        Err(message) => Err(message),
        Ok(policy) => match settings_fault(policy) {
            Some(fault) => Err(fault),
            None => Ok(policy),
        },
    }
}

/// The state once what was typed is taken over, or refused.
pub open spec fn field_accepted(session: SessionView) -> SessionView {
    match typed_policy(session) {
        Err(message) => told(
            session,
            "Invalid value: "@ + message + " \u{2022} correct it or press Esc"@,
        ),
        Ok(policy) => SessionView {
            policy,
            survey: rewarned(session, policy),
            proposal: None,
            editor: Editor::Closed,
            status: "Updated "@ + field_title(session.field) + " to "@ + field_text(
                session.field,
                policy,
            ),
            ..session
        },
    }
}

/// The state in which a name prefix is edited.
pub open spec fn prefix_opened(session: SessionView) -> SessionView {
    match selection(session) {
        None => told(session, "Nothing is selected"@),
        Some(decision) => if decision.resource.kind == ResourceKind::BuildCache {
            told(session, "Build cache has no name to own"@)
        } else {
            SessionView {
                input_kind: decision.resource.kind,
                input: decision.resource.name,
                editor: Editor::Prefix,
                status: "Edit the exact prefix; Enter adds it, Esc cancels"@,
                ..session
            }
        },
    }
}

/// The state once a name prefix is taken over.
pub open spec fn prefix_accepted(session: SessionView) -> SessionView {
    let prefix = trimmed(session.input);
    let inventory = resources_of(session.decisions);
    let survey = with_family(
        session.survey,
        prefix_family(inventory, session.input_kind, prefix),
    );
    let id = prefix_id(session.input_kind, prefix);
    SessionView {
        survey,
        chosen: with_id(session.chosen, id),
        row: (match family_place(survey.candidates, id) {
            Some(place) => place,
            None => 0,
        }) as usize,
        proposal: None,
        editor: Editor::Closed,
        pane: Pane::Setup,
        status: "Added operator-approved prefix candidate "@ + id,
        ..session
    }
}

/// A text without its last character.
pub open spec fn shortened(text: Seq<char>) -> Seq<char> {
    if text.len() == 0 {
        text
    } else {
        text.drop_last()
    }
}

/// The state once the plan is put up for confirmation, where it can be.
pub open spec fn confirmation_opened(session: SessionView) -> SessionView {
    if session.validity == PlanValidity::Stale {
        told(session, "Plan is stale because refresh failed; fix the error and press r"@)
    } else if removals_of(session.decisions).len() != 0 {
        SessionView { confirm_scroll: 0, overlay: Overlay::Confirm, ..session }
    } else {
        told(session, "Nothing would be removed"@)
    }
}

/// The state on another pane, from its top.
pub open spec fn switched(session: SessionView, pane: Pane) -> SessionView {
    clamped(SessionView { pane, selected: 0, detail_open: false, pane_scroll: 0, ..session })
}

/// What is said where the selected resource cannot be protected.
pub open spec fn unprotectable(session: SessionView) -> Option<Seq<char>> {
    match selection(session) {
        None => Some("Nothing is selected"@),
        Some(decision) => if protection_for(decision.resource.kind) is None {
            Some(
                "Build-cache records cannot be protected: Docker exposes no stable owner metadata"@,
            )
        } else {
            None
        },
    }
}

/// What is said where the selected resource has no family.
pub open spec fn unfamilied(session: SessionView) -> Option<Seq<char>> {
    match selection(session) {
        None => Some("Nothing is selected"@),
        Some(decision) => if family_pair(decision.resource.labels) is None {
            Some(
                decision.resource.name
                    + " carries no Compose or agent family label; press space to protect it alone"@,
            )
        } else {
            None
        },
    }
}

/// What an intent comes to.
pub open spec fn carried_out(session: SessionView, intent: Intent) -> (SessionView, EffectView) {
    match intent {
        Intent::Quit => (session, EffectView::Quit),
        Intent::Help => (
            SessionView { overlay_scroll: 0, overlay: Overlay::Help, ..session },
            EffectView::Nothing,
        ),
        Intent::Show(pane) => (switched(session, pane), EffectView::Nothing),
        Intent::ActivityLog => (
            SessionView { overlay_scroll: 0, overlay: Overlay::Activity, ..session },
            EffectView::Nothing,
        ),
        Intent::Move(delta) => (moved(session, delta as int), EffectView::Nothing),
        Intent::ScrollPreview(delta) => (
            SessionView { pane_scroll: scrolled(session.pane_scroll, delta as int), ..session },
            EffectView::Nothing,
        ),
        Intent::ToggleDetail => (
            SessionView { detail_open: !session.detail_open, pane_scroll: 0, ..session },
            EffectView::Nothing,
        ),
        Intent::StartFilter => (
            SessionView {
                editor: Editor::Filter,
                status: "Type to narrow; Enter accepts, Esc clears"@,
                ..session
            },
            EffectView::Nothing,
        ),
        Intent::Protect => match unprotectable(session) {
            Some(words) => (told(session, words), EffectView::Nothing),
            None => (session, EffectView::ToggleProtection),
        },
        Intent::ProtectFamily => match unfamilied(session) {
            Some(words) => (told(session, words), EffectView::Nothing),
            None => (session, EffectView::ToggleFamily),
        },
        Intent::NamePrefix => (prefix_opened(session), EffectView::Nothing),
        Intent::Apply => (confirmation_opened(session), EffectView::Nothing),
        Intent::Refresh => (session, EffectView::Refresh),
        Intent::CycleProfile(delta) => (profile_cycled(session, delta as int), EffectView::Nothing),
        Intent::CyclePolicyField(delta) => (
            field_cycled(session, delta as int),
            EffectView::Nothing,
        ),
        Intent::EditPolicy => (field_opened(session), EffectView::Nothing),
        Intent::ToggleCandidate => (candidate_toggled(session), EffectView::Nothing),
        Intent::PreviewProposal => (session, EffectView::Preview),
        Intent::SaveProposal => if session.proposal is Some {
            (SessionView { overlay: Overlay::ConfigSave, ..session }, EffectView::Nothing)
        } else {
            (told(session, "Preview the proposal with v before saving"@), EffectView::Nothing)
        },
    }
}

/// How far the box on screen can be scrolled.
pub open spec fn overlay_end(session: SessionView) -> u16 {
    match session.overlay {
        Overlay::Activity => scroll_end(log_lines(session.history).len()),
        Overlay::Help => scroll_end(help_table().len() + 4),
        _ => 0,
    }
}

/// The lower of two scroll positions.
pub open spec fn lower(first: u16, second: u16) -> u16 {
    if first <= second {
        first
    } else {
        second
    }
}

/// What a key does to a box that scrolls.
pub open spec fn box_scrolled(session: SessionView, key: Key) -> SessionView {
    let end = overlay_end(session);
    match key {
        Key::Esc => SessionView { overlay: Overlay::Hidden, overlay_scroll: 0, ..session },
        Key::Char('l') => SessionView { overlay: Overlay::Hidden, overlay_scroll: 0, ..session },
        Key::Char('q') => SessionView { overlay: Overlay::Hidden, overlay_scroll: 0, ..session },
        Key::Char('?') => SessionView { overlay: Overlay::Hidden, overlay_scroll: 0, ..session },
        Key::Down => SessionView {
            overlay_scroll: lower(scrolled(session.overlay_scroll, 1), end),
            ..session
        },
        Key::Char('j') => SessionView {
            overlay_scroll: lower(scrolled(session.overlay_scroll, 1), end),
            ..session
        },
        Key::Up => SessionView { overlay_scroll: scrolled(session.overlay_scroll, -1), ..session },
        Key::Char('k') => SessionView {
            overlay_scroll: scrolled(session.overlay_scroll, -1),
            ..session
        },
        Key::PageDown => SessionView {
            overlay_scroll: lower(scrolled(session.overlay_scroll, 10), end),
            ..session
        },
        Key::PageUp => SessionView {
            overlay_scroll: scrolled(session.overlay_scroll, -10),
            ..session
        },
        _ => session,
    }
}

/// The state with the targets scrolled to a position.
pub open spec fn targets_scrolled(session: SessionView, delta: int) -> SessionView {
    let next = session.confirm_scroll + delta;
    let count = removals_of(session.decisions).len();
    let end = if count == 0 {
        0
    } else {
        count - 1
    };
    SessionView {
        confirm_scroll: (if next < 0 {
            0
        } else if delta > 0 && next > end {
            end
        } else {
            next
        }) as usize,
        ..session
    }
}

/// What a key does to the box that a plan is confirmed in.
pub open spec fn confirmation_key(session: SessionView, key: Key) -> (SessionView, EffectView) {
    match key {
        Key::Esc => (
            told(SessionView { overlay: Overlay::Hidden, ..session }, "Apply cancelled"@),
            EffectView::Nothing,
        ),
        Key::Char('n') => (
            told(SessionView { overlay: Overlay::Hidden, ..session }, "Apply cancelled"@),
            EffectView::Nothing,
        ),
        Key::Enter => (
            told(
                SessionView { overlay: Overlay::Hidden, ..session },
                "Applying the confirmed plan\u{2026}"@,
            ),
            EffectView::Apply,
        ),
        Key::Down => (targets_scrolled(session, 1), EffectView::Nothing),
        Key::Char('j') => (targets_scrolled(session, 1), EffectView::Nothing),
        Key::Up => (targets_scrolled(session, -1), EffectView::Nothing),
        Key::Char('k') => (targets_scrolled(session, -1), EffectView::Nothing),
        Key::PageDown => (targets_scrolled(session, 10), EffectView::Nothing),
        Key::PageUp => (targets_scrolled(session, -10), EffectView::Nothing),
        _ => (session, EffectView::Nothing),
    }
}

/// What a key does to the box that asks about the build cache.
pub open spec fn cache_key(session: SessionView, key: Key) -> SessionView {
    let closed = SessionView { overlay: Overlay::Hidden, ..session };
    if key == Key::Esc || key == Key::Char('n') {
        told(closed, "Build-cache policy not enabled"@)
    } else if key == Key::Enter || key == Key::Char('y') {
        let next = match selected_family(session) {
            Some(family) => SessionView {
                chosen: with_id(session.chosen, family.id),
                proposal: None,
                ..closed
            },
            None => closed,
        };
        told(
            next,
            "Enabled a build-cache proposal with no ownership evidence; preview before save"@,
        )
    } else {
        session
    }
}

/// What a key does to the box that asks before a configuration is written.
pub open spec fn save_key(session: SessionView, key: Key) -> (SessionView, EffectView) {
    let closed = SessionView { overlay: Overlay::Hidden, ..session };
    if key == Key::Esc || key == Key::Char('n') {
        (told(closed, "Configuration save cancelled"@), EffectView::Nothing)
    } else if key == Key::Enter || key == Key::Char('y') {
        (told(closed, "Writing validated configuration\u{2026}"@), EffectView::Save)
    } else {
        (session, EffectView::Nothing)
    }
}

/// What a key does while the filter is typed.
pub open spec fn filter_key(session: SessionView, press: KeyPress) -> SessionView {
    match press.key {
        Key::Esc => SessionView {
            filter: Seq::empty(),
            editor: Editor::Closed,
            selected: 0,
            status: "Filter cleared"@,
            ..session
        },
        Key::Enter => SessionView {
            editor: Editor::Closed,
            selected: 0,
            status: "Showing names matching "@ + quoted(session.filter),
            ..session
        },
        Key::Backspace => SessionView {
            filter: shortened(session.filter),
            selected: 0,
            ..session
        },
        Key::Char(character) => if press.plain {
            SessionView { filter: session.filter.push(character), selected: 0, ..session }
        } else {
            session
        },
        _ => session,
    }
}

/// What a key does while a value is typed, but for the one that accepts it.
pub open spec fn input_key(session: SessionView, press: KeyPress, cancelled: Seq<char>) -> SessionView {
    match press.key {
        Key::Esc => SessionView {
            editor: Editor::Closed,
            input: Seq::empty(),
            status: cancelled,
            ..session
        },
        Key::Backspace => SessionView { input: shortened(session.input), ..session },
        Key::Char(character) => if press.plain {
            SessionView { input: session.input.push(character), ..session }
        } else {
            session
        },
        _ => session,
    }
}

/// What a key does while a name prefix is typed.
pub open spec fn prefix_key(session: SessionView, press: KeyPress) -> (SessionView, EffectView) {
    if press.key == Key::Enter {
        match prefix_fault(
            resources_of(session.decisions),
            session.input_kind,
            trimmed(session.input),
        ) {
            Some(fault) => (session, EffectView::Fail(fault)),
            None => (prefix_accepted(session), EffectView::Nothing),
        }
    } else {
        (
            input_key(session, press, "Name-prefix candidate cancelled"@),
            EffectView::Nothing,
        )
    }
}

/// What a key does while a policy value is typed.
pub open spec fn policy_key(session: SessionView, press: KeyPress) -> SessionView {
    if press.key == Key::Enter {
        field_accepted(session)
    } else {
        input_key(session, press, "Policy edit cancelled"@)
    }
}

/// What a key press does: what is typed comes first, then the box on screen,
/// then the pane. Control-C quits wherever the dashboard stands.
pub open spec fn pressed(session: SessionView, press: KeyPress) -> (SessionView, EffectView) {
    if press.control && (press.key == Key::Char('c') || press.key == Key::Char('C')) {
        (session, EffectView::Quit)
    } else {
        match session.editor {
            Editor::Prefix => prefix_key(session, press),
            Editor::Policy => (policy_key(session, press), EffectView::Nothing),
            Editor::Filter => (filter_key(session, press), EffectView::Nothing),
            Editor::Closed => match session.overlay {
                Overlay::Help => (box_scrolled(session, press.key), EffectView::Nothing),
                Overlay::Activity => (box_scrolled(session, press.key), EffectView::Nothing),
                Overlay::Confirm => confirmation_key(session, press.key),
                Overlay::CacheConfirm => (cache_key(session, press.key), EffectView::Nothing),
                Overlay::ConfigSave => save_key(session, press.key),
                Overlay::Hidden => match meaning(session.pane, press.key) {
                    Some(intent) => carried_out(session, intent),
                    None => (session, EffectView::Nothing),
                },
            },
        }
    }
}

fn drop_id(ids: &Vec<String>, id: &str) -> (kept: Vec<String>)
    ensures
        views(kept@) == without_id(views(ids@), id@),
{
    broadcast use group_views;

    let ghost all = views(ids@);
    let mut kept: Vec<String> = Vec::new();
    let mut index: usize = 0;
    assert(views(kept@) =~= without_id(all.take(0), id@));
    while index < ids.len()
        invariant
            index <= ids@.len(),
            all == views(ids@),
            views(kept@) == without_id(all.take(index as int), id@),
        decreases ids@.len() - index,
    {
        assert(all.take(index as int + 1).drop_last() =~= all.take(index as int));
        assert(all.take(index as int + 1).last() == ids@[index as int]@);
        if !text_eq(ids[index].as_str(), id) {
            kept.push(ids[index].clone());
        }
        index += 1;
    }
    assert(all.take(index as int) =~= all);
    kept
}

fn add_id(ids: &Vec<String>, id: String) -> (next: Vec<String>)
    ensures
        views(next@) == with_id(views(ids@), id@),
{
    broadcast use group_views;

    let mut all = clone_texts(ids);
    all.push(id);
    dedup(sort(all))
}

fn shorten(text: &str) -> (rest: String)
    ensures
        rest@ == shortened(text@),
{
    let characters = chars_of(text);
    let count: usize = characters.len();
    if count == 0 {
        text.to_owned()
    } else {
        let rest = text_of(&characters, 0, count - 1);
        assert(rest@ =~= text@.drop_last());
        rest
    }
}

fn lower_scroll(first: u16, second: u16) -> (least: u16)
    ensures
        least == lower(first, second),
{
    if first <= second {
        first
    } else {
        second
    }
}

impl Session {
    fn tell(&mut self, words: &str)
        ensures
            final(self)@ == told(old(self)@, words@),
    {
        self.status = words.to_owned();
    }

    /// Moves the selection of the pane on screen.
    pub fn move_selection(&mut self, delta: isize)
        ensures
            final(self)@ == moved(old(self)@, delta as int),
    {
        broadcast use group_views;

        match self.pane {
            Pane::Setup => {
                self.row = move_configure_row(&self.survey, self.row, delta);
            },
            _ => {
                let count: usize = self.current_rows().len();
                self.selected = step(self.selected, delta, count);
            },
        }
    }

    /// Uses or drops the selected family.
    pub fn toggle_selected_candidate(&mut self)
        ensures
            final(self)@ == candidate_toggled(old(self)@),
    {
        let (id, cache) = match self.selected_candidate() {
            None => {
                self.tell("No ownership candidate selected");
                return;
            },
            Some(family) => (
                family.id.clone(),
                matches!(family.selector, CandidateSelector::BuildCache),
            ),
        };
        if contains_item(&self.chosen, id.as_str()) {
            self.chosen = drop_id(&self.chosen, id.as_str());
            self.proposal = None;
            self.status = concat2("Excluded candidate ", id.as_str());
        } else if cache {
            self.overlay = Overlay::CacheConfirm;
        } else {
            self.status = concat2("Selected candidate ", id.as_str());
            self.chosen = add_id(&self.chosen, id);
            self.proposal = None;
        }
    }

    fn rewarn(&mut self)
        ensures
            final(self)@ == (SessionView {
                survey: rewarned(old(self)@, old(self)@.policy),
                ..old(self)@
            }),
    {
        let inventory = self.inventory_snapshot();
        let context = PlanContext {
            protection: &self.protection,
            observations: &self.observations,
        };
        let mut survey = self.survey.clone();
        refresh_warnings_in(&mut survey, &self.policy, &inventory, self.created_at, &context);
        self.survey = survey;
    }

    /// Changes the policy profile.
    pub fn cycle_profile(&mut self, delta: isize)
        ensures
            final(self)@ == profile_cycled(old(self)@, delta as int),
    {
        let current: usize = match self.profile {
            PolicyProfile::SharedHost => 0,
            PolicyProfile::Workstation => 1,
            PolicyProfile::EphemeralCi => 2,
        };
        let next: usize = step(current, delta, 3);
        self.profile = if next == 0 {
            PolicyProfile::SharedHost
        } else if next == 1 {
            PolicyProfile::Workstation
        } else {
            PolicyProfile::EphemeralCi
        };
        self.policy = self.profile.settings();
        self.rewarn();
        self.proposal = None;
        self.status = concat2("Policy profile: ", self.profile.title());
    }

    /// Changes the field that is edited.
    pub fn cycle_policy_field(&mut self, delta: isize)
        ensures
            final(self)@ == field_cycled(old(self)@, delta as int),
    {
        let current: usize = match self.field {
            PolicyField::Containers => 0,
            PolicyField::Images => 1,
            PolicyField::Volumes => 2,
            PolicyField::CacheAge => 3,
            PolicyField::CacheBytes => 4,
        };
        let list = PolicyField::all();
        self.field = list[step(current, delta, 5)];
        self.status = concat3(
            "Editable policy field: ",
            self.field.title(),
            " \u{2022} press e",
        );
    }

    /// Begins to edit a field.
    pub fn start_policy_editor(&mut self)
        ensures
            final(self)@ == field_opened(old(self)@),
    {
        self.input = policy_field_value(self.field, &self.policy);
        self.editor = Editor::Policy;
        self.status = concat3(
            "Edit ",
            self.field.title(),
            " \u{2022} durations use 15m/2h/7d; cache bytes accept 10GiB",
        );
    }

    /// Takes over the value that was typed, or says why it cannot be.
    pub fn accept_policy_value(&mut self)
        ensures
            final(self)@ == field_accepted(old(self)@),
    {
        let mut next = self.policy.clone();
        let typed = trim(self.input.as_str());
        let mut outcome = set_policy_field(self.field, &mut next, typed.as_str());
        if outcome.is_ok() {
            outcome = next.validate();
        }
        match outcome {
            Err(error) => {
                self.status = concat3(
                    "Invalid value: ",
                    error.message().as_str(),
                    " \u{2022} correct it or press Esc",
                );
            },
            Ok(_) => {
                self.policy = next;
                self.rewarn();
                self.proposal = None;
                self.editor = Editor::Closed;
                self.status = concat4(
                    "Updated ",
                    self.field.title(),
                    " to ",
                    policy_field_value(self.field, &self.policy).as_str(),
                );
            },
        }
    }

    /// Begins to edit the name of the selected resource as a prefix.
    pub fn start_prefix_editor(&mut self)
        ensures
            final(self)@ == prefix_opened(old(self)@),
    {
        let (kind, name) = match self.selected_decision() {
            None => {
                self.tell("Nothing is selected");
                return;
            },
            Some(decision) => (decision.resource.kind, decision.resource.name.clone()),
        };
        if kind == ResourceKind::BuildCache {
            self.tell("Build cache has no name to own");
            return;
        }
        self.input_kind = kind;
        self.input = name;
        self.editor = Editor::Prefix;
        self.tell("Edit the exact prefix; Enter adds it, Esc cancels");
    }

    /// Takes over the prefix that was typed. One that makes no family is an
    /// error.
    pub fn accept_prefix(&mut self) -> (effect: Effect)
        ensures
            match prefix_fault(
                resources_of(old(self)@.decisions),
                old(self)@.input_kind,
                trimmed(old(self)@.input),
            ) {
                Some(fault) => effect@ == EffectView::Fail(fault) && final(self)@ == old(self)@,
                None => effect is Nothing && final(self)@ == prefix_accepted(old(self)@),
            },
    {
        let inventory = self.inventory_snapshot();
        let prefix = trim(self.input.as_str());
        let mut survey = self.survey.clone();
        match add_name_prefix_candidate(&mut survey, &inventory, self.input_kind, prefix.as_str()) {
            Err(error) => Effect::Fail(error.message()),
            Ok(id) => {
                self.row = match find_family(&survey.candidates, id.as_str()) {
                    Some(place) => place,
                    None => 0,
                };
                self.status = concat2("Added operator-approved prefix candidate ", id.as_str());
                self.chosen = add_id(&self.chosen, id);
                self.survey = survey;
                self.proposal = None;
                self.editor = Editor::Closed;
                self.pane = Pane::Setup;
                Effect::Nothing
            },
        }
    }

    /// Puts the plan up for confirmation, unless it is stale or removes
    /// nothing.
    pub fn open_confirmation(&mut self)
        ensures
            final(self)@ == confirmation_opened(old(self)@),
    {
        if self.validity == PlanValidity::Stale {
            self.tell("Plan is stale because refresh failed; fix the error and press r");
        } else if self.plan.has_pending_removals() {
            self.confirm_scroll = 0;
            self.overlay = Overlay::Confirm;
        } else {
            self.tell("Nothing would be removed");
        }
    }

    /// Shows another pane, from its top.
    pub fn switch_pane(&mut self, pane: Pane)
        ensures
            final(self)@ == switched(old(self)@, pane),
    {
        self.pane = pane;
        self.selected = 0;
        self.detail_open = false;
        self.pane_scroll = 0;
        self.clamp_selection();
    }

    fn ask_protection(&mut self) -> (effect: Effect)
        ensures
            (final(self)@, effect@) == carried_out(old(self)@, Intent::Protect),
    {
        let kind = match self.selected_decision() {
            None => {
                self.tell("Nothing is selected");
                return Effect::Nothing;
            },
            Some(decision) => decision.resource.kind,
        };
        if protection_kind(kind).is_none() {
            self.tell(
                "Build-cache records cannot be protected: Docker exposes no stable owner metadata",
            );
            return Effect::Nothing;
        }
        Effect::ToggleProtection
    }

    fn ask_family(&mut self) -> (effect: Effect)
        ensures
            (final(self)@, effect@) == carried_out(old(self)@, Intent::ProtectFamily),
    {
        let words = match self.selected_decision() {
            None => "Nothing is selected".to_owned(),
            Some(decision) => {
                if family_label(&decision.resource).is_some() {
                    return Effect::ToggleFamily;
                }
                concat2(
                    decision.resource.name.as_str(),
                    " carries no Compose or agent family label; press space to protect it alone",
                )
            },
        };
        self.status = words;
        Effect::Nothing
    }

    /// Carries out an intent, as far as it needs nothing from outside.
    pub fn carry_out(&mut self, intent: Intent) -> (effect: Effect)
        ensures
            (final(self)@, effect@) == carried_out(old(self)@, intent),
    {
        match intent {
            Intent::Quit => {
                return Effect::Quit;
            },
            Intent::Help => {
                self.overlay_scroll = 0;
                self.overlay = Overlay::Help;
            },
            Intent::Show(pane) => self.switch_pane(pane),
            Intent::ActivityLog => {
                self.overlay_scroll = 0;
                self.overlay = Overlay::Activity;
            },
            Intent::Move(delta) => self.move_selection(delta),
            Intent::ScrollPreview(delta) => {
                self.pane_scroll = move_scroll(self.pane_scroll, delta);
            },
            Intent::ToggleDetail => {
                self.detail_open = !self.detail_open;
                self.pane_scroll = 0;
            },
            Intent::StartFilter => {
                self.editor = Editor::Filter;
                self.tell("Type to narrow; Enter accepts, Esc clears");
            },
            Intent::Protect => {
                return self.ask_protection();
            },
            Intent::ProtectFamily => {
                return self.ask_family();
            },
            Intent::NamePrefix => self.start_prefix_editor(),
            Intent::Apply => self.open_confirmation(),
            Intent::Refresh => {
                return Effect::Refresh;
            },
            Intent::CycleProfile(delta) => self.cycle_profile(delta),
            Intent::CyclePolicyField(delta) => self.cycle_policy_field(delta),
            Intent::EditPolicy => self.start_policy_editor(),
            Intent::ToggleCandidate => self.toggle_selected_candidate(),
            Intent::PreviewProposal => {
                return Effect::Preview;
            },
            Intent::SaveProposal => {
                if self.proposal.is_some() {
                    self.overlay = Overlay::ConfigSave;
                } else {
                    self.tell("Preview the proposal with v before saving");
                }
            },
        }
        Effect::Nothing
    }

    fn overlay_scroll_end(&self) -> (end: u16)
        ensures
            end == overlay_end(self@),
    {
        match self.overlay {
            Overlay::Activity => activity_scroll_end(&self.history),
            Overlay::Help => {
                let entries = help_entries();
                assert(entries@.len() == views(entries@).len());
                (entries.len() + 3) as u16
            },
            _ => 0,
        }
    }

    fn scroll_box(&mut self, key: Key)
        ensures
            final(self)@ == box_scrolled(old(self)@, key),
    {
        let end: u16 = self.overlay_scroll_end();
        match key {
            Key::Esc | Key::Char('l') | Key::Char('q') | Key::Char('?') => {
                self.overlay = Overlay::Hidden;
                self.overlay_scroll = 0;
            },
            Key::Down | Key::Char('j') => {
                self.overlay_scroll = lower_scroll(move_scroll(self.overlay_scroll, 1), end);
            },
            Key::Up | Key::Char('k') => {
                self.overlay_scroll = move_scroll(self.overlay_scroll, -1);
            },
            Key::PageDown => {
                self.overlay_scroll = lower_scroll(move_scroll(self.overlay_scroll, 10), end);
            },
            Key::PageUp => {
                self.overlay_scroll = move_scroll(self.overlay_scroll, -10);
            },
            _ => {},
        }
    }

    fn scroll_targets_down(&mut self, count: usize)
        requires
            0 < count,
        ensures
            final(self)@ == targets_scrolled(old(self)@, count as int),
    {
        let pending: usize = self.plan.pending_count();
        let end: usize = if pending == 0 {
            0
        } else {
            pending - 1
        };
        let next: usize = self.confirm_scroll.saturating_add(count);
        self.confirm_scroll = if next > end {
            end
        } else {
            next
        };
    }

    fn scroll_targets_up(&mut self, count: usize)
        requires
            0 < count,
        ensures
            final(self)@ == targets_scrolled(old(self)@, -(count as int)),
    {
        self.confirm_scroll = self.confirm_scroll.saturating_sub(count);
    }

    fn confirm(&mut self, key: Key) -> (effect: Effect)
        ensures
            (final(self)@, effect@) == confirmation_key(old(self)@, key),
    {
        match key {
            Key::Esc | Key::Char('n') => {
                self.overlay = Overlay::Hidden;
                self.tell("Apply cancelled");
            },
            Key::Enter => {
                self.overlay = Overlay::Hidden;
                self.tell("Applying the confirmed plan\u{2026}");
                return Effect::Apply;
            },
            Key::Down | Key::Char('j') => self.scroll_targets_down(1),
            Key::Up | Key::Char('k') => self.scroll_targets_up(1),
            Key::PageDown => self.scroll_targets_down(10),
            Key::PageUp => self.scroll_targets_up(10),
            _ => {},
        }
        Effect::Nothing
    }

    fn answer_cache(&mut self, key: Key)
        ensures
            final(self)@ == cache_key(old(self)@, key),
    {
        match key {
            Key::Esc | Key::Char('n') => {
                self.overlay = Overlay::Hidden;
                self.tell("Build-cache policy not enabled");
            },
            Key::Enter | Key::Char('y') => {
                let id = match self.selected_candidate() {
                    Some(family) => Some(family.id.clone()),
                    None => None,
                };
                if let Some(id) = id {
                    self.chosen = add_id(&self.chosen, id);
                    self.proposal = None;
                }
                self.overlay = Overlay::Hidden;
                self.tell(
                    "Enabled a build-cache proposal with no ownership evidence; preview before save",
                );
            },
            _ => {},
        }
    }

    fn answer_save(&mut self, key: Key) -> (effect: Effect)
        ensures
            (final(self)@, effect@) == save_key(old(self)@, key),
    {
        match key {
            Key::Esc | Key::Char('n') => {
                self.overlay = Overlay::Hidden;
                self.tell("Configuration save cancelled");
            },
            Key::Enter | Key::Char('y') => {
                self.overlay = Overlay::Hidden;
                self.tell("Writing validated configuration\u{2026}");
                return Effect::Save;
            },
            _ => {},
        }
        Effect::Nothing
    }

    fn type_filter(&mut self, press: KeyPress)
        ensures
            final(self)@ == filter_key(old(self)@, press),
    {
        match press.key {
            Key::Esc => {
                self.filter = String::new();
                self.editor = Editor::Closed;
                self.selected = 0;
                self.tell("Filter cleared");
            },
            Key::Enter => {
                self.editor = Editor::Closed;
                self.selected = 0;
                self.status = concat2(
                    "Showing names matching ",
                    quote(self.filter.as_str()).as_str(),
                );
            },
            Key::Backspace => {
                self.filter = shorten(self.filter.as_str());
                self.selected = 0;
            },
            Key::Char(character) => {
                if press.plain {
                    self.filter.push(character);
                    self.selected = 0;
                }
            },
            _ => {},
        }
    }

    fn type_input(&mut self, press: KeyPress, cancelled: &str)
        ensures
            final(self)@ == input_key(old(self)@, press, cancelled@),
    {
        match press.key {
            Key::Esc => {
                self.editor = Editor::Closed;
                self.input = String::new();
                self.tell(cancelled);
            },
            Key::Backspace => {
                self.input = shorten(self.input.as_str());
            },
            Key::Char(character) => {
                if press.plain {
                    self.input.push(character);
                }
            },
            _ => {},
        }
    }

    /// Takes a key press: changes the state, and says what is left to be done
    /// outside.
    pub fn press(&mut self, press: KeyPress) -> (effect: Effect)
        ensures
            (final(self)@, effect@) == pressed(old(self)@, press),
    {
        if is_global_quit(press) {
            return Effect::Quit;
        }
        match self.editor {
            Editor::Prefix => {
                if press.key == Key::Enter {
                    return self.accept_prefix();
                }
                self.type_input(press, "Name-prefix candidate cancelled");
            },
            Editor::Policy => {
                if press.key == Key::Enter {
                    self.accept_policy_value();
                } else {
                    self.type_input(press, "Policy edit cancelled");
                }
            },
            Editor::Filter => self.type_filter(press),
            Editor::Closed => match self.overlay {
                Overlay::Help | Overlay::Activity => self.scroll_box(press.key),
                Overlay::Confirm => {
                    return self.confirm(press.key);
                },
                Overlay::CacheConfirm => self.answer_cache(press.key),
                Overlay::ConfigSave => {
                    return self.answer_save(press.key);
                },
                Overlay::Hidden => {
                    if let Some(intent) = intent_for(self.pane, press.key) {
                        return self.carry_out(intent);
                    }
                },
            },
        }
        Effect::Nothing
    }
}

} // verus!
