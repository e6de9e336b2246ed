//! The dashboard: its keys, its state, and what it shows.

use docker_maid::activity::{ActivityEvent, CompletedPass, EventData};
use docker_maid::config::{Config, LoadedConfig};
use docker_maid::effects::{ApplyStep, Change};
use docker_maid::events::Effect;
use docker_maid::executor::ExecutionReport;
use docker_maid::help::{help_entries, help_keys, help_lines, too_small_lines};
use docker_maid::keys::{
    hint_lines, hints_for, intent_for, is_global_quit, key_symbol, setup_intent, Editor, Intent,
    Key, KeyPress, Overlay, Pane, MIN_WIDTH,
};
use docker_maid::lines::{
    activity_lines, activity_scroll_end, activity_title, execution_status,
    family_protection_target, header_text, keeping_entry, last_pass_text, removal_entry,
    resource_detail, tui_plan_id,
};
use docker_maid::observation::ObservationState;
use docker_maid::panels::{
    cache_confirmation, confirmation_box, review_heading, save_confirmation, setup_detail,
    setup_header, NO_FAMILY,
};
use docker_maid::plan::{Action, Decision, Disposition, Plan};
use docker_maid::present::{
    family_label, format_age, format_bytes, format_timestamp, fuzzy_match, move_scroll,
    overlay_area, parse_byte_budget, plain_disposition, protection_kind, reason_clauses, truncate,
    visible_input_tail, yes_no, Area,
};
use docker_maid::profile::PolicyProfile;
use docker_maid::resource::{InventoryItem, ResourceKind, ResourceState};
use docker_maid::session::{Opening, PlanValidity, Reading, Session};
use docker_maid::setup::{
    first_configure_row, move_configure_row, policy_field_value, set_policy_field, PolicyField,
};
use docker_maid::state::{ProtectionEntry, ProtectionKind, ProtectionState};
use docker_maid::survey::survey_inventory;
use docker_maid::text_map::{Labels, TextMap};

fn sample_decision() -> Decision {
    Decision {
        resource: InventoryItem {
            kind: ResourceKind::Container,
            id: "abc".to_owned(),
            name: "agent-box".to_owned(),
            search_names: vec!["agent-box".to_owned()],
            parent_ids: Vec::new(),
            labels: Labels::from_pairs(vec![("ai-agent.owner".to_owned(), "test".to_owned())]),
            mounts: vec!["workspace → /workspace (volume, rw)".to_owned()],
            state: ResourceState::Stopped,
            created_at: Some(1),
            state_since: Some(2),
            size: Some(1024),
            referenced: false,
            dangling: false,
            system: false,
        },
        disposition: Disposition::Owned,
        matched_rule: Some("agents".to_owned()),
        action: Action::Remove,
        age_seconds: Some(90),
        reason: "matched agent label".to_owned(),
    }
}

/// One container and one volume in the same `ai-agent.owner=test` family.
fn fixture_plan() -> Plan {
    let mut volume = sample_decision();
    volume.resource.kind = ResourceKind::Volume;
    volume.resource.id = "vol".to_owned();
    Plan {
        decisions: vec![sample_decision(), volume],
    }
}

/// One removal, one protected keep, one unowned keep, and one removal with no
/// ownership evidence.
fn mixed_plan() -> Plan {
    let mut protected = sample_decision();
    protected.resource.kind = ResourceKind::Volume;
    protected.resource.id = "vol".to_owned();
    protected.resource.name = "keep-me".to_owned();
    protected.disposition = Disposition::Protected;
    protected.action = Action::Keep;
    protected.matched_rule = None;
    protected.reason = "protected by runtime state".to_owned();

    let mut unowned = sample_decision();
    unowned.resource.kind = ResourceKind::Network;
    unowned.resource.id = "net".to_owned();
    unowned.resource.name = "bridge".to_owned();
    unowned.disposition = Disposition::Unowned;
    unowned.action = Action::Keep;
    unowned.matched_rule = None;
    unowned.reason = "no rule matched".to_owned();

    let mut unscoped = sample_decision();
    unscoped.resource.kind = ResourceKind::BuildCache;
    unscoped.resource.id = "cache".to_owned();
    unscoped.resource.name = "build-cache".to_owned();
    unscoped.disposition = Disposition::AuthorizedUnscoped;
    unscoped.reason = "matched build cache; older than 30d".to_owned();

    Plan {
        decisions: vec![sample_decision(), protected, unowned, unscoped],
    }
}

fn loaded() -> LoadedConfig {
    LoadedConfig {
        path: "docker_maid.toml".to_owned(),
        config: Config::default(),
        source: "# test config".to_owned(),
    }
}

fn session(plan: Plan, pane: Pane) -> Session {
    let survey = survey_inventory(
        &plan
            .decisions
            .iter()
            .map(|decision| decision.resource.clone())
            .collect::<Vec<_>>(),
    );
    Session {
        explicit_config: None,
        loaded: loaded(),
        built_in: false,
        plan,
        plan_id: "test-plan".to_owned(),
        created_at: 1,
        config_hash: "test-config".to_owned(),
        validity: PlanValidity::Valid,
        history: Vec::new(),
        pane,
        selected: 0,
        filter: String::new(),
        editor: Editor::Closed,
        detail_open: false,
        overlay: Overlay::Hidden,
        confirm_scroll: 0,
        overlay_scroll: 0,
        pane_scroll: 0,
        survey,
        protection: ProtectionState::empty(),
        observations: ObservationState::empty(),
        chosen: Vec::new(),
        row: 0,
        profile: PolicyProfile::Workstation,
        policy: PolicyProfile::Workstation.settings(),
        field: PolicyField::Containers,
        proposal: None,
        input: String::new(),
        input_kind: ResourceKind::Container,
        status: "ready".to_owned(),
    }
}

fn fingerprint(session: &Session) -> String {
    format!(
        "{:?}|{:?}|{:?}|{}|{}|{}|{}|{}|{}|{}|{:?}|{:?}|{}",
        session.pane,
        session.overlay,
        session.editor,
        session.selected,
        session.filter,
        session.detail_open,
        session.confirm_scroll,
        session.overlay_scroll,
        session.pane_scroll,
        session.row,
        session.field,
        session.profile,
        session.status
    )
}

fn plain(key: Key) -> KeyPress {
    KeyPress {
        key,
        control: false,
        plain: true,
    }
}

fn type_text(session: &mut Session, text: &str) {
    for character in text.chars() {
        assert_eq!(session.press(plain(Key::Char(character))), Effect::Nothing);
    }
}

#[test]
fn fuzzy_filter_matches_subsequences_case_insensitively() {
    assert!(fuzzy_match("Agent-Sandbox-123", "as13"));
    assert!(fuzzy_match("postgres", "PG"));
    assert!(!fuzzy_match("volume", "network"));
}

#[test]
fn every_advertised_key_resolves_to_an_intent_in_its_own_view() {
    for pane in Pane::all() {
        for hint in hints_for(pane, Editor::Closed, Overlay::Hidden) {
            for key in &hint.keys {
                assert!(
                    intent_for(pane, *key).is_some(),
                    "{pane:?} advertises {:?} ({}) but nothing handles it",
                    key,
                    hint.label
                );
            }
        }
    }
}

#[test]
fn every_advertised_key_moves_the_application_when_it_is_pressed() {
    for pane in Pane::all() {
        for hint in hints_for(pane, Editor::Closed, Overlay::Hidden) {
            for key in &hint.keys {
                let mut session = session(fixture_plan(), pane);
                let before = fingerprint(&session);
                let effect = session.press(plain(*key));
                assert!(
                    effect != Effect::Nothing || before != fingerprint(&session),
                    "{pane:?} advertises {:?} ({}) but pressing it changed nothing",
                    key,
                    hint.label
                );
            }
        }
    }
}

#[test]
fn quit_is_advertised_and_really_quits() {
    for pane in Pane::all() {
        assert_eq!(intent_for(pane, Key::Char('q')), Some(Intent::Quit));
        assert_eq!(intent_for(pane, Key::Char('r')), Some(Intent::Refresh));
    }
    assert!(is_global_quit(KeyPress {
        key: Key::Char('c'),
        control: true,
        plain: false,
    }));
}

const PROBE_KEYS: &[Key] = &[
    Key::Char('q'),
    Key::Char('?'),
    Key::Char('1'),
    Key::Char('2'),
    Key::Char('3'),
    Key::Char('l'),
    Key::Char('r'),
    Key::Char('j'),
    Key::Char('k'),
    Key::Char(' '),
    Key::Char('P'),
    Key::Char('c'),
    Key::Char('/'),
    Key::Char('a'),
    Key::Char('e'),
    Key::Char('v'),
    Key::Char('s'),
    Key::Char('['),
    Key::Char(']'),
    Key::Up,
    Key::Down,
    Key::Left,
    Key::Right,
    Key::Enter,
    Key::PageUp,
    Key::PageDown,
];

#[test]
fn every_bound_key_is_written_down_in_the_footer_or_in_help() {
    let documented = help_entries()
        .iter()
        .flat_map(|entry| {
            help_keys(entry)
                .split_whitespace()
                .map(str::to_owned)
                .collect::<Vec<_>>()
        })
        .collect::<Vec<_>>();
    for pane in Pane::all() {
        let footer = hints_for(pane, Editor::Closed, Overlay::Hidden)
            .iter()
            .flat_map(|hint| {
                hint.keys
                    .iter()
                    .map(|key| key_symbol(*key))
                    .collect::<Vec<_>>()
            })
            .collect::<Vec<_>>();
        for key in PROBE_KEYS {
            if intent_for(pane, *key).is_none() {
                continue;
            }
            let symbol = key_symbol(*key);
            assert!(
                footer.contains(&symbol) || documented.contains(&symbol),
                "{pane:?} binds {symbol:?} but neither its footer nor help mentions it"
            );
        }
    }
}

#[test]
fn a_key_with_more_than_one_meaning_is_described_once_per_meaning() {
    for key in PROBE_KEYS {
        let mut meanings = Vec::new();
        for pane in Pane::all() {
            if let Some(intent) = intent_for(pane, *key) {
                if !meanings.contains(&intent) {
                    meanings.push(intent);
                }
            }
        }
        if meanings.len() <= 1 {
            continue;
        }
        let symbol = key_symbol(*key);
        let described = help_entries()
            .iter()
            .filter(|entry| {
                help_keys(entry)
                    .split_whitespace()
                    .any(|token| token == symbol)
            })
            .count();
        assert!(
            described >= meanings.len(),
            "{symbol:?} has {} meanings ({meanings:?}) but only {described} help lines",
            meanings.len()
        );
    }
}

#[test]
fn every_key_table_fits_two_lines_at_the_minimum_width() {
    for pane in Pane::all() {
        let lines = hint_lines(
            &hints_for(pane, Editor::Closed, Overlay::Hidden),
            MIN_WIDTH - 2,
        );
        assert!(
            lines.len() <= 2,
            "{pane:?} needs {} footer lines at {MIN_WIDTH} columns",
            lines.len()
        );
        for line in &lines {
            assert!(line.chars().count() <= usize::from(MIN_WIDTH - 2));
        }
    }
}

#[test]
fn the_footer_packs_hints_in_order() {
    let hints = hints_for(Pane::Review, Editor::Closed, Overlay::Confirm);
    assert_eq!(
        hint_lines(&hints, 80),
        vec!["enter apply · ↑/↓ scroll · esc cancel".to_owned()]
    );
    assert_eq!(
        hint_lines(&hints, 12),
        vec![
            "enter apply".to_owned(),
            "↑/↓ scroll".to_owned(),
            "esc cancel".to_owned()
        ]
    );
}

#[test]
fn an_overlay_never_reaches_outside_the_region_that_holds_it() {
    for width in [60u16, 80, 100, 140, 200] {
        for height in [20u16, 24, 30, 42, 50] {
            let body = Area {
                x: 0,
                y: 2,
                width,
                height: height - 5,
            };
            for (margin_x, margin_y) in [(0, 0), (1, 0), (2, 0), (3, 1), (2, body.height / 4)] {
                let area = overlay_area(body, margin_x, margin_y);
                assert!(area.x >= body.x, "{width}x{height} left of body");
                assert!(area.y >= body.y, "{width}x{height} above body");
                assert!(
                    area.x + area.width <= body.x + body.width,
                    "{width}x{height} overruns the right edge"
                );
                assert!(
                    area.y + area.height <= body.y + body.height,
                    "{width}x{height} overruns the bottom edge"
                );
                assert!(area.width >= 1 && area.height >= 1);
            }
        }
    }
}

#[test]
fn plain_words_replace_the_taxonomy_without_touching_the_machine_strings() {
    assert_eq!(
        plain_disposition(Disposition::Protected),
        "you protected this"
    );
    assert_eq!(plain_disposition(Disposition::Owned), "a rule covers this");
    assert_eq!(
        plain_disposition(Disposition::AuthorizedUnscoped),
        "you authorized this without a rule"
    );
    assert_eq!(
        plain_disposition(Disposition::Unowned),
        "no rule covers this"
    );

    assert_eq!(Disposition::Protected.as_text(), "protected");
    assert_eq!(Disposition::Owned.as_text(), "owned");
    assert_eq!(
        Disposition::AuthorizedUnscoped.as_text(),
        "authorized-unscoped"
    );
    assert_eq!(Disposition::Unowned.as_text(), "unowned");
}

#[test]
fn reasons_are_split_into_the_clauses_the_planner_already_separated() {
    let clauses = reason_clauses("matched agent label agents; state age 3d meets 2h");
    assert_eq!(
        clauses,
        vec![
            "matched agent label agents".to_owned(),
            "state age 3d meets 2h".to_owned()
        ]
    );
    assert_eq!(reason_clauses("no rule matched"), vec!["no rule matched"]);
}

#[test]
fn a_terminal_below_the_minimum_says_so_instead_of_drawing_a_broken_layout() {
    for (width, height) in [(59, 20), (60, 19), (40, 10)] {
        let lines = too_small_lines(width, height).expect("too small").join("\n");
        assert!(lines.contains("too small"), "{width}x{height}");
        assert!(lines.contains("60"), "{width}x{height}");
        assert!(!lines.contains("WOULD REMOVE"), "{width}x{height}");
    }
    assert!(too_small_lines(60, 20).is_none());
}

#[test]
fn a_filter_never_narrows_the_set_a_person_confirms() {
    let mut session = session(mixed_plan(), Pane::Review);
    let all_targets = session.plan_targets().len();
    session.filter = "zzz-matches-nothing".to_owned();
    assert!(session.review_rows().is_empty());
    assert_eq!(session.plan_targets().len(), all_targets);
    let heading = review_heading(0, all_targets, session.plan.decisions.len());
    assert!(heading
        .hidden
        .expect("two are hidden")
        .contains("hidden by the filter"));
    let shown = confirmation_box(&session.plan_targets(), &session.plan_id, 0, 37);
    assert_eq!(
        shown.question,
        format!("Remove these {all_targets} objects?")
    );
    assert_eq!(all_targets, 2, "this fixture must exercise the plural form");
}

#[test]
fn the_confirmation_always_lists_at_least_one_target_it_would_remove() {
    let session = session(mixed_plan(), Pane::Review);
    let shown = confirmation_box(&session.plan_targets(), "id", 0, 3);
    assert_eq!(shown.targets.len(), 1);
    assert_eq!(shown.targets[0], "container  agent-box  [agents]");
    assert_eq!(shown.plan, "Plan: id");
    assert_eq!(
        shown.notice.as_deref(),
        Some("1 of these have no ownership evidence; you authorized them")
    );
    assert_eq!(
        shown.position.as_deref(),
        Some("Showing 1–1 of 2 • ↑↓ or PgUp/PgDn scroll")
    );
    let alone = confirmation_box(&vec![&session.plan.decisions[0]], "id", 0, 30);
    assert_eq!(alone.question, "Remove this 1 object?");
    assert_eq!(alone.position, None);
}

fn finished_pass(actions: usize) -> CompletedPass {
    CompletedPass {
        pass_id: "p".to_owned(),
        source: "tui".to_owned(),
        started_at: 1,
        completed_at: 1_787_013_961,
        config_hash: "h".to_owned(),
        actions: (0..actions)
            .map(|index| ActivityEvent {
                schema_version: 1,
                pass_id: "p".to_owned(),
                source: "tui".to_owned(),
                sequence: index as u64,
                timestamp: 2,
                config_hash: "h".to_owned(),
                data: EventData::Action {
                    action: "removed".to_owned(),
                    resource_kind: "volume".to_owned(),
                    resource_id: "v".to_owned(),
                    resource_name: "data".to_owned(),
                    matched_rule: "volumes".to_owned(),
                    age_seconds: None,
                    freed_bytes: 2048,
                    detail: "removed".to_owned(),
                },
            })
            .collect(),
        rule_match_counts: TextMap::new(),
        removed_count: actions as u64,
        skipped_count: 0,
        failure_count: 0,
        reclaimed_bytes: 2048,
    }
}

#[test]
fn the_activity_log_cannot_scroll_past_its_last_line() {
    let mut session = session(mixed_plan(), Pane::Review);
    session.history = vec![finished_pass(2), finished_pass(1)];
    session.overlay = Overlay::Activity;
    let last = activity_lines(&session.history).len() - 1;
    assert_eq!(usize::from(activity_scroll_end(&session.history)), last);
    for _ in 0..50 {
        session.press(plain(Key::Down));
    }
    assert_eq!(usize::from(session.overlay_scroll), last);

    session.press(plain(Key::Esc));
    assert_eq!(session.overlay, Overlay::Hidden);
}

#[test]
fn the_activity_log_names_passes_and_their_actions() {
    let lines = activity_lines(&vec![finished_pass(1)]);
    assert_eq!(
        lines,
        vec![
            "2026-08-18T00:46:01Z · tui pass · removed 1 · skipped 0 · failed 0 · freed 2.0 KiB"
                .to_owned(),
            "  removed  volume       data · volumes · 2.0 KiB".to_owned(),
        ]
    );
    assert_eq!(
        activity_lines(&Vec::new()),
        vec!["No completed cleanup passes recorded.".to_owned()]
    );
    assert_eq!(
        activity_title(&vec![finished_pass(0)]),
        "Activity log • 1 completed pass"
    );
    assert_eq!(
        activity_title(&Vec::new()),
        "Activity log • 0 completed passes"
    );
    assert_eq!(
        last_pass_text(&vec![finished_pass(3)]).as_deref(),
        Some("· last pass removed 3, freed 2.0 KiB")
    );
    assert_eq!(last_pass_text(&Vec::new()), None);
}

#[test]
fn the_pane_scroll_resets_when_the_pane_changes() {
    let mut session = session(mixed_plan(), Pane::Setup);
    session.press(plain(Key::PageDown));
    assert_ne!(session.pane_scroll, 0);

    session.press(plain(Key::Char('1')));
    assert_eq!(
        session.pane_scroll, 0,
        "a view switch left the next pane scrolled"
    );

    session.pane_scroll = 7;
    session.press(plain(Key::Enter));
    assert_eq!(
        session.pane_scroll, 0,
        "the details pane opened already scrolled"
    );
}

#[test]
fn the_setup_preview_pane_can_be_scrolled() {
    assert_eq!(
        setup_intent(Key::PageDown),
        Some(Intent::ScrollPreview(3))
    );
    assert_eq!(setup_intent(Key::PageUp), Some(Intent::ScrollPreview(-3)));
}

#[test]
fn the_filter_editor_shows_the_filter_and_not_a_stale_buffer() {
    let mut session = session(mixed_plan(), Pane::Keeping);
    session.input = "left-over-prefix".to_owned();
    session.filter = "agent".to_owned();
    session.editor = Editor::Filter;
    let shown = session.editor_box().expect("an editor");
    assert_eq!(shown.title, "Narrow this list");
    assert_eq!(shown.value, "agent");
    assert_eq!(session.footer_status(), "/agent▌");
}

#[test]
fn policy_editor_is_visible_in_an_eighty_column_terminal() {
    let mut session = session(mixed_plan(), Pane::Setup);
    session.built_in = true;
    session.start_policy_editor();
    let shown = session.editor_box().expect("an editor");
    assert_eq!(shown.title, "Edit policy value");
    assert_eq!(shown.value, "2h");
    assert!(!shown.message.is_empty());

    session.input = "not-a-duration".to_owned();
    session.press(plain(Key::Enter));
    assert_eq!(session.editor, Editor::Policy);
    assert_eq!(session.policy.stopped_container_ttl, "2h");
    assert!(session.status.starts_with("Invalid value:"));
    let shown = session.editor_box().expect("still editing");
    assert!(shown.message.starts_with("Invalid value:"));

    session.input = " 3h ".to_owned();
    session.press(plain(Key::Enter));
    assert_eq!(session.editor, Editor::Closed);
    assert_eq!(session.policy.stopped_container_ttl, "3h");
    assert_eq!(session.status, "Updated stopped containers to 3h");
}

#[test]
fn the_family_action_writes_one_typed_label_entry_and_toggles_it() {
    let mut session = session(fixture_plan(), Pane::Review);
    assert_eq!(session.press(plain(Key::Char('P'))), Effect::ToggleFamily);
    let stored = ProtectionState::empty();
    assert_eq!(
        session.family_change(&stored),
        Change::Add {
            kind: ProtectionKind::Label,
            value: "ai-agent.owner=test".to_owned(),
            words: "Protected family: label ai-agent.owner=test (2 objects)".to_owned(),
        }
    );
    let held = ProtectionState {
        schema_version: 1,
        entries: vec![ProtectionEntry {
            kind: ProtectionKind::Label,
            value: "ai-agent.owner=test".to_owned(),
        }],
    };
    assert!(matches!(
        session.family_change(&held),
        Change::Remove {
            kind: ProtectionKind::Label,
            ..
        }
    ));

    session.plan.decisions[0].resource.labels.clear();
    assert_eq!(session.press(plain(Key::Char('P'))), Effect::Nothing);
    assert!(session
        .status
        .contains("carries no Compose or agent family label"));
}

#[test]
fn protection_is_toggled_by_id_and_never_for_build_cache() {
    let mut session = session(mixed_plan(), Pane::Review);
    assert_eq!(
        session.press(plain(Key::Char(' '))),
        Effect::ToggleProtection
    );
    assert_eq!(
        session.protection_change(&ProtectionState::empty()),
        Change::Add {
            kind: ProtectionKind::Container,
            value: "abc".to_owned(),
            words: "Protected: container agent-box".to_owned(),
        }
    );
    let held = ProtectionState {
        schema_version: 1,
        entries: vec![ProtectionEntry {
            kind: ProtectionKind::Container,
            value: "^agent-".to_owned(),
        }],
    };
    assert_eq!(
        session.protection_change(&held),
        Change::Remove {
            kind: ProtectionKind::Container,
            value: "^agent-".to_owned(),
            words: "Removed protection: container ^agent-".to_owned(),
        }
    );

    session.press(plain(Key::Down));
    assert_eq!(session.selected, 1);
    assert_eq!(session.press(plain(Key::Char(' '))), Effect::Nothing);
    assert!(session.status.starts_with("Build-cache records cannot"));

    session.press(plain(Key::Char('2')));
    assert!(matches!(
        session.protection_change(&ProtectionState::empty()),
        Change::Stay { .. }
    ));
}

#[test]
fn family_protection_targets_the_whole_family_and_never_build_cache() {
    let mut volume = sample_decision();
    volume.resource.kind = ResourceKind::Volume;
    volume.resource.id = "vol".to_owned();
    let mut other = sample_decision();
    other.resource.kind = ResourceKind::Network;
    other.resource.id = "net".to_owned();
    other
        .resource
        .labels
        .insert("ai-agent.owner".to_owned(), "different".to_owned());
    let mut cache = sample_decision();
    cache.resource.kind = ResourceKind::BuildCache;
    cache.resource.id = "cache".to_owned();
    cache.resource.labels.clear();

    let plan = Plan {
        decisions: vec![sample_decision(), volume, other, cache],
    };
    let (key, value) = family_label(&plan.decisions[0].resource).expect("family label");
    let (pair, members) = family_protection_target(&plan, key, value);
    assert_eq!(pair, "ai-agent.owner=test");
    assert_eq!(members, 2);
}

#[test]
fn a_compose_project_is_the_family_before_an_agent_label() {
    let mut decision = sample_decision();
    decision
        .resource
        .labels
        .insert("com.docker.compose.project".to_owned(), "web".to_owned());
    assert_eq!(
        family_label(&decision.resource),
        Some(("com.docker.compose.project", "web"))
    );
    decision
        .resource
        .labels
        .insert("com.docker.compose.project".to_owned(), " ".to_owned());
    assert_eq!(
        family_label(&decision.resource),
        Some(("ai-agent.owner", "test"))
    );
}

#[test]
fn build_cache_has_no_typed_protection_kind() {
    assert_eq!(protection_kind(ResourceKind::BuildCache), None);
    assert_eq!(
        protection_kind(ResourceKind::Container),
        Some(ProtectionKind::Container)
    );
}

#[test]
fn editable_cache_budget_accepts_binary_suffixes_and_rejects_garbage() {
    assert_eq!(
        parse_byte_budget("10GiB").expect("budget"),
        10 * 1024u64.pow(3)
    );
    assert_eq!(parse_byte_budget("500 MB").expect("budget"), 500_000_000);
    assert!(parse_byte_budget("many").is_err());
}

#[test]
fn budgets_take_every_suffix_and_no_more_than_fits() {
    for (text, bytes) in [
        ("7", 7),
        ("+7", 7),
        ("1_000", 1_000),
        (" 3 KiB ", 3 * 1024),
        ("2mib", 2 * 1024 * 1024),
        ("2gb", 2_000_000_000),
        ("9kb", 9_000),
    ] {
        assert_eq!(parse_byte_budget(text).expect("budget"), bytes, "{text}");
    }
    let garbage = parse_byte_budget("many").expect_err("no number").message();
    assert!(garbage.starts_with("byte budget \"many\" is invalid; use bytes or a suffix"));
    let large = parse_byte_budget("99999999999GiB")
        .expect_err("too large")
        .message();
    assert_eq!(large, "byte budget \"99999999999GiB\" is too large");
    assert!(parse_byte_budget("").is_err());
    assert!(parse_byte_budget("18446744073709551616").is_err());
}

#[test]
fn configure_navigation_uses_display_order_but_stores_canonical_indexes() {
    let agent = sample_decision().resource;
    let mut compose = agent.clone();
    compose.id = "compose".to_owned();
    compose.name = "project-web".to_owned();
    compose.search_names = vec![compose.name.clone()];
    compose.labels = Labels::from_pairs(vec![(
        "com.docker.compose.project".to_owned(),
        "project".to_owned(),
    )]);
    let mut cache = agent.clone();
    cache.kind = ResourceKind::BuildCache;
    cache.id = "cache".to_owned();
    cache.name = "cache".to_owned();
    cache.search_names = vec![cache.name.clone()];
    cache.labels.clear();
    cache.state = ResourceState::Available;
    let survey = survey_inventory(&vec![compose, agent, cache]);

    assert!(survey.candidates[0].id.starts_with("agent-label/"));
    assert_eq!(survey.candidates[1].id, "build-cache");
    assert!(survey.candidates[2].id.starts_with("compose/"));
    assert_eq!(first_configure_row(&survey), 0);
    assert_eq!(move_configure_row(&survey, 0, 1), 2);
    assert_eq!(move_configure_row(&survey, 2, 1), 1);
    assert_eq!(move_configure_row(&survey, 1, -1), 2);
}

#[test]
fn resource_detail_exposes_policy_reason_and_labels() {
    let decision = sample_decision();
    let detail = resource_detail(&decision);
    assert!(detail.contains("matched agent label"));
    assert!(detail.contains("ai-agent.owner=test"));
    assert!(detail.contains("agents"));
    assert!(detail.contains("workspace → /workspace"));
    assert!(detail.contains("a rule covers this"));
}

#[test]
fn no_pane_shows_a_person_a_raw_epoch_or_a_rust_boolean() {
    assert_eq!(format_timestamp(1_787_013_961), "2026-08-18T00:46:01Z");
    assert_eq!(format_timestamp(-1), "unknown time");
    assert_eq!(yes_no(true), "yes");
    assert_eq!(yes_no(false), "no");

    let detail = resource_detail(&sample_decision());
    assert!(detail.contains("In use: no"));
    assert!(detail.contains("Dangling: no"));
    assert!(
        !detail.contains("false"),
        "a Rust boolean reached the screen"
    );
    assert!(
        !detail.contains("true"),
        "a Rust boolean reached the screen"
    );
}

#[test]
fn plan_identity_is_stable_and_binds_the_exact_target_set() {
    let plan = Plan {
        decisions: vec![sample_decision()],
    };
    let identity = tui_plan_id("config", 100, &plan);
    assert_eq!(identity, tui_plan_id("config", 100, &plan));

    let empty = Plan {
        decisions: Vec::new(),
    };
    assert_ne!(identity, tui_plan_id("config", 100, &empty));
    assert_ne!(identity, tui_plan_id("other-config", 100, &plan));

    let mut kept = sample_decision();
    kept.action = Action::Keep;
    let with_kept = Plan {
        decisions: vec![sample_decision(), kept],
    };
    assert_eq!(identity, tui_plan_id("config", 100, &with_kept));
}

#[test]
fn changed_configuration_invalidates_confirmation_before_docker_or_journal() {
    let mut session = session(
        Plan {
            decisions: vec![sample_decision()],
        },
        Pane::Review,
    );
    assert_eq!(session.begin_apply(), ApplyStep::ReadConfiguration);
    assert!(session.authorize(Ok((loaded(), false))));
    assert_eq!(session.validity, PlanValidity::Valid);

    let mut changed = loaded();
    changed.source.push_str("# changed\n");
    assert!(!session.authorize(Ok((changed, false))));
    assert_eq!(session.validity, PlanValidity::Stale);
    assert!(session.status.contains("Configuration changed"));
    assert_eq!(session.begin_apply(), ApplyStep::Stop);
    assert!(session.status.starts_with("Plan is stale"));
}

#[test]
fn a_plan_is_not_applied_without_its_configuration() {
    let mut gone = session(fixture_plan(), Pane::Review);
    assert!(!gone.authorize(Ok((loaded(), true))));
    assert!(gone.status.starts_with("Configuration disappeared"));
    let mut broken = session(fixture_plan(), Pane::Review);
    assert!(!broken.authorize(Err("bad key".to_owned())));
    assert_eq!(
        broken.status,
        "Configuration cannot authorize this plan: bad key"
    );
    let mut changed = session(fixture_plan(), Pane::Review);
    let mut other = loaded();
    other.config.defaults.interval = Some("5m".to_owned());
    assert!(!changed.authorize(Ok((other, false))));
    let mut safe = session(fixture_plan(), Pane::Review);
    safe.built_in = true;
    assert!(matches!(safe.begin_apply(), ApplyStep::Fail(_)));
    let mut empty = session(
        Plan {
            decisions: Vec::new(),
        },
        Pane::Review,
    );
    assert_eq!(empty.begin_apply(), ApplyStep::Stop);
    assert_eq!(empty.status, "Nothing would be removed");
}

#[test]
fn only_enter_in_the_confirmation_applies() {
    let mut session = session(mixed_plan(), Pane::Review);
    assert_eq!(session.press(plain(Key::Char('a'))), Effect::Nothing);
    assert_eq!(session.overlay, Overlay::Confirm);
    session.press(plain(Key::PageDown));
    assert_eq!(session.confirm_scroll, 1);
    session.press(plain(Key::PageUp));
    assert_eq!(session.confirm_scroll, 0);
    assert_eq!(session.press(plain(Key::Char('n'))), Effect::Nothing);
    assert_eq!(session.overlay, Overlay::Hidden);
    assert_eq!(session.status, "Apply cancelled");
    session.press(plain(Key::Char('a')));
    assert_eq!(session.press(plain(Key::Enter)), Effect::Apply);
    assert_eq!(session.overlay, Overlay::Hidden);

    session.validity = PlanValidity::Stale;
    session.press(plain(Key::Char('a')));
    assert_eq!(session.overlay, Overlay::Hidden);
}

#[test]
fn typing_a_filter_narrows_the_rows_and_escape_clears_it() {
    let mut session = session(mixed_plan(), Pane::Keeping);
    session.press(plain(Key::Char('/')));
    type_text(&mut session, "KEEQ");
    session.press(plain(Key::Backspace));
    assert_eq!(session.filter, "KEE");
    assert_eq!(session.keeping_rows().len(), 1);
    session.press(plain(Key::Enter));
    assert_eq!(session.status, "Showing names matching \"KEE\"");
    session.press(plain(Key::Char('/')));
    session.press(KeyPress {
        key: Key::Char('x'),
        control: false,
        plain: false,
    });
    assert_eq!(session.filter, "KEE");
    session.press(plain(Key::Esc));
    assert_eq!(session.filter, "");
    assert_eq!(session.keeping_rows().len(), 2);
}

#[test]
fn a_prefix_is_approved_from_the_selected_resource() {
    let mut session = session(fixture_plan(), Pane::Review);
    assert_eq!(session.press(plain(Key::Char('c'))), Effect::Nothing);
    assert_eq!(session.editor, Editor::Prefix);
    assert_eq!(session.input, "agent-box");
    for _ in 0..3 {
        session.press(plain(Key::Backspace));
    }
    assert_eq!(session.press(plain(Key::Enter)), Effect::Nothing);
    assert_eq!(session.pane, Pane::Setup);
    let chosen = session.chosen[0].clone();
    assert!(chosen.starts_with("name-prefix/container/agent"));
    assert_eq!(session.survey.candidates[session.row].id, chosen);

    session.press(plain(Key::Char('1')));
    session.press(plain(Key::Char('c')));
    type_text(&mut session, "-none");
    assert!(matches!(session.press(plain(Key::Enter)), Effect::Fail(_)));
}

#[test]
fn families_are_used_and_dropped_and_the_build_cache_is_asked_about() {
    let mut session = session(mixed_plan(), Pane::Setup);
    let id = session.survey.candidates[session.row].id.clone();
    session.press(plain(Key::Char(' ')));
    assert_eq!(session.chosen, vec![id.clone()]);
    session.press(plain(Key::Char(' ')));
    assert!(session.chosen.is_empty());
    assert_eq!(session.status, format!("Excluded candidate {id}"));

    while session.survey.candidates[session.row].id != "build-cache" {
        session.press(plain(Key::Down));
    }
    session.press(plain(Key::Char(' ')));
    assert_eq!(session.overlay, Overlay::CacheConfirm);
    session.press(plain(Key::Esc));
    assert!(session.chosen.is_empty());
    session.press(plain(Key::Char(' ')));
    session.press(plain(Key::Char('y')));
    assert_eq!(session.chosen, vec!["build-cache".to_owned()]);
    assert_eq!(session.overlay, Overlay::Hidden);
}

#[test]
fn profiles_and_fields_stop_at_their_ends() {
    let mut session = session(mixed_plan(), Pane::Setup);
    session.press(plain(Key::Right));
    session.press(plain(Key::Right));
    assert_eq!(session.profile, PolicyProfile::EphemeralCi);
    assert_eq!(session.policy.stopped_container_ttl, "15m");
    for _ in 0..9 {
        session.press(plain(Key::Char(']')));
    }
    assert_eq!(session.field, PolicyField::CacheBytes);
    session.press(plain(Key::Char('e')));
    assert_eq!(session.input, "5368709120");
    session.input = "1GiB".to_owned();
    session.press(plain(Key::Enter));
    assert_eq!(session.policy.build_cache_max_bytes, 1024 * 1024 * 1024);
}

#[test]
fn a_proposal_is_previewed_before_it_is_saved() {
    let mut session = session(mixed_plan(), Pane::Setup);
    assert_eq!(session.press(plain(Key::Char('v'))), Effect::Preview);
    assert_eq!(session.press(plain(Key::Char('s'))), Effect::Nothing);
    assert_eq!(session.status, "Preview the proposal with v before saving");
    session.proposal_blocked("none");
    assert_eq!(session.status, "Proposal blocked: none");
    session.save_blocked("stale");
    assert!(session.status.starts_with("Save blocked;"));
    session.overlay = Overlay::ConfigSave;
    assert_eq!(session.press(plain(Key::Char('y'))), Effect::Save);
    session.config_written("new.toml");
    session.saved("new.toml");
    assert_eq!(session.explicit_config.as_deref(), Some("new.toml"));
    assert_eq!(session.pane, Pane::Review);
    assert_eq!(
        save_confirmation(&None),
        "No proposal is available."
    );
}

fn stopped(id: &str) -> InventoryItem {
    let mut item = sample_decision().resource;
    item.id = id.to_owned();
    item
}

#[test]
fn a_dashboard_opens_on_what_was_read() {
    let opened = Session::open(Opening {
        explicit_config: None,
        loaded: loaded(),
        built_in: false,
        protection: ProtectionState::empty(),
        history: Vec::new(),
        created_at: 10_000,
        docker: Ok((vec![stopped("abc")], ObservationState::empty())),
    })
    .expect("open");
    assert_eq!(opened.pane, Pane::Review);
    assert_eq!(opened.validity, PlanValidity::Valid);
    assert_eq!(opened.plan.decisions.len(), 1);
    assert_eq!(
        opened.status,
        "Loaded docker_maid.toml • 0 would be removed"
    );
    assert_eq!(opened.survey.candidates.len(), 1);
    assert_eq!(opened.refresh_interval(), (300, 0));
    assert!(opened.may_refresh());
}

#[test]
fn without_docker_the_dashboard_opens_stale_and_empty() {
    let mut built_in = loaded();
    built_in.config.tui.refresh = Some("90s".to_owned());
    let opened = Session::open(Opening {
        explicit_config: None,
        loaded: built_in,
        built_in: true,
        protection: ProtectionState::empty(),
        history: Vec::new(),
        created_at: 10_000,
        docker: Err("connection refused".to_owned()),
    })
    .expect("open");
    assert_eq!(opened.pane, Pane::Setup);
    assert_eq!(opened.validity, PlanValidity::Stale);
    assert!(opened.plan.decisions.is_empty());
    assert_eq!(
        opened.status,
        "Docker unavailable: connection refused • fix the endpoint and press r"
    );
    assert_eq!(opened.refresh_interval(), (90, 0));
}

#[test]
fn reading_anew_replaces_the_plan_and_keeps_the_place() {
    let mut session = session(fixture_plan(), Pane::Review);
    session.selected = 9;
    session.chosen = vec!["compose/gone".to_owned()];
    session.refresh_failed("timeout", true);
    assert_eq!(session.validity, PlanValidity::Stale);
    assert_eq!(session.status, "Refresh failed: timeout");
    session
        .refresh(Reading {
            loaded: loaded(),
            built_in: false,
            protection: ProtectionState::empty(),
            inventory: vec![stopped("abc"), stopped("def")],
            observations: ObservationState::empty(),
            history: vec![finished_pass(1)],
            created_at: 20_000,
        })
        .expect("refresh");
    assert_eq!(session.validity, PlanValidity::Valid);
    assert_eq!(session.plan.decisions.len(), 2);
    assert_eq!(session.selected, 0);
    assert!(session.chosen.is_empty());
    assert_eq!(session.status, "Refreshed: 0 would be removed, 2 kept");
    session.note_activity(vec![finished_pass(1)]);
    assert_eq!(session.status, "Refreshed: 0 would be removed, 2 kept");
    session.note_activity(vec![finished_pass(2)]);
    assert_eq!(session.status, "Activity log updated");
}

#[test]
fn a_configuration_that_makes_no_plan_changes_nothing() {
    let mut broken = loaded();
    broken.config.protect.names = vec!["(".to_owned()];
    let mut session = session(fixture_plan(), Pane::Review);
    let before = fingerprint(&session);
    let error = session
        .refresh(Reading {
            loaded: broken,
            built_in: false,
            protection: ProtectionState::empty(),
            inventory: Vec::new(),
            observations: ObservationState::empty(),
            history: Vec::new(),
            created_at: 20_000,
        })
        .expect_err("no plan");
    assert!(error.starts_with("cannot refresh TUI snapshot: "));
    assert_eq!(before, fingerprint(&session));
}

#[test]
fn values_are_written_for_a_person() {
    assert_eq!(format_bytes(0), "0 B");
    assert_eq!(format_bytes(1023), "1023 B");
    assert_eq!(format_bytes(1536), "1.5 KiB");
    assert_eq!(format_bytes(10 * 1024 * 1024 * 1024), "10.0 GiB");
    assert_eq!(format_bytes(u64::MAX), "16777215.9 TiB");
    assert_eq!(format_age(None), "unknown");
    assert_eq!(format_age(Some(30)), "30s");
    assert_eq!(format_age(Some(7_200)), "2h");
    assert_eq!(format_age(Some(259_200)), "3d");
    assert_eq!(truncate("abcdef", 4), "abc…");
    assert_eq!(truncate("abcd", 4), "abcd");
    assert_eq!(visible_input_tail("abcdef", 4), "…def");
    assert_eq!(visible_input_tail("abcd", 4), "abcd");
    assert_eq!(move_scroll(3, -10), 0);
    assert_eq!(move_scroll(u16::MAX, 10), u16::MAX);
    assert_eq!(move_scroll(3, 10), 13);
}

#[test]
fn rows_say_what_a_resource_is_and_why() {
    let plan = mixed_plan();
    let removal = removal_entry(&plan.decisions[3]);
    assert_eq!(removal.kind, "build-cache  ");
    assert_eq!(removal.name, "build-cache");
    assert_eq!(
        removal.lines,
        vec![
            "     1m old · 1.0 KiB".to_owned(),
            "     why:  matched build cache".to_owned(),
            "           older than 30d".to_owned(),
        ]
    );
    assert_eq!(
        removal.notice.as_deref(),
        Some("     you authorized this without a rule")
    );
    let keeping = keeping_entry(&plan.decisions[1], true);
    assert_eq!(keeping.name.chars().count(), 28);
    assert_eq!(keeping.status, "you protected this");
    assert_eq!(keeping.lines[0], "     stopped · 1.0 KiB");
    assert!(keeping_entry(&plan.decisions[1], false).lines.is_empty());
    assert_eq!(header_text(&plan), " · 2 to remove · 2.0 KiB reclaimable");
}

#[test]
fn the_setup_pane_describes_family_and_policy() {
    let session = session(mixed_plan(), Pane::Setup);
    let head = setup_header(
        session.profile,
        &session.policy,
        0,
        session.survey.candidates.len(),
        false,
        session.field,
    );
    assert!(head.starts_with("Profile: Workstation [←→] • keep for c=2h i=24h v=48h"));
    assert!(head.ends_with("Choose what this policy owns • [stopped containers] field, e edits"));
    let detail = setup_detail(&None, session.selected_candidate());
    assert!(detail.contains("\n• container agent-box\n"));
    assert_eq!(setup_detail(&None, None), NO_FAMILY);
    let question = cache_confirmation(3, PolicyProfile::SharedHost);
    assert!(question.contains("over 3 current cache records"));
    assert!(question.contains("The Shared Host profile"));
}

#[test]
fn fields_are_written_and_read_back() {
    let mut policy = PolicyProfile::SharedHost.settings();
    for field in PolicyField::all() {
        assert!(set_policy_field(field, &mut policy, "").is_err());
        set_policy_field(field, &mut policy, "12").expect("a value");
        assert_eq!(policy_field_value(field, &policy), "12");
    }
}

#[test]
fn an_execution_is_summed_up_in_one_line() {
    let report = ExecutionReport {
        outcomes: Vec::new(),
    };
    assert_eq!(
        execution_status(&report),
        "Done: removed 0, skipped 0, failed 0"
    );
}

#[test]
fn the_help_lists_every_entry_between_its_frame() {
    let lines = help_lines();
    assert_eq!(lines.len(), help_entries().len() + 4);
    assert_eq!(lines[0], "docker_maid keyboard help");
    assert_eq!(lines[2], "1 2 3       Review, Keeping, Setup");
}

#[test]
fn the_review_counts_what_the_filter_hides() {
    let mut session = session(mixed_plan(), Pane::Review);
    let targets = session.plan_targets().len();
    let total = session.plan.decisions.len();
    let open = review_heading(session.review_rows().len(), targets, total);
    assert_eq!(open.heading, "WOULD REMOVE  (2)");
    assert_eq!(open.hidden, None);
    assert_eq!(open.kept, "KEEPING  (2)                    press 2 to see");

    session.filter = "zzz-matches-nothing".to_owned();
    let filtered = review_heading(
        session.review_rows().len(),
        session.plan_targets().len(),
        total,
    );
    assert_eq!(filtered.heading, "WOULD REMOVE  (0)");
    assert_eq!(
        filtered.hidden.as_deref(),
        Some("   2 more hidden by the filter")
    );
    assert_eq!(filtered.kept, open.kept);
}

#[test]
fn releasing_a_resource_names_its_own_kind() {
    let session = session(mixed_plan(), Pane::Review);
    let held = ProtectionState {
        schema_version: 1,
        entries: vec![ProtectionEntry {
            kind: ProtectionKind::Label,
            value: "ai-agent.owner=test".to_owned(),
        }],
    };
    assert_eq!(
        session.protection_change(&held),
        Change::Remove {
            kind: ProtectionKind::Container,
            value: "ai-agent.owner=test".to_owned(),
            words: "Removed protection: container ai-agent.owner=test".to_owned(),
        }
    );
}
