//! The inventory, the reports of the commands and the machine documents.

use docker_maid::activity::{ActivityEvent, ActivityJournal, CompletedPass, EventData};
use docker_maid::command::{
    policy_warning, protection_message, refuse_config_sourced_unprotect, render_status,
    CACHE_NOTICE,
};
use docker_maid::config::{
    accept_config, BuildCacheRule, CommonRule, Config, ConfigError, ContainerRule, LoadedConfig,
    RuleScope, Selectors, VolumeRule,
};
use docker_maid::configurator::ConfiguratorError;
use docker_maid::duration::{read_duration, DURATION_OVERFLOW};
use docker_maid::executor::{revalidate, ExecutionReport, TargetOutcome, TargetStatus};
use docker_maid::inventory::{
    assemble_inventory, needs_container_state, state_snapshot, ContainerRecord,
    ContainerStateSnapshot, ImageRecord, InspectRecord, InventoryError, NetworkRecord,
    VolumeRecord,
};
use docker_maid::journal::count_lines;
use docker_maid::machine::{
    config_document, daemon_pass_result_events, daemon_pass_started_event, protection_document,
    version_document, warning_document, DaemonFields,
};
use docker_maid::observation::{ObservationEntry, ObservationState, ObservedKind};
use docker_maid::plan::{
    build_plan, build_plan_with_context, build_plan_with_protection, Action, Decision,
    Disposition, InventoryItem, Plan, PlanContext, ResourceKind, ResourceState,
};
use docker_maid::session::dashboard_config;
use docker_maid::spawn::{image_failure, spawn_outcome, SpawnError};
use docker_maid::state::{ProtectionEntry, ProtectionKind, ProtectionState, StatePaths};
use docker_maid::text_map::{Labels, TextMap};

fn container(id: Option<&str>, name: &str) -> ContainerRecord {
    ContainerRecord {
        id: id.map(str::to_owned),
        names: vec![format!("/{name}")],
        image_id: Some("sha256:used".to_owned()),
        volumes: vec!["data".to_owned()],
        networks: vec!["front".to_owned()],
        labels: Labels::new(),
        state: Some("running".to_owned()),
        created: Some(10),
        size_root_fs: Some(-1),
    }
}

fn image(id: &str, tags: &[&str]) -> ImageRecord {
    ImageRecord {
        id: id.to_owned(),
        repo_tags: tags.iter().map(|tag| (*tag).to_owned()).collect(),
        labels: Labels::new(),
        created: 20,
        size: 30,
    }
}

fn volume(name: &str) -> VolumeRecord {
    VolumeRecord {
        name: name.to_owned(),
        labels: Labels::new(),
        created_at: Some("1970-01-01T00:00:05Z".to_owned()),
        size: Some(7),
    }
}

fn network(id: Option<&str>, name: &str) -> NetworkRecord {
    NetworkRecord {
        id: id.map(str::to_owned),
        name: Some(name.to_owned()),
        labels: Labels::new(),
        created: None,
        ingress: None,
        config_only: None,
    }
}

#[test]
fn an_inventory_marks_what_containers_use() {
    let items = assemble_inventory(
        &vec![container(Some("c1"), "web")],
        &vec![
            image("sha256:used", &["app:2", "app:1", "app:1"]),
            image("sha256:0123456789abcdef", &["<none>:<none>"]),
        ],
        &vec![volume("spare"), volume("data")],
        &vec![network(Some("n2"), "front"), network(Some("n1"), "bridge")],
        &TextMap::new(),
        false,
    )
    .expect("an inventory");
    let rows = items
        .iter()
        .map(|item| (item.kind, item.name.as_str(), item.referenced))
        .collect::<Vec<_>>();
    assert_eq!(
        rows,
        [
            (ResourceKind::Container, "web", false),
            (ResourceKind::Image, "0123456789ab", false),
            (ResourceKind::Image, "app:1", true),
            (ResourceKind::Volume, "data", true),
            (ResourceKind::Volume, "spare", false),
            (ResourceKind::Network, "bridge", false),
            (ResourceKind::Network, "front", true),
        ]
    );
    assert_eq!(items[0].state, ResourceState::Running);
    assert_eq!(items[0].size, None);
    assert!(items[1].dangling);
    assert_eq!(items[2].search_names, ["app:1", "app:2", "sha256:used"]);
    assert_eq!(items[3].created_at, Some(5));
    assert!(items[5].system);
    assert!(!items[6].system);
}

#[test]
fn a_container_that_has_gone_still_holds_what_it_used() {
    let items = assemble_inventory(
        &vec![container(Some("c1"), "web")],
        &Vec::new(),
        &vec![volume("data")],
        &Vec::new(),
        &TextMap::new(),
        true,
    )
    .expect("an inventory");
    assert_eq!(items.len(), 1);
    assert_eq!(items[0].kind, ResourceKind::Volume);
    assert!(items[0].referenced);
}

#[test]
fn an_inspected_state_replaces_the_listed_one() {
    let mut snapshots: TextMap<ContainerStateSnapshot> = TextMap::new();
    snapshots.insert(
        "c1".to_owned(),
        state_snapshot(&InspectRecord {
            status: Some("exited".to_owned()),
            started_at: Some("1970-01-01T00:00:01Z".to_owned()),
            finished_at: Some("1970-01-01T00:00:09Z".to_owned()),
        }),
    );
    let items = assemble_inventory(
        &vec![container(Some("c1"), "web")],
        &Vec::new(),
        &Vec::new(),
        &Vec::new(),
        &snapshots,
        true,
    )
    .expect("an inventory");
    assert_eq!(items[0].state, ResourceState::Stopped);
    assert_eq!(items[0].state_since, Some(9));

    let running = state_snapshot(&InspectRecord {
        status: Some("paused".to_owned()),
        started_at: Some("1970-01-01T00:00:01Z".to_owned()),
        finished_at: None,
    });
    assert_eq!((running.state.as_str(), running.since), ("paused", Some(1)));
    let unknown = state_snapshot(&InspectRecord {
        status: None,
        started_at: Some("1970-01-01T00:00:01Z".to_owned()),
        finished_at: None,
    });
    assert_eq!((unknown.state.as_str(), unknown.since), ("unknown", None));
}

#[test]
fn an_entry_without_an_id_makes_no_inventory() {
    let nameless = assemble_inventory(
        &vec![container(None, "web")],
        &Vec::new(),
        &Vec::new(),
        &vec![network(None, "front")],
        &TextMap::new(),
        false,
    );
    assert_eq!(
        nameless,
        Err(InventoryError::InvalidData(
            "container list entry has no ID".to_owned()
        ))
    );
    let unattached = assemble_inventory(
        &Vec::new(),
        &Vec::new(),
        &Vec::new(),
        &vec![network(None, "front")],
        &TextMap::new(),
        false,
    );
    let error = unattached.expect_err("a network needs an id");
    assert_eq!(
        error.message(),
        "invalid Docker response: network list entry has no ID"
    );
    let refused = InventoryError::Docker {
        operation: "image list".to_owned(),
        message: "no answer".to_owned(),
    };
    assert_eq!(refused.message(), "Docker image list failed: no answer");
}

fn selecting(name: &str, pattern: &str) -> CommonRule {
    CommonRule {
        id: None,
        name: name.to_owned(),
        description: None,
        select: Selectors {
            labels: Vec::new(),
            names: vec![pattern.to_owned()],
            name_parts: Vec::new(),
        },
        scope: RuleScope::Owned,
        allow_unscoped: false,
    }
}

fn with_volumes(orphan_for: &str) -> Config {
    let mut config = Config::default();
    config.rules.volumes.push(VolumeRule {
        common: selecting("spare", "^spare"),
        orphan_for: Some(orphan_for.to_owned()),
    });
    config
}

#[test]
fn only_an_age_rule_on_containers_needs_their_state() {
    let mut config = with_volumes("1h");
    assert!(!needs_container_state(&config));
    config.rules.containers.push(ContainerRule {
        common: selecting("web", "^web"),
        stopped_ttl: None,
        running_ttl: None,
    });
    assert!(!needs_container_state(&config));
    config.rules.containers[0].running_ttl = Some("1h".to_owned());
    assert!(needs_container_state(&config));
}

fn item(kind: ResourceKind, name: &str) -> InventoryItem {
    InventoryItem {
        kind,
        id: name.to_owned(),
        name: name.to_owned(),
        search_names: vec![name.to_owned()],
        parent_ids: Vec::new(),
        labels: Labels::new(),
        mounts: Vec::new(),
        state: ResourceState::Available,
        created_at: Some(1),
        state_since: None,
        size: Some(4),
        referenced: false,
        dangling: false,
        system: false,
    }
}

fn observed(name: &str) -> ObservationState {
    ObservationState {
        schema_version: 1,
        entries: vec![ObservationEntry {
            kind: ObservedKind::Volume,
            id: name.to_owned(),
            created_at: Some(1),
            first_unreferenced_at: 10,
        }],
    }
}

fn protecting(name: &str) -> ProtectionState {
    ProtectionState {
        schema_version: 1,
        entries: vec![ProtectionEntry {
            kind: ProtectionKind::Volume,
            value: name.to_owned(),
        }],
    }
}

#[test]
fn a_policy_without_rules_removes_nothing_at_all() {
    let plan = build_plan(
        &Config::default(),
        vec![
            item(ResourceKind::Container, "web"),
            item(ResourceKind::Volume, "spare"),
            item(ResourceKind::BuildCache, "layer"),
        ],
        1_000_000,
    )
    .expect("a plan");
    assert_eq!(plan.decisions.len(), 3);
    assert!(!plan.has_pending_removals());
}

#[test]
fn runtime_protection_alone_keeps_a_resource() {
    let config = with_volumes("1s");
    let plan = build_plan_with_protection(
        &config,
        vec![item(ResourceKind::Volume, "spare")],
        100,
        &protecting("spare"),
    )
    .expect("a plan");
    assert_eq!(plan.decisions[0].disposition, Disposition::Protected);
    assert_eq!(
        plan.decisions[0].reason,
        "matched runtime protection volume spare"
    );
    let unmeasured = build_plan_with_protection(
        &config,
        vec![item(ResourceKind::Volume, "spare")],
        100,
        &ProtectionState::empty(),
    )
    .expect("a plan");
    assert_eq!(unmeasured.decisions[0].action, Action::Keep);
}

#[test]
fn a_target_is_confirmed_only_against_the_same_configuration() {
    let config = with_volumes("1s");
    let source = "source".to_owned();
    let observations = observed("spare");
    let nothing = ProtectionState::empty();
    let context = PlanContext {
        protection: &nothing,
        observations: &observations,
    };
    let inventory = || vec![item(ResourceKind::Volume, "spare")];
    let plan = build_plan_with_context(&config, inventory(), 100, &context).expect("a plan");
    let target = plan.decisions[0].clone();
    assert_eq!(target.action, Action::Remove);

    let loaded = |text: &str| LoadedConfig {
        path: "config.toml".to_owned(),
        config: with_volumes("1s"),
        source: text.to_owned(),
    };
    let confirmed = revalidate(
        &config,
        &source,
        &target,
        &loaded("source"),
        inventory(),
        101,
        &context,
    )
    .expect("still a target");
    assert_eq!(confirmed.resource.id, "spare");
    let changed = revalidate(
        &config,
        &source,
        &target,
        &loaded("other"),
        inventory(),
        101,
        &context,
    );
    assert_eq!(
        changed.expect_err("another configuration"),
        "configuration changed after the plan was created"
    );
    let gone = revalidate(
        &config,
        &source,
        &target,
        &loaded("source"),
        Vec::new(),
        101,
        &context,
    );
    assert_eq!(
        gone.expect_err("nothing is there"),
        "resource disappeared before deletion"
    );
    let held = protecting("spare");
    let protected = revalidate(
        &config,
        &source,
        &target,
        &loaded("source"),
        inventory(),
        101,
        &PlanContext {
            protection: &held,
            observations: &observations,
        },
    );
    assert_eq!(
        protected.expect_err("it is protected"),
        "resource became ineligible: matched runtime protection volume spare"
    );
}

#[test]
fn a_configuration_is_accepted_only_if_it_is_valid() {
    let loaded = accept_config(
        "config.toml".to_owned(),
        with_volumes("1h"),
        "text".to_owned(),
    )
    .expect("a valid configuration");
    assert_eq!(loaded.path, "config.toml");
    assert_eq!(loaded.source, "text");
    let refused = accept_config(
        "config.toml".to_owned(),
        with_volumes("soon"),
        String::new(),
    );
    match refused {
        Err(ConfigError::Validation(errors)) => {
            assert_eq!(errors.len(), 1);
            assert!(errors[0].starts_with("rules.volumes[0].orphan_for"));
        }
        other => panic!("expected a validation error, got {other:?}"),
    }
}

#[test]
fn only_a_cache_rule_is_warned_of() {
    let mut config = Config::default();
    assert_eq!(policy_warning(&config), None);
    config.rules.build_cache = Some(BuildCacheRule {
        id: None,
        older_than: Some("1d".to_owned()),
        max_bytes: None,
        allow_unscoped: true,
    });
    assert_eq!(policy_warning(&config), Some(CACHE_NOTICE));
}

#[test]
fn a_configured_protection_cannot_be_lifted_at_runtime() {
    let mut config = Config::default();
    config.protect.names = vec!["^db-".to_owned(), "^spare$".to_owned()];
    let source = "[protect]\nnames = ['^db-', '^spare$']\n";
    let refusal = refuse_config_sourced_unprotect(
        ProtectionKind::Volume,
        &vec!["other".to_owned(), "spare".to_owned()],
        "config.toml",
        source,
        &config,
    );
    assert_eq!(
        refusal.as_deref(),
        Some(
            "cannot unprotect volume \"spare\": it is protected by config.toml:2 (protect.names[1]); edit that configuration entry"
        )
    );
    let free = refuse_config_sourced_unprotect(
        ProtectionKind::Volume,
        &vec!["other".to_owned()],
        "config.toml",
        source,
        &config,
    );
    assert_eq!(free, None);
}

#[test]
fn a_protection_change_is_reported() {
    assert_eq!(
        protection_message("added", 2, 5),
        "Protection state updated: added 2, total 5.\n"
    );
}

fn decided(name: &str, disposition: Disposition, action: Action) -> Decision {
    Decision {
        resource: item(ResourceKind::Volume, name),
        disposition,
        matched_rule: Some("spare".to_owned()),
        action,
        age_seconds: Some(60),
        reason: "because".to_owned(),
    }
}

fn mixed() -> Plan {
    Plan {
        decisions: vec![
            decided("a", Disposition::Owned, Action::Remove),
            decided("b", Disposition::Protected, Action::Keep),
            decided("c", Disposition::Unowned, Action::Keep),
            decided("d", Disposition::AuthorizedUnscoped, Action::Remove),
        ],
    }
}

fn event(pass: &str, sequence: u64, timestamp: i64, data: EventData) -> ActivityEvent {
    ActivityEvent {
        schema_version: 1,
        pass_id: pass.to_owned(),
        source: "clean".to_owned(),
        sequence,
        timestamp,
        config_hash: "hash".to_owned(),
        data,
    }
}

fn action_data() -> EventData {
    EventData::Action {
        action: "removed".to_owned(),
        resource_kind: "volume".to_owned(),
        resource_id: "a".to_owned(),
        resource_name: "a".to_owned(),
        matched_rule: "spare".to_owned(),
        age_seconds: Some(60),
        freed_bytes: 4,
        detail: "removed".to_owned(),
    }
}

fn summary(completed_at: i64) -> EventData {
    EventData::PassSummary {
        completed_at,
        rule_match_counts: TextMap::new(),
        removed_count: 1,
        skipped_count: 0,
        failure_count: 0,
        reclaimed_bytes: 4,
    }
}

fn passes() -> Vec<CompletedPass> {
    ActivityJournal::new(StatePaths::new("/state".to_owned())).completed_passes(&vec![
        event("p1", 0, 100, EventData::PassStarted),
        event("p1", 1, 110, action_data()),
        event("p1", 2, 110, summary(110)),
        event("p2", 0, 200, EventData::PassStarted),
        event("p3", 0, 300, EventData::PassStarted),
        event("p3", 1, 310, summary(310)),
    ])
}

#[test]
fn unfinished_passes_are_left_out_of_the_history() {
    let history = passes();
    let rows = history
        .iter()
        .map(|pass| {
            (
                pass.pass_id.as_str(),
                pass.started_at,
                pass.completed_at,
                pass.actions.len(),
            )
        })
        .collect::<Vec<_>>();
    assert_eq!(rows, [("p1", 100, 110, 1), ("p3", 300, 310, 0)]);
}

#[test]
fn a_status_counts_each_disposition_and_tells_of_the_last_pass() {
    let plan = mixed();
    assert_eq!(
        render_status(&plan, 3, None),
        "Inventory: total=4, protected=1, owned=1, authorized-unscoped=1, unowned=1, pending=2\nRuntime protection entries: 3\nLast completed cleanup pass: none\n"
    );
    let history = passes();
    let report = render_status(&plan, 0, Some(&history[0]));
    assert!(report.ends_with(
        "Last completed cleanup pass: p1 (100 to 110, source=clean, config=hash)\n  removed volume a rule=spare freed_bytes=4\nLast result: removed=1, skipped=0, failed=0, reclaimed_bytes=4\n"
    ));
}

#[test]
fn the_small_documents_hold_what_they_are_given() {
    let protection = protection_document("protect", "image", 1, 2);
    assert_eq!(protection.schema_version, 1);
    assert_eq!(protection.command, "protect");
    assert_eq!(protection.resource_kind, "image");
    assert_eq!(protection.changed, 1);
    assert_eq!(protection.total_runtime_protection_entries, 2);
    let config = with_volumes("1h");
    let document = config_document("config.check", &Some("config.toml".to_owned()), &config);
    assert_eq!(document.command, "config.check");
    assert_eq!(document.path.as_deref(), Some("config.toml"));
    assert_eq!(document.configuration, config);
    let version = version_document("1.2.3");
    assert_eq!((version.command, version.version.as_str()), ("version", "1.2.3"));
    let warning = warning_document("rule_health", "a rule matches nothing");
    assert_eq!(warning.schema_version, 1);
    assert_eq!(warning.kind, "rule_health");
    assert_eq!(warning.message, "a rule matches nothing");
}

#[test]
fn a_daemon_pass_is_told_as_a_row_of_events() {
    let started = daemon_pass_started_event(7, "interval", false, 50);
    assert_eq!((started.event, started.timestamp), ("pass_started", 50));
    match started.fields {
        DaemonFields::PassStarted {
            pass_number,
            trigger,
            mode,
        } => assert_eq!((pass_number, trigger.as_str(), mode), (7, "interval", "dry-run")),
        other => panic!("expected the start of a pass, got {other:?}"),
    }
    let report = ExecutionReport {
        outcomes: vec![TargetOutcome {
            kind: ResourceKind::Volume,
            id: "a".to_owned(),
            name: "a".to_owned(),
            matched_rule: "spare".to_owned(),
            status: TargetStatus::Failed,
            detail: "busy".to_owned(),
        }],
    };
    let plan = mixed();
    let applied = daemon_pass_result_events(7, true, &plan, Some(&report), 60);
    let names = applied.iter().map(|event| event.event).collect::<Vec<_>>();
    assert_eq!(names, ["plan", "action", "pass_summary"]);
    match &applied[1].fields {
        DaemonFields::Action {
            pass_number,
            action,
            outcome,
        } => {
            assert_eq!((*pass_number, *action), (7, "remove"));
            assert_eq!(outcome.status, "failed");
            assert_eq!(outcome.detail, "busy");
        }
        other => panic!("expected an action, got {other:?}"),
    }
    match &applied[2].fields {
        DaemonFields::PassSummary {
            mode,
            pending_removals,
            result,
            ..
        } => {
            assert_eq!((*mode, *pending_removals), ("apply", 2));
            assert_eq!((result.removed, result.skipped, result.failed), (0, 0, 1));
        }
        other => panic!("expected a summary, got {other:?}"),
    }
    let shown = daemon_pass_result_events(8, false, &plan, None, 61);
    let names = shown.iter().map(|event| event.event).collect::<Vec<_>>();
    assert_eq!(names, ["plan", "pass_summary"]);
}

#[test]
fn only_an_answer_of_not_found_means_an_absent_image() {
    match image_failure("busybox", Some(404), "no such image".to_owned()) {
        SpawnError::ImageAbsent { image } => assert_eq!(image, "busybox"),
        other => panic!("expected an absent image, got {other:?}"),
    }
    match image_failure("busybox", None, "no answer".to_owned()) {
        SpawnError::Docker { operation, message } => {
            assert_eq!((operation.as_str(), message.as_str()), ("image inspect", "no answer"));
        }
        other => panic!("expected a failure of Docker, got {other:?}"),
    }
}

#[test]
fn a_sandbox_goes_by_the_name_that_docker_settled_on() {
    let named = spawn_outcome("c1".to_owned(), Some("/box".to_owned()), Vec::new());
    assert_eq!((named.id.as_str(), named.name.as_str()), ("c1", "box"));
    let unnamed = spawn_outcome("c2".to_owned(), None, vec!["slow disk".to_owned()]);
    assert_eq!(unnamed.name, "c2");
    assert_eq!(unnamed.warnings, ["slow disk"]);
}

#[test]
fn every_state_file_stands_below_one_directory() {
    let paths = StatePaths::new("/state".to_owned());
    assert_eq!(
        [
            paths.protection_file(),
            paths.protection_lock(),
            paths.observation_file(),
            paths.observation_lock(),
            paths.activity_file(),
            paths.rotated_activity_file(),
            paths.activity_lock(),
        ],
        [
            "/state/protection.toml",
            "/state/protection.lock",
            "/state/observation.toml",
            "/state/observation.lock",
            "/state/activity.jsonl",
            "/state/activity.1.jsonl",
            "/state/activity.lock",
        ]
    );
}

#[test]
fn empty_lines_are_not_counted() {
    assert_eq!(count_lines(&b"one\n\ntwo\nthree".to_vec()), 3);
    assert_eq!(count_lines(&Vec::new()), 0);
}

#[test]
fn the_dashboard_stands_in_for_a_configuration_that_is_not_there() {
    let home = Some("/home/me".to_owned());
    let searched = || ConfigError::NotFound {
        searched: vec!["docker_maid.toml".to_owned()],
    };
    let (loaded, built_in) =
        dashboard_config(Err(searched()), &None, false, &None, &home).expect("a stand-in");
    assert!(built_in);
    assert_eq!(loaded.path, "/home/me/.config/docker_maid/config.toml");
    assert_eq!(loaded.config, Config::default());
    assert_eq!(loaded.source, "");

    let unread = |path: &str| ConfigError::Read {
        path: path.to_owned(),
        message: "no such file".to_owned(),
    };
    let named = Some("mine.toml".to_owned());
    let (loaded, built_in) =
        dashboard_config(Err(unread("mine.toml")), &named, true, &None, &None).expect("a stand-in");
    assert!(built_in);
    assert_eq!(loaded.path, "mine.toml");

    let locked = dashboard_config(Err(unread("mine.toml")), &named, false, &None, &home);
    match locked {
        Err(ConfiguratorError::Config(error)) => {
            assert_eq!(error.message(), "cannot read mine.toml: no such file");
        }
        other => panic!("expected the read error, got {other:?}"),
    }
    let nowhere = dashboard_config(Err(searched()), &None, false, &None, &None);
    match nowhere {
        Err(ConfiguratorError::Invalid(message)) => assert_eq!(
            message,
            "cannot select a configuration path: set XDG_CONFIG_HOME or HOME"
        ),
        other => panic!("expected no path, got {other:?}"),
    }
    let found = LoadedConfig {
        path: "docker_maid.toml".to_owned(),
        config: Config::default(),
        source: "# nothing\n".to_owned(),
    };
    let (loaded, built_in) =
        dashboard_config(Ok(found), &None, false, &None, &home).expect("the one found");
    assert!(!built_in);
    assert_eq!(loaded.source, "# nothing\n");
}

#[test]
fn durations_are_read_as_seconds_and_nanoseconds() {
    assert_eq!(read_duration("2h 30m"), Ok((9_000, 0)));
    assert_eq!(read_duration("1.5s"), Ok((1, 500_000_000)));
    assert_eq!(read_duration("00000000000000000000002s"), Ok((2, 0)));
    assert_eq!(
        read_duration("7years 3months 12days 20h 15min 45s 123456789ns").map(|span| span.1),
        Ok(123_456_789)
    );
    assert!(read_duration("soon").is_err());
    assert_eq!(
        read_duration("18446744073709551615s 1000ms"),
        Err(DURATION_OVERFLOW.to_owned())
    );
}

#[test]
fn a_duration_may_be_as_long_as_its_seconds_can_be_counted() {
    assert_eq!(read_duration("31536000000000000ns"), Ok((31_536_000, 0)));
    assert_eq!(
        read_duration("99999999999999999s"),
        Ok((99_999_999_999_999_999, 0))
    );
    assert_eq!(
        read_duration("18446744073709551615s 999999999ns"),
        Ok((u64::MAX, 999_999_999))
    );
    assert_eq!(
        read_duration("18446744073709551616s"),
        Err(DURATION_OVERFLOW.to_owned())
    );
    assert_eq!(
        read_duration("1000000000000y"),
        Err(DURATION_OVERFLOW.to_owned())
    );

    let mut config = Config::default();
    config.defaults.interval = Some("31536000000000000ns".to_owned());
    assert!(config.validate().is_ok());
    config.defaults.interval = Some("18446744073709551616s".to_owned());
    let error = config.validate().expect_err("too long");
    assert!(error.message().contains(&format!(
        "defaults.interval is not a valid duration: {DURATION_OVERFLOW}"
    )));
}

#[test]
fn an_overlong_duration_is_worded_as_a_parser_words_it() {
    for text in ["18446744073709551616s", "99999999999999999999s"] {
        let error = humantime::parse_duration(text).expect_err("too long");
        assert_eq!(read_duration(text), Err(error.to_string()));
        assert_eq!(error.to_string(), DURATION_OVERFLOW);
    }
    for text in ["3h 5 m", "", "12", "5 parsecs", "1.5h", ".5s", "0.1ns"] {
        assert_eq!(
            read_duration(text),
            humantime::parse_duration(text)
                .map(|span| (span.as_secs(), span.subsec_nanos()))
                .map_err(|error| error.to_string())
        );
    }
}
