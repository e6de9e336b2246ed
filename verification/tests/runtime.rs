//! Applying a plan, recording it, and what the daemon and the commands make of
//! it.

use clap::{Arg, ArgAction};
use docker_maid::activity::{ActivityError, ActivityJournal, EventData, MAX_EVENTS};
use docker_maid::command::{
    cleanup_result, cleanup_step, output_error_exit_code, CleanupStep, Failure, RunOutcome,
    EXIT_CONFIG, EXIT_DOCKER, EXIT_INTERNAL, EXIT_PARTIAL, EXIT_PENDING, EXIT_STATE,
};
use docker_maid::config::{Config, LoadedConfig};
use docker_maid::executor::{
    classify_delete_error, classify_prune_response, configuration_is_unchanged, delete_request,
    ordered_removal_targets, select_revalidated_target, target_outcome, Attempt, DeleteEffect,
    DeleteRequest, Execution, ExecutionReport, PruneResponse, TargetOutcome, TargetStatus,
};
use docker_maid::inventory::{resource_state, rfc3339_epoch, short_id};
use docker_maid::journal::{
    accept_events, pass_id, retain_newest_lines, rotation, split_lines, stable_config_hash,
    DecodedLine,
};
use docker_maid::machine::{error_document, plan_document, status_document};
use docker_maid::observation::{ObservationState, ObservationStore};
use docker_maid::plan::{Action, Decision, Disposition, Plan};
use docker_maid::resource::{InventoryItem, ResourceKind, ResourceState};
use docker_maid::spawn::{SpawnError, SpawnRequest, WORKSPACE_MOUNT_PATH};
use docker_maid::stamp::Stamp;
use docker_maid::state::{
    ProtectionEntry, ProtectionKind, ProtectionState, ProtectionStore, StatePaths,
};
use docker_maid::text_map::Labels;
use docker_maid::wakeup::{
    daemon_interval, DaemonWake, Listener, StreamStep, TickCounts, Wait, WaitStep,
    DEFAULT_INTERVAL,
};

fn resource(kind: ResourceKind, id: &str, referenced: bool, created_at: i64) -> InventoryItem {
    InventoryItem {
        kind,
        id: id.to_owned(),
        name: id.to_owned(),
        search_names: vec![id.to_owned()],
        parent_ids: Vec::new(),
        labels: Labels::new(),
        mounts: Vec::new(),
        state: ResourceState::Available,
        created_at: Some(created_at),
        state_since: None,
        size: None,
        referenced,
        dangling: false,
        system: false,
    }
}

fn decision(action: Action, referenced: bool, rule: &str) -> Decision {
    Decision {
        resource: resource(ResourceKind::Volume, "volume-1", referenced, 1),
        disposition: Disposition::Owned,
        matched_rule: Some(rule.to_owned()),
        action,
        age_seconds: Some(10),
        reason: "test decision".to_owned(),
    }
}

#[test]
fn exact_target_remains_eligible() {
    let original = decision(Action::Remove, false, "workspaces");
    let current = original.clone();
    let plan = Plan {
        decisions: vec![current],
    };

    let selected = select_revalidated_target(&original, &plan).expect("eligible target");
    assert_eq!(selected.resource.id, "volume-1");
}

#[test]
fn ineligible_target_is_skipped() {
    let original = decision(Action::Remove, false, "workspaces");
    let mut current = decision(Action::Keep, true, "workspaces");
    current.reason = "volume is referenced by a container".to_owned();
    let error = select_revalidated_target(
        &original,
        &Plan {
            decisions: vec![current],
        },
    )
    .expect_err("referenced target must be skipped");

    assert!(error.contains("became ineligible"));
    assert!(error.contains("referenced"));
}

#[test]
fn changed_rule_does_not_authorize_original_target() {
    let original = decision(Action::Remove, false, "workspaces");
    let current = decision(Action::Remove, false, "fallback");
    let error = select_revalidated_target(
        &original,
        &Plan {
            decisions: vec![current],
        },
    )
    .expect_err("a different rule must not authorize the immutable target");

    assert!(error.contains("same authorized rule"));
}

#[test]
fn report_marks_skips_as_partial_failure() {
    let report = ExecutionReport {
        outcomes: vec![
            target_outcome(
                &decision(Action::Remove, false, "workspaces"),
                TargetStatus::Removed,
                "removed".to_owned(),
            ),
            TargetOutcome {
                kind: ResourceKind::Network,
                id: "network-1".to_owned(),
                name: "network-1".to_owned(),
                matched_rule: "networks".to_owned(),
                status: TargetStatus::Skipped,
                detail: "resource became referenced".to_owned(),
            },
        ],
    };

    assert!(report.has_partial_failure());
    let output = report.render_table();
    assert!(output.contains("Cleanup result: removed 1, skipped 1, failed 0."));
}

#[test]
fn comment_only_config_change_invalidates_the_plan() {
    let initial_config = Config::default();
    let current = LoadedConfig {
        path: "config.toml".to_owned(),
        config: initial_config.clone(),
        source: "# comment added after planning\n".to_owned(),
    };

    assert!(!configuration_is_unchanged(&initial_config, "", &current));
}

#[test]
fn build_cache_prune_response_must_name_only_the_exact_target() {
    let removed = classify_prune_response(
        "cache-1",
        &PruneResponse {
            caches_deleted: Some(vec!["cache-1".to_owned()]),
            space_reclaimed: Some(42),
        },
    );
    assert_eq!(
        removed,
        DeleteEffect::Removed("removed; reclaimed 42 bytes".to_owned())
    );

    let none = classify_prune_response(
        "cache-1",
        &PruneResponse {
            caches_deleted: None,
            space_reclaimed: None,
        },
    );
    assert!(matches!(none, DeleteEffect::Skipped(_)));

    let unexpected = classify_prune_response(
        "cache-1",
        &PruneResponse {
            caches_deleted: Some(vec!["cache-1".to_owned(), "cache-2".to_owned()]),
            space_reclaimed: Some(42),
        },
    );
    assert!(matches!(unexpected, DeleteEffect::Failed(_)));
}

#[test]
fn build_cache_targets_are_ordered_child_before_parent() {
    let mut parent = decision(Action::Remove, false, "build-cache");
    parent.resource.kind = ResourceKind::BuildCache;
    parent.resource.id = "parent".to_owned();
    parent.resource.name = "parent".to_owned();
    let mut child = decision(Action::Remove, false, "build-cache");
    child.resource.kind = ResourceKind::BuildCache;
    child.resource.id = "child".to_owned();
    child.resource.name = "child".to_owned();
    child.resource.parent_ids = vec!["parent".to_owned()];

    let targets = ordered_removal_targets(&Plan {
        decisions: vec![parent, child],
    });
    let ids = targets
        .iter()
        .map(|target| target.resource.id.as_str())
        .collect::<Vec<_>>();
    assert_eq!(ids, vec!["child", "parent"]);
}

#[test]
fn a_vanished_target_is_not_authorized() {
    let original = decision(Action::Remove, false, "workspaces");
    let error = select_revalidated_target(
        &original,
        &Plan {
            decisions: Vec::new(),
        },
    )
    .expect_err("a vanished target must be skipped");
    assert!(!error.is_empty());
}

#[test]
fn an_execution_reports_every_target_once_in_order() {
    let mut first = decision(Action::Remove, false, "workspaces");
    first.resource.id = "a".to_owned();
    first.resource.name = "a".to_owned();
    let mut second = decision(Action::Remove, false, "workspaces");
    second.resource.id = "b".to_owned();
    second.resource.name = "b".to_owned();
    let mut kept = decision(Action::Keep, false, "workspaces");
    kept.resource.id = "c".to_owned();
    let plan = Plan {
        decisions: vec![first, second, kept],
    };
    let mut execution = Execution::start(&plan);
    let ids = ["a", "b"];
    for id in ids {
        assert_eq!(execution.next_target().expect("a target").resource.id, id);
        execution = execution.record(Attempt::Done(DeleteEffect::Removed("removed".to_owned())));
    }
    assert!(execution.next_target().is_none());
    let report = execution.report();
    assert_eq!(report.outcomes.len(), 2);
    assert_eq!(report.count(TargetStatus::Removed), 2);
    assert!(!report.has_partial_failure());
}

#[test]
fn delete_errors_are_told_apart_by_status() {
    let (status, detail) = classify_delete_error(Some(404), "no such volume");
    assert_eq!(status, TargetStatus::Skipped);
    assert_eq!(detail, "Docker deletion failed: no such volume");
    let (status, _) = classify_delete_error(Some(409), "in use");
    assert_eq!(status, TargetStatus::Skipped);
    let (status, _) = classify_delete_error(Some(500), "boom");
    assert_eq!(status, TargetStatus::Failed);
    let (status, _) = classify_delete_error(None, "timeout");
    assert_eq!(status, TargetStatus::Failed);
}

#[test]
fn each_kind_has_its_own_request() {
    let volume = decision(Action::Remove, false, "workspaces");
    assert!(matches!(
        delete_request(&volume),
        DeleteRequest::Volume { .. }
    ));
    let mut cache = decision(Action::Remove, false, "build-cache");
    cache.resource.kind = ResourceKind::BuildCache;
    assert!(matches!(
        delete_request(&cache),
        DeleteRequest::BuildCache { .. }
    ));
}

#[test]
fn rotation_retains_only_the_newest_records_within_both_caps() {
    let lines = vec![b"old".to_vec(), b"middle".to_vec(), b"new".to_vec()];
    assert_eq!(
        retain_newest_lines(lines.clone(), 2, 100),
        vec![b"middle".to_vec(), b"new".to_vec()]
    );
    assert_eq!(
        retain_newest_lines(lines, 10, 11),
        vec![b"middle".to_vec(), b"new".to_vec()]
    );
}

#[test]
fn a_journal_rotates_once_it_outgrows_the_event_cap() {
    let small = b"{}\n{}\n".to_vec();
    assert_eq!(rotation(&small, &Vec::new()), None);
    let mut large = Vec::new();
    for _ in 0..=MAX_EVENTS {
        large.extend_from_slice(b"{}\n");
    }
    let payload = rotation(&large, &b"{\"old\":1}\n".to_vec()).expect("rotated");
    assert_eq!(split_lines(&payload).len(), MAX_EVENTS);
    assert!(payload.starts_with(b"{}\n"));
}

fn finished_plan() -> (Plan, ExecutionReport) {
    let mut item = resource(ResourceKind::Volume, "v1", false, 1);
    item.name = "volume-one".to_owned();
    item.search_names = vec!["volume-one".to_owned()];
    item.size = Some(42);
    let plan = Plan {
        decisions: vec![Decision {
            resource: item,
            disposition: Disposition::Owned,
            matched_rule: Some("old-volumes".to_owned()),
            action: Action::Remove,
            age_seconds: Some(9),
            reason: "fixture".to_owned(),
        }],
    };
    let report = ExecutionReport {
        outcomes: vec![TargetOutcome {
            kind: ResourceKind::Volume,
            id: "v1".to_owned(),
            name: "volume-one".to_owned(),
            matched_rule: "old-volumes".to_owned(),
            status: TargetStatus::Removed,
            detail: "removed".to_owned(),
        }],
    };
    (plan, report)
}

fn journal() -> ActivityJournal {
    ActivityJournal::new(StatePaths::new("/state".to_owned()))
}

#[test]
fn completed_pass_survives_a_new_journal_instance() {
    let (pass, start) = journal()
        .start_pass(Ok(Vec::new()), "pass-1".to_owned(), "clean", "abc", 10)
        .expect("an empty journal starts a pass");
    let (plan, report) = finished_plan();
    let mut events = vec![start];
    events.extend(pass.finish(&plan, &report, 11));

    let reloaded = journal()
        .last_completed_pass(&events)
        .expect("a completed pass");
    assert_eq!(reloaded.removed_count, 1);
    assert_eq!(reloaded.reclaimed_bytes, 42);
    assert_eq!(reloaded.actions.len(), 1);
    assert_eq!(reloaded.started_at, 10);
    assert_eq!(reloaded.completed_at, 11);
    assert_eq!(
        reloaded.rule_match_counts.get("old-volumes").copied(),
        Some(1)
    );
}

#[test]
fn incomplete_pass_is_not_reported_as_last_completed() {
    let (_, start) = journal()
        .start_pass(Ok(Vec::new()), "pass-1".to_owned(), "clean", "abc", 10)
        .expect("start");
    assert!(journal().last_completed_pass(&vec![start]).is_none());
}

#[test]
fn corrupt_history_blocks_a_new_pass_before_it_is_appended() {
    let lines = vec![DecodedLine {
        path: "/state/activity.jsonl".to_owned(),
        line: 1,
        event: Err("expected ident at line 1 column 2".to_owned()),
    }];
    let history = accept_events(&lines);
    let error = journal()
        .start_pass(history, "pass-1".to_owned(), "clean", "abc", 10)
        .expect_err("corrupt journal must block the pass");
    assert!(
        error.message().contains("invalid activity event"),
        "{}",
        error.message()
    );
}

#[test]
fn events_of_another_version_are_refused_and_repeats_are_dropped() {
    let (_, start) = journal()
        .start_pass(Ok(Vec::new()), "pass-1".to_owned(), "clean", "abc", 10)
        .expect("start");
    let line = |number: usize, event| DecodedLine {
        path: "a".to_owned(),
        line: number,
        event: Ok(event),
    };
    let twice = vec![line(1, start.clone()), line(2, start.clone())];
    assert_eq!(accept_events(&twice).expect("readable").len(), 1);
    let mut newer = start;
    newer.schema_version = 99;
    let refused = accept_events(&vec![line(1, newer)]).expect_err("another version");
    assert!(!matches!(refused, ActivityError::Io { .. }));
}

#[test]
fn summaries_count_what_happened() {
    let (pass, _) = journal()
        .start_pass(Ok(Vec::new()), "pass-1".to_owned(), "clean", "abc", 10)
        .expect("start");
    let (plan, report) = finished_plan();
    let events = pass.finish(&plan, &report, 11);
    assert_eq!(events.len(), 2);
    assert!(matches!(
        &events[1].data,
        EventData::PassSummary {
            removed_count: 1,
            skipped_count: 0,
            failure_count: 0,
            reclaimed_bytes: 42,
            ..
        }
    ));
}

#[test]
fn hashes_and_pass_names_are_stable() {
    assert_eq!(stable_config_hash(""), "cbf29ce484222325");
    assert_eq!(stable_config_hash("a"), "af63dc4c8601ec8c");
    assert_eq!(pass_id(0xab, 7, 3), "000000000000000000000000000000ab-00000007-0000000000000003");
}

#[test]
fn parses_docker_timestamp_without_panicking_on_zero_value() {
    assert_eq!(rfc3339_epoch("1970-01-01T00:00:01Z"), Some(1));
    assert_eq!(rfc3339_epoch("1970-01-01T01:00:01+01:00"), Some(1));
    assert_eq!(rfc3339_epoch("1970-01-01T00:00:01-01:00"), Some(3_601));
    assert_eq!(rfc3339_epoch("0001-01-01T00:00:00Z"), None);
    assert_eq!(rfc3339_epoch("not-a-time"), None);
}

#[test]
fn normalizes_container_states_for_policy_evaluation() {
    assert_eq!(resource_state("running"), ResourceState::Running);
    assert_eq!(resource_state("paused"), ResourceState::Running);
    assert_eq!(resource_state("exited"), ResourceState::Stopped);
    assert_eq!(
        resource_state("created"),
        ResourceState::Other("created".to_owned())
    );
}

#[test]
fn short_ids_are_stable_for_digest_and_plain_ids() {
    assert_eq!(short_id("sha256:1234567890abcdef"), "1234567890ab");
    assert_eq!(short_id("abcdef"), "abcdef");
}

#[test]
fn error_envelope_is_schema_versioned() {
    let value = error_document("configuration", "bad input");
    assert_eq!(value.schema_version, 1);
    assert_eq!(value.kind, "configuration");
    assert_eq!(value.message, "bad input");
}

#[test]
fn plan_documents_count_what_they_list() {
    let (plan, report) = finished_plan();
    let document = plan_document("clean", true, &plan, Some(&report));
    assert_eq!(document.schema_version, 1);
    assert_eq!(document.pending_removals, 1);
    assert_eq!(document.items.len(), 1);
    assert_eq!(
        document.inventory.by_resource_kind.get("volume").copied(),
        Some(1)
    );
    let result = document.result.expect("a result");
    assert_eq!((result.removed, result.skipped, result.failed), (1, 0, 0));

    let status = status_document("c.toml", "hash", &Config::default(), &plan, 0, None);
    assert_eq!(status.disk_usage.known_bytes, 42);
    assert_eq!(status.disk_usage.unknown_size_items, 0);
    assert_eq!(status.rule_health.len(), 1);
}

#[test]
fn broken_pipe_is_success() {
    assert_eq!(output_error_exit_code(true), 0);
}

#[test]
fn other_output_error_is_internal_failure() {
    assert_eq!(output_error_exit_code(false), EXIT_INTERNAL);
}

fn parse_apply(arguments: &[&str]) -> bool {
    let matches = clap::Command::new("docker_maid")
        .subcommand(
            clap::Command::new("clean").arg(
                Arg::new("apply")
                    .long("apply")
                    .action(ArgAction::SetTrue),
            ),
        )
        .try_get_matches_from(arguments)
        .expect("parse clean");
    let (name, clean) = matches.subcommand().expect("a command");
    assert_eq!(name, "clean");
    clean.get_flag("apply")
}

#[test]
fn clean_is_dry_run_unless_apply_is_explicit() {
    let (plan, _) = finished_plan();

    let dry_run = parse_apply(&["docker_maid", "clean"]);
    assert!(!dry_run);
    assert!(matches!(
        cleanup_step(true, dry_run, &plan),
        CleanupStep::Show {
            outcome: RunOutcome::PendingRemovals,
            ..
        }
    ));

    let applied = parse_apply(&["docker_maid", "clean", "--apply"]);
    assert!(applied);
    assert!(matches!(
        cleanup_step(true, applied, &plan),
        CleanupStep::Apply { execute: true, .. }
    ));
}

#[test]
fn every_failure_has_its_exit_code() {
    assert_eq!(Failure::Config.exit_code(), EXIT_CONFIG);
    assert_eq!(Failure::Docker.exit_code(), EXIT_DOCKER);
    assert_eq!(Failure::State.exit_code(), EXIT_STATE);
    assert_eq!(Failure::Internal.exit_code(), EXIT_INTERNAL);
    assert_eq!(Failure::Output { broken_pipe: true }.exit_code(), 0);
    assert_eq!(RunOutcome::Success.exit_code(), 0);
    assert_eq!(RunOutcome::PendingRemovals.exit_code(), EXIT_PENDING);
    assert_eq!(RunOutcome::PartialFailure.exit_code(), EXIT_PARTIAL);
}

#[test]
fn applying_ends_in_success_or_partial_failure() {
    let (plan, mut report) = finished_plan();
    let (output, outcome) = cleanup_result(&plan, &report);
    assert_eq!(outcome, RunOutcome::Success);
    assert!(output.contains("removed 1"));
    report.outcomes[0].status = TargetStatus::Failed;
    let (_, outcome) = cleanup_result(&plan, &report);
    assert_eq!(outcome, RunOutcome::PartialFailure);
}

fn stamp() -> Stamp {
    Stamp::new(Some("agent-7")).expect("named stamp")
}

fn request(workspace: Option<&str>) -> SpawnRequest {
    SpawnRequest::new(
        "alpine:latest",
        None,
        workspace,
        true,
        None,
        Vec::new(),
        stamp(),
    )
    .expect("a plain request is valid")
}

#[test]
fn the_container_carries_exactly_the_stamp() {
    let request = request(None);
    let body = request.container_body();
    let labels = body.labels.expect("a spawned container is labelled");
    let stamped = request.stamp().labels();
    assert_eq!(labels.len(), stamped.len());
    for index in 0..stamped.len() {
        assert_eq!(
            labels.get(stamped.key_at(index)),
            Some(stamped.value_at(index))
        );
    }
}

#[test]
fn the_sandbox_is_never_removed_or_attached_on_our_behalf() {
    let body = request(None).container_body();
    let host_config = body.host_config.expect("a host config is always sent");
    assert_eq!(host_config.auto_remove, Some(false));
    assert_eq!(body.attach_stdin, Some(false));
    assert_eq!(body.attach_stdout, Some(false));
    assert_eq!(body.attach_stderr, Some(false));
    assert_eq!(body.open_stdin, Some(false));
    assert_eq!(body.tty, Some(false));
}

#[test]
fn no_workspace_means_no_bind_mount() {
    let body = request(None).container_body();
    let host_config = body.host_config.expect("host config");
    assert_eq!(host_config.binds, None);
    assert_eq!(body.working_dir, None);
}

#[test]
fn a_workspace_is_bound_at_the_documented_path_and_becomes_the_workdir() {
    let directory = "/tmp";
    let body = request(Some(directory)).container_body();
    let host_config = body.host_config.expect("host config");
    assert_eq!(
        host_config.binds,
        Some(vec![format!("{directory}:{WORKSPACE_MOUNT_PATH}")])
    );
    assert_eq!(body.working_dir.as_deref(), Some(WORKSPACE_MOUNT_PATH));
}

#[test]
fn an_explicit_workdir_wins_over_the_workspace_default() {
    let request = SpawnRequest::new(
        "alpine:latest",
        None,
        Some("/tmp"),
        true,
        Some("/srv"),
        Vec::new(),
        stamp(),
    )
    .expect("an absolute workdir is valid");
    assert_eq!(request.workdir(), Some("/srv"));
    assert_eq!(
        request.container_body().working_dir.as_deref(),
        Some("/srv")
    );
}

#[test]
fn an_empty_command_leaves_the_image_default_alone() {
    assert_eq!(request(None).container_body().cmd, None);
    let with_command = SpawnRequest::new(
        "alpine:latest",
        None,
        None,
        false,
        None,
        vec!["sleep".to_owned(), "600".to_owned()],
        stamp(),
    )
    .expect("a command is valid");
    assert_eq!(
        with_command.container_body().cmd,
        Some(vec!["sleep".to_owned(), "600".to_owned()])
    );
}

#[test]
fn a_relative_workspace_is_refused_rather_than_becoming_a_volume() {
    let error = SpawnRequest::new(
        "alpine:latest",
        None,
        Some("relative/path"),
        true,
        None,
        Vec::new(),
        stamp(),
    )
    .expect_err("a relative workspace is refused");
    assert!(matches!(error, SpawnError::RelativeWorkspace { .. }));
}

#[test]
fn a_workspace_that_does_not_exist_is_refused() {
    let error = SpawnRequest::new(
        "alpine:latest",
        None,
        Some("/tmp/docker-maid-no-such-workspace-6f21"),
        false,
        None,
        Vec::new(),
        stamp(),
    )
    .expect_err("a missing workspace is refused");
    assert!(matches!(error, SpawnError::MissingWorkspace { .. }));
}

#[test]
fn blank_identifiers_are_refused() {
    assert!(matches!(
        SpawnRequest::new("", None, None, false, None, Vec::new(), stamp())
            .expect_err("a blank image is refused"),
        SpawnError::BlankImage
    ));
    assert!(matches!(
        SpawnRequest::new(
            "alpine:latest",
            Some("  "),
            None,
            false,
            None,
            Vec::new(),
            stamp()
        )
        .expect_err("a blank name is refused"),
        SpawnError::BlankName
    ));
    assert!(matches!(
        SpawnRequest::new(
            "alpine:latest",
            None,
            None,
            false,
            Some("relative"),
            Vec::new(),
            stamp()
        )
        .expect_err("a relative workdir is refused"),
        SpawnError::RelativeWorkdir { .. }
    ));
}

#[test]
fn typed_entries_match_only_their_resource_kind() {
    let state = ProtectionState {
        schema_version: 1,
        entries: vec![ProtectionEntry {
            kind: ProtectionKind::Network,
            value: "shared".to_owned(),
        }],
    };
    let mut network = resource(ResourceKind::Network, "n1", false, 1);
    network.name = "shared".to_owned();
    network.search_names = vec!["shared".to_owned()];
    let mut volume = resource(ResourceKind::Volume, "v1", false, 1);
    volume.name = "shared".to_owned();
    volume.search_names = vec!["shared".to_owned()];
    assert!(state.match_reason(&network).is_some());
    assert!(state.match_reason(&volume).is_none());
}

#[test]
fn atomic_updates_are_sorted_and_idempotent() {
    let store = ProtectionStore::new(StatePaths::new("/state".to_owned()));
    let (state, gained) = store
        .add(
            ProtectionState::empty(),
            ProtectionKind::Volume,
            &vec!["z".to_owned(), "a".to_owned()],
        )
        .expect("two entries");
    assert_eq!(gained, 2);
    let (state, gained) = store
        .add(state, ProtectionKind::Volume, &vec!["a".to_owned()])
        .expect("known entry");
    assert_eq!(gained, 0);
    assert_eq!(state.entries[0].value, "a");
    let (state, lost) = store
        .remove(state, ProtectionKind::Volume, &vec!["a".to_owned()])
        .expect("release");
    assert_eq!(lost, 1);
    assert_eq!(state.entries.len(), 1);
}

#[test]
fn a_protection_request_is_checked_before_the_state() {
    let store = ProtectionStore::new(StatePaths::new("/state".to_owned()));
    let blank = store.add(
        ProtectionState::empty(),
        ProtectionKind::Label,
        &vec![" ".to_owned()],
    );
    assert!(blank.is_err());
    let regex = store.add(
        ProtectionState::empty(),
        ProtectionKind::Container,
        &vec!["(".to_owned()],
    );
    assert!(regex
        .expect_err("not a regex")
        .message()
        .contains("is not a valid ID/name regex"));
    assert!(store
        .add(ProtectionState::empty(), ProtectionKind::Volume, &Vec::new())
        .is_err());
    let mut future = ProtectionState::empty();
    future.schema_version = 9;
    assert!(store
        .add(future, ProtectionKind::Volume, &vec!["a".to_owned()])
        .is_err());
}

fn observe(
    stored: ObservationState,
    inventory: &Vec<InventoryItem>,
    now: i64,
) -> ObservationState {
    ObservationStore::new(StatePaths::new("/state".to_owned()))
        .record(stored, inventory, now)
        .expect("record")
}

#[test]
fn first_observation_has_zero_age_and_later_passes_accumulate() {
    let inventory = vec![resource(ResourceKind::Volume, "v1", false, 1)];
    let first = observe(ObservationState::empty(), &inventory, 1_000);
    assert_eq!(first.unreferenced_age(&inventory[0], 1_000), Some(0));

    let second = observe(first, &inventory, 5_000);
    assert_eq!(second.unreferenced_age(&inventory[0], 5_000), Some(4_000));
    assert_eq!(second.entries.len(), 1);
}

#[test]
fn reattachment_clears_the_entry_and_detaching_restarts_the_clock() {
    let detached = vec![resource(ResourceKind::Volume, "v1", false, 1)];
    let attached = vec![resource(ResourceKind::Volume, "v1", true, 1)];

    let first = observe(ObservationState::empty(), &detached, 1_000);
    let cleared = observe(first, &attached, 2_000);
    assert!(cleared.entries.is_empty());
    assert_eq!(cleared.unreferenced_age(&attached[0], 2_000), None);

    let again = observe(cleared, &detached, 3_000);
    assert_eq!(again.unreferenced_age(&detached[0], 9_000), Some(6_000));
}

#[test]
fn a_reused_identity_restarts_the_clock_instead_of_inheriting_it() {
    let original = vec![resource(ResourceKind::Volume, "shared", false, 1)];
    let first = observe(ObservationState::empty(), &original, 1_000);

    let recreated = vec![resource(ResourceKind::Volume, "shared", false, 900_000)];
    let state = observe(first, &recreated, 1_000_000);
    assert_eq!(state.unreferenced_age(&recreated[0], 1_000_000), Some(0));
}

#[test]
fn vanished_resources_are_compacted_and_containers_are_never_recorded() {
    let present = vec![
        resource(ResourceKind::Volume, "v1", false, 1),
        resource(ResourceKind::Network, "n1", false, 1),
        resource(ResourceKind::Container, "c1", false, 1),
        resource(ResourceKind::BuildCache, "b1", false, 1),
    ];
    let state = observe(ObservationState::empty(), &present, 1_000);
    assert_eq!(state.entries.len(), 2);

    let remaining = vec![resource(ResourceKind::Network, "n1", false, 1)];
    let state = observe(state, &remaining, 2_000);
    assert_eq!(state.entries.len(), 1);
    assert_eq!(state.entries[0].id, "n1");
}

fn ticks(events: u64, reconnects: u64) -> TickCounts {
    TickCounts { events, reconnects }
}

#[test]
fn a_burst_of_events_is_one_wake() {
    let mut wait = Wait::start(0, 400, 30, TickCounts::none());
    for _ in 0..20 {
        wait.note(1, ticks(1, 0));
    }
    assert_eq!(wait.step(30), WaitStep::SleepUntil(31));
    assert_eq!(
        wait.step(31),
        WaitStep::Wake(DaemonWake::Event {
            events: 20,
            reconnects: 0
        })
    );
}

#[test]
fn events_that_keep_arriving_reset_the_debounce() {
    let mut wait = Wait::start(0, 400, 40, TickCounts::none());
    wait.note(0, ticks(1, 0));
    wait.note(20, ticks(1, 0));
    assert_eq!(wait.step(40), WaitStep::SleepUntil(60));
    assert_eq!(
        wait.step(60),
        WaitStep::Wake(DaemonWake::Event {
            events: 2,
            reconnects: 0
        })
    );
}

#[test]
fn quiet_hosts_wake_on_the_interval() {
    let wait = Wait::start(0, 20, 50, TickCounts::none());
    assert_eq!(wait.step(0), WaitStep::SleepUntil(20));
    assert_eq!(wait.step(20), WaitStep::Wake(DaemonWake::Interval));
}

#[test]
fn a_flood_that_never_goes_quiet_still_hits_the_interval() {
    let mut wait = Wait::start(0, 60, 40, TickCounts::none());
    for now in [0, 10, 20, 30, 40, 50] {
        wait.note(now, ticks(1, 0));
        assert!(matches!(wait.step(now), WaitStep::SleepUntil(_)));
    }
    assert_eq!(wait.step(60), WaitStep::Wake(DaemonWake::Interval));
}

#[test]
fn reconnects_coalesce_with_events_into_one_wake() {
    let mut wait = Wait::start(0, 400, 20, TickCounts::none());
    wait.note(0, ticks(1, 0));
    wait.note(0, ticks(0, 1));
    wait.note(0, ticks(1, 0));
    assert_eq!(
        wait.step(20),
        WaitStep::Wake(DaemonWake::Event {
            events: 2,
            reconnects: 1
        })
    );
}

#[test]
fn a_second_successful_stream_records_one_reconnect() {
    let mut listener = Listener::new();
    assert_eq!(listener.opened(), StreamStep::ReadOn);
    assert_eq!(listener.received(Some(true)), StreamStep::CountEvent);
    assert_eq!(listener.received(None), StreamStep::Leave);
    assert_eq!(listener.opened(), StreamStep::CountReconnect);
}

#[test]
fn the_daemon_waits_as_asked_else_as_configured() {
    let configured = Some("10m".to_owned());
    assert_eq!(daemon_interval(Some("90s"), &configured), Ok((90, 0)));
    assert_eq!(daemon_interval(None, &configured), Ok((600, 0)));
    assert_eq!(daemon_interval(None, &None), Ok((DEFAULT_INTERVAL, 0)));
    assert_eq!(DEFAULT_INTERVAL, 300);
    assert_eq!(
        daemon_interval(None, &Some("0s".to_owned())),
        Ok((DEFAULT_INTERVAL, 0))
    );
    assert_eq!(
        daemon_interval(None, &Some("soon".to_owned())),
        Ok((DEFAULT_INTERVAL, 0))
    );
    for refused in ["0s", "soon"] {
        assert_eq!(
            daemon_interval(Some(refused), &configured),
            Err(format!(
                "--interval {refused:?} is not a duration greater than zero"
            ))
        );
    }
    assert_eq!(daemon_interval(Some("1ms"), &None), Ok((0, 1_000_000)));
}

#[test]
fn what_woke_the_daemon_has_a_word() {
    assert_eq!(DaemonWake::Interval.as_text(), "interval");
    let woken = DaemonWake::Event {
        events: 2,
        reconnects: 1,
    };
    assert_eq!(woken.as_text(), "event");
    assert_eq!(DaemonWake::Reload.as_text(), "reload");
    assert_eq!(DaemonWake::Terminate.as_text(), "terminate");
}

#[test]
fn a_record_goes_before_an_ancestor_that_it_reaches_through_a_kept_one() {
    let record = |id: &str, parents: &[&str], action: Action| {
        let mut made = decision(action, false, "build-cache");
        made.resource.kind = ResourceKind::BuildCache;
        made.resource.id = id.to_owned();
        made.resource.name = id.to_owned();
        made.resource.parent_ids = parents.iter().map(|id| (*id).to_owned()).collect();
        made
    };
    let targets = ordered_removal_targets(&Plan {
        decisions: vec![
            record("a-root", &[], Action::Remove),
            record("between", &["a-root"], Action::Keep),
            record("z-leaf", &["between"], Action::Remove),
        ],
    });
    let ids = targets
        .iter()
        .map(|target| target.resource.id.as_str())
        .collect::<Vec<_>>();
    assert_eq!(ids, vec!["z-leaf", "a-root"]);
}
