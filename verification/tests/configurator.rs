//! The survey, the proposal made from it, and the checks before it is written.

use docker_maid::candidate::{
    candidate_display_indices, parse_resource_kind, CandidateSelector, ConfiguratorError,
};
use docker_maid::config::{
    BuildCacheRule, CommonRule, Config, ConfigError, ContainerRule, ImageRule, NetworkRule,
    RuleScope, Rules, Selectors, VolumeRule,
};
use docker_maid::generate::MANAGED_ID_PREFIX;
use docker_maid::managed::{
    render_managed_source, strip_managed_region, MANAGED_END, MANAGED_START,
};
use docker_maid::preview::refresh_candidate_warnings;
use docker_maid::profile::PolicyProfile;
use docker_maid::proposal::{
    accept_proposal, configuration_target_path, manual_source, parse_config_source, plan_write,
    propose_configuration, proposed_rules, write_result, ConfigProposal, ProposalRequest,
};
use docker_maid::resource::{InventoryItem, ResourceKind, ResourceState};
use docker_maid::setup::managed_candidate_ids;
use docker_maid::survey::{add_name_prefix_candidate, survey_inventory};
use docker_maid::text_map::Labels;
use toml::{Table, Value};

fn text(table: &Table, key: &str) -> Option<String> {
    table
        .get(key)
        .map(|value| value.as_str().expect("a string").to_owned())
}

fn flag(table: &Table, key: &str) -> bool {
    table
        .get(key)
        .map_or(false, |value| value.as_bool().expect("a boolean"))
}

fn texts(table: &Table, key: &str) -> Vec<String> {
    table.get(key).map_or_else(Vec::new, |value| {
        value
            .as_array()
            .expect("an array")
            .iter()
            .map(|entry| entry.as_str().expect("a string").to_owned())
            .collect()
    })
}

fn inner<'a>(table: &'a Table, key: &str) -> Option<&'a Table> {
    table.get(key).map(|value| value.as_table().expect("a table"))
}

fn tables<'a>(table: Option<&'a Table>, key: &str) -> Vec<&'a Table> {
    table
        .and_then(|outer| outer.get(key))
        .map_or_else(Vec::new, |value| {
            value
                .as_array()
                .expect("an array of tables")
                .iter()
                .map(|entry| entry.as_table().expect("a table"))
                .collect()
        })
}

fn common(table: &Table) -> CommonRule {
    let empty = Table::new();
    let select = inner(table, "select").unwrap_or(&empty);
    CommonRule {
        id: text(table, "id"),
        name: text(table, "name").expect("a name"),
        description: text(table, "description"),
        select: Selectors {
            labels: texts(select, "labels"),
            names: texts(select, "names"),
            name_parts: texts(select, "name_parts"),
        },
        scope: if text(table, "scope").as_deref() == Some("all") {
            RuleScope::All
        } else {
            RuleScope::Owned
        },
        allow_unscoped: flag(table, "allow_unscoped"),
    }
}

/// Refuses a key that no table has, the way a strict reader words it: the
/// source behind a gutter, then the message.
fn refuse_unknown(source: &str, table: &Table, known: &[&str]) -> Result<(), ConfigError> {
    for key in table.keys() {
        if !known.contains(&key.as_str()) {
            let mut message = String::from("TOML parse error\n  |\n");
            for (index, line) in source.lines().enumerate() {
                message.push_str(&format!("{} | {line}\n", index + 1));
            }
            message.push_str(&format!("unknown field `{key}`\n"));
            return Err(ConfigError::Parse {
                path: "test.toml".to_owned(),
                message,
            });
        }
    }
    Ok(())
}

const COMMON: [&str; 6] = [
    "id",
    "name",
    "description",
    "select",
    "scope",
    "allow_unscoped",
];

fn rule_keys(own: &[&'static str]) -> Vec<&'static str> {
    let mut keys = COMMON.to_vec();
    keys.extend_from_slice(own);
    keys
}

fn read_config(source: &str) -> Result<Config, ConfigError> {
    let root = source
        .parse::<Table>()
        .map_err(|error| ConfigError::Parse {
            path: "test.toml".to_owned(),
            message: error.to_string(),
        })?;
    refuse_unknown(source, &root, &["defaults", "protect", "rules", "tui"])?;
    let mut config = Config::default();
    if let Some(defaults) = inner(&root, "defaults") {
        refuse_unknown(source, defaults, &["interval"])?;
        config.defaults.interval = text(defaults, "interval");
    }
    if let Some(protect) = inner(&root, "protect") {
        refuse_unknown(source, protect, &["names", "labels"])?;
        config.protect.names = texts(protect, "names");
        config.protect.labels = texts(protect, "labels");
    }
    if let Some(tui) = inner(&root, "tui") {
        refuse_unknown(source, tui, &["refresh"])?;
        config.tui.refresh = text(tui, "refresh");
    }
    let rules = inner(&root, "rules");
    for table in tables(rules, "containers") {
        refuse_unknown(source, table, &rule_keys(&["stopped_ttl", "running_ttl"]))?;
        config.rules.containers.push(ContainerRule {
            common: common(table),
            stopped_ttl: text(table, "stopped_ttl"),
            running_ttl: text(table, "running_ttl"),
        });
    }
    for table in tables(rules, "images") {
        refuse_unknown(
            source,
            table,
            &rule_keys(&["dangling", "unused_for", "image_tag_patterns"]),
        )?;
        config.rules.images.push(ImageRule {
            common: common(table),
            dangling: flag(table, "dangling"),
            unused_for: text(table, "unused_for"),
            image_tag_patterns: texts(table, "image_tag_patterns"),
        });
    }
    for table in tables(rules, "volumes") {
        refuse_unknown(source, table, &rule_keys(&["orphan_for"]))?;
        config.rules.volumes.push(VolumeRule {
            common: common(table),
            orphan_for: text(table, "orphan_for"),
        });
    }
    for table in tables(rules, "networks") {
        refuse_unknown(source, table, &rule_keys(&["orphan", "orphan_for"]))?;
        config.rules.networks.push(NetworkRule {
            common: common(table),
            orphan: flag(table, "orphan"),
            orphan_for: text(table, "orphan_for"),
        });
    }
    if let Some(table) = rules.and_then(|outer| inner(outer, "build_cache")) {
        refuse_unknown(
            source,
            table,
            &["id", "older_than", "max_bytes", "allow_unscoped"],
        )?;
        config.rules.build_cache = Some(BuildCacheRule {
            id: text(table, "id"),
            older_than: text(table, "older_than"),
            max_bytes: table
                .get("max_bytes")
                .map(|value| value.as_integer().expect("an integer") as u64),
            allow_unscoped: flag(table, "allow_unscoped"),
        });
    }
    Ok(config)
}

fn put(table: &mut Table, key: &str, value: &Option<String>) {
    if let Some(text) = value {
        table.insert(key.to_owned(), Value::String(text.clone()));
    }
}

fn list(values: &[String]) -> Value {
    Value::Array(values.iter().cloned().map(Value::String).collect())
}

fn write_common(rule: &CommonRule) -> Table {
    let mut table = Table::new();
    put(&mut table, "id", &rule.id);
    put(&mut table, "name", &Some(rule.name.clone()));
    put(&mut table, "description", &rule.description);
    let mut select = Table::new();
    select.insert("labels".to_owned(), list(&rule.select.labels));
    select.insert("names".to_owned(), list(&rule.select.names));
    select.insert("name_parts".to_owned(), list(&rule.select.name_parts));
    table.insert("select".to_owned(), Value::Table(select));
    if rule.allow_unscoped {
        table.insert("allow_unscoped".to_owned(), Value::Boolean(true));
        put(&mut table, "scope", &Some("all".to_owned()));
    }
    table
}

fn write_rules(rules: &Rules) -> Result<String, ConfigError> {
    let mut all = Table::new();
    let mut entries: Vec<(&str, Vec<Value>)> = Vec::new();
    let mut containers = Vec::new();
    for rule in &rules.containers {
        let mut table = write_common(&rule.common);
        put(&mut table, "stopped_ttl", &rule.stopped_ttl);
        put(&mut table, "running_ttl", &rule.running_ttl);
        containers.push(Value::Table(table));
    }
    entries.push(("containers", containers));
    let mut images = Vec::new();
    for rule in &rules.images {
        let mut table = write_common(&rule.common);
        table.insert("dangling".to_owned(), Value::Boolean(rule.dangling));
        put(&mut table, "unused_for", &rule.unused_for);
        table.insert("image_tag_patterns".to_owned(), list(&rule.image_tag_patterns));
        images.push(Value::Table(table));
    }
    entries.push(("images", images));
    let mut volumes = Vec::new();
    for rule in &rules.volumes {
        let mut table = write_common(&rule.common);
        put(&mut table, "orphan_for", &rule.orphan_for);
        volumes.push(Value::Table(table));
    }
    entries.push(("volumes", volumes));
    let mut networks = Vec::new();
    for rule in &rules.networks {
        let mut table = write_common(&rule.common);
        table.insert("orphan".to_owned(), Value::Boolean(rule.orphan));
        put(&mut table, "orphan_for", &rule.orphan_for);
        networks.push(Value::Table(table));
    }
    entries.push(("networks", networks));
    for (key, values) in entries {
        if !values.is_empty() {
            all.insert(key.to_owned(), Value::Array(values));
        }
    }
    if let Some(rule) = &rules.build_cache {
        let mut table = Table::new();
        put(&mut table, "id", &rule.id);
        put(&mut table, "older_than", &rule.older_than);
        if let Some(bytes) = rule.max_bytes {
            table.insert("max_bytes".to_owned(), Value::Integer(bytes as i64));
        }
        table.insert(
            "allow_unscoped".to_owned(),
            Value::Boolean(rule.allow_unscoped),
        );
        all.insert("build_cache".to_owned(), Value::Table(table));
    }
    let mut root = Table::new();
    root.insert("rules".to_owned(), Value::Table(all));
    toml::to_string(&root).map_err(|error| ConfigError::Serialize(error.to_string()))
}

/// Reads and renders around the steps of a proposal.
fn propose(request: &ProposalRequest<'_>) -> Result<ConfigProposal, ConfiguratorError> {
    let source = manual_source(request)?;
    let manual = parse_config_source(&source, read_config(&source))?;
    let choice = proposed_rules(request, &manual)?;
    let rendered = write_rules(&choice.rules);
    let text = rendered.as_deref().expect("rules can be rendered").to_owned();
    let resulting = render_managed_source(&source, &text).expect("a document");
    propose_configuration(
        request,
        read_config(&source),
        rendered,
        read_config(&resulting),
    )
}

fn item(kind: ResourceKind, id: &str, name: &str, labels: &[(&str, &str)]) -> InventoryItem {
    InventoryItem {
        kind,
        id: id.to_owned(),
        name: name.to_owned(),
        search_names: vec![name.to_owned()],
        parent_ids: Vec::new(),
        labels: Labels::from_pairs(
            labels
                .iter()
                .map(|(key, value)| ((*key).to_owned(), (*value).to_owned()))
                .collect(),
        ),
        mounts: Vec::new(),
        state: if kind == ResourceKind::Container {
            ResourceState::Stopped
        } else {
            ResourceState::Available
        },
        created_at: Some(1),
        state_since: Some(1),
        size: Some(10),
        referenced: false,
        dangling: false,
        system: false,
    }
}

#[test]
fn survey_uses_exact_compose_evidence_and_keeps_unlabeled_unowned() {
    let inventory = vec![
        item(
            ResourceKind::Container,
            "c1",
            "project-web",
            &[("com.docker.compose.project", "project")],
        ),
        item(ResourceKind::Volume, "v1", "unowned", &[]),
    ];
    let mut survey = survey_inventory(&inventory);
    assert_eq!(survey.candidates.len(), 1);
    assert_eq!(survey.summary.candidate_resources, 1);
    assert_eq!(survey.summary.unowned_resources, 1);
    assert!(matches!(
        survey.candidates[0].selector,
        CandidateSelector::ExactLabel { .. }
    ));
    refresh_candidate_warnings(
        &mut survey,
        &PolicyProfile::Workstation.settings(),
        &inventory,
        10_000,
    );
    let warning = survey.candidates[0]
        .warning
        .as_deref()
        .expect("Compose warning");
    assert!(warning.contains("docker compose down"));
    assert!(warning.contains("stopped containers become eligible after 2h"));
}

#[test]
fn display_order_keeps_the_canonical_candidate_vector_unchanged() {
    let inventory = vec![
        item(
            ResourceKind::Container,
            "compose",
            "project-web",
            &[("com.docker.compose.project", "project")],
        ),
        item(
            ResourceKind::Container,
            "agent",
            "agent-web",
            &[("devcontainer.local_folder", "/workspace")],
        ),
        item(ResourceKind::BuildCache, "cache", "cache", &[]),
    ];
    let survey = survey_inventory(&inventory);
    let canonical = survey
        .candidates
        .iter()
        .map(|candidate| candidate.id.clone())
        .collect::<Vec<_>>();
    assert!(canonical[0].starts_with("agent-label/"));
    assert_eq!(canonical[1], "build-cache");
    assert!(canonical[2].starts_with("compose/"));

    let display = candidate_display_indices(&survey.candidates)
        .into_iter()
        .map(|index| survey.candidates[index].id.clone())
        .collect::<Vec<_>>();
    assert!(display[0].starts_with("agent-label/"));
    assert!(display[1].starts_with("compose/"));
    assert_eq!(display[2], "build-cache");
    assert_eq!(
        canonical,
        survey
            .candidates
            .iter()
            .map(|candidate| candidate.id.clone())
            .collect::<Vec<_>>()
    );
}

#[test]
fn compose_warning_tracks_generated_policy_and_zero_pending_running_preview() {
    let mut container = item(
        ResourceKind::Container,
        "container",
        "project-web",
        &[("com.docker.compose.project", "project")],
    );
    container.state = ResourceState::Running;
    let mut volume = item(
        ResourceKind::Volume,
        "volume",
        "project-data",
        &[("com.docker.compose.project", "project")],
    );
    volume.referenced = true;
    let mut network = item(
        ResourceKind::Network,
        "network",
        "project_default",
        &[("com.docker.compose.project", "project")],
    );
    network.referenced = true;
    let inventory = vec![container, volume, network];
    let mut survey = survey_inventory(&inventory);
    let mut policy = PolicyProfile::Workstation.settings();
    policy.stopped_container_ttl = "3h".to_owned();
    policy.volume_ttl = "5d".to_owned();
    refresh_candidate_warnings(&mut survey, &policy, &inventory, 10_000);

    let candidate = &survey.candidates[0];
    let warning = candidate.warning.as_deref().expect("Compose warning");
    assert!(warning.contains("preview zero removals now"));
    assert!(warning.contains("stopped containers become eligible after 3h"));
    assert!(warning.contains(
        "detached volumes become eligible immediately when their resource age already exceeds 5d"
    ));
    assert!(warning.contains("empty networks become eligible immediately"));

    let proposal = propose(&ProposalRequest {
        base_source: "",
        source_existed: false,
        target_path: "config.toml",
        survey: &survey,
        inventory: &inventory,
        profile: PolicyProfile::Workstation,
        policy: Some(&policy),
        candidate_ids: &vec![candidate.id.clone()],
        now_epoch_seconds: 10_000,
        context: None,
    })
    .expect("proposal");
    assert_eq!(proposal.preview.after_pending, 0);
    assert_eq!(proposal.warnings, vec![warning.to_owned()]);
}

#[test]
fn compose_warning_states_pending_count_instead_of_zero_claim_when_past_ttl() {
    let container = item(
        ResourceKind::Container,
        "c1",
        "project-web",
        &[("com.docker.compose.project", "project")],
    );
    let volume = item(
        ResourceKind::Volume,
        "v1",
        "project-data",
        &[("com.docker.compose.project", "project")],
    );
    let inventory = vec![container, volume];
    let mut survey = survey_inventory(&inventory);
    let policy = PolicyProfile::Workstation.settings();
    refresh_candidate_warnings(&mut survey, &policy, &inventory, 1_000_000);

    let candidate = &survey.candidates[0];
    let warning = candidate.warning.as_deref().expect("Compose warning");
    assert!(!warning.contains("zero removals now"), "{warning}");
    assert!(
        warning.contains("currently previews 2 pending removal(s)"),
        "{warning}"
    );

    let proposal = propose(&ProposalRequest {
        base_source: "",
        source_existed: false,
        target_path: "config.toml",
        survey: &survey,
        inventory: &inventory,
        profile: PolicyProfile::Workstation,
        policy: Some(&policy),
        candidate_ids: &vec![candidate.id.clone()],
        now_epoch_seconds: 1_000_000,
        context: None,
    })
    .expect("proposal");
    assert_eq!(proposal.preview.after_pending, 2);
    assert_eq!(proposal.warnings, vec![warning.to_owned()]);
}

#[test]
fn survey_and_proposal_warnings_are_byte_identical_for_a_profile() {
    let inventory = vec![item(
        ResourceKind::Network,
        "n1",
        "project_default",
        &[("com.docker.compose.project", "project")],
    )];
    let mut survey = survey_inventory(&inventory);
    refresh_candidate_warnings(
        &mut survey,
        &PolicyProfile::SharedHost.settings(),
        &inventory,
        10_000,
    );
    let survey_warning = survey.candidates[0]
        .warning
        .clone()
        .expect("Compose warning");

    let proposal = propose(&ProposalRequest {
        base_source: "",
        source_existed: false,
        target_path: "config.toml",
        survey: &survey,
        inventory: &inventory,
        profile: PolicyProfile::SharedHost,
        policy: None,
        candidate_ids: &vec![survey.candidates[0].id.clone()],
        now_epoch_seconds: 10_000,
        context: None,
    })
    .expect("proposal");
    assert_eq!(proposal.warnings, vec![survey_warning]);
}

#[test]
fn proposal_is_deterministic_and_preserves_manual_source() {
    let source = "# keep this comment\n\n[[rules.networks]]\nname = \"manual\"\norphan = true\nselect.names = [\"^manual$\"]\n";
    let inventory = vec![item(
        ResourceKind::Volume,
        "v1",
        "project-data",
        &[("com.docker.compose.project", "project")],
    )];
    let survey = survey_inventory(&inventory);
    let ids = vec![survey.candidates[0].id.clone()];
    let first = propose(&ProposalRequest {
        base_source: source,
        source_existed: true,
        target_path: "config.toml",
        survey: &survey,
        inventory: &inventory,
        profile: PolicyProfile::Workstation,
        policy: None,
        candidate_ids: &ids,
        now_epoch_seconds: 10_000,
        context: None,
    })
    .expect("proposal");
    let second = propose(&ProposalRequest {
        base_source: source,
        source_existed: true,
        target_path: "config.toml",
        survey: &survey,
        inventory: &inventory,
        profile: PolicyProfile::Workstation,
        policy: None,
        candidate_ids: &ids,
        now_epoch_seconds: 10_000,
        context: None,
    })
    .expect("proposal");
    assert_eq!(first, second);
    assert!(first.resulting_source.starts_with("# keep this comment"));
    assert!(first.resulting_source.contains(MANAGED_START));
    assert!(first.resulting_source.contains("orphan_for = \"48h\""));
}

#[test]
fn overlapping_candidates_are_refused() {
    let inventory = vec![item(
        ResourceKind::Container,
        "c1",
        "project-web",
        &[
            ("com.docker.compose.project", "project"),
            ("devcontainer.local_folder", "/workspace"),
        ],
    )];
    let survey = survey_inventory(&inventory);
    let ids = survey
        .candidates
        .iter()
        .map(|candidate| candidate.id.clone())
        .collect::<Vec<_>>();
    let error = propose(&ProposalRequest {
        base_source: "",
        source_existed: false,
        target_path: "config.toml",
        survey: &survey,
        inventory: &inventory,
        profile: PolicyProfile::SharedHost,
        policy: None,
        candidate_ids: &ids,
        now_epoch_seconds: 10_000,
        context: None,
    })
    .expect_err("overlap");
    assert!(error.message().contains("overlap"));
}

#[test]
fn exact_label_evidence_escapes_glob_metacharacters() {
    let inventory = vec![item(
        ResourceKind::Container,
        "c1",
        "agent",
        &[("devcontainer.local_folder", "/work/[agent]*")],
    )];
    let survey = survey_inventory(&inventory);
    let candidate_ids = vec![survey.candidates[0].id.clone()];
    let proposal = propose(&ProposalRequest {
        base_source: "",
        source_existed: false,
        target_path: "config.toml",
        survey: &survey,
        inventory: &inventory,
        profile: PolicyProfile::Workstation,
        policy: None,
        candidate_ids: &candidate_ids,
        now_epoch_seconds: 10_000,
        context: None,
    })
    .expect("proposal");
    assert!(
        proposal
            .resulting_source
            .contains(r"devcontainer.local_folder=/work/\[agent\]\*"),
        "{}",
        proposal.resulting_source
    );
    assert_eq!(proposal.preview.after_pending, 1);
}

fn network_proposal(source: &str) -> (ConfigProposal, Vec<InventoryItem>) {
    let inventory = vec![item(
        ResourceKind::Network,
        "n1",
        "project_default",
        &[("com.docker.compose.project", "project")],
    )];
    let survey = survey_inventory(&inventory);
    let proposal = propose(&ProposalRequest {
        base_source: source,
        source_existed: !source.is_empty(),
        target_path: "config.toml",
        survey: &survey,
        inventory: &inventory,
        profile: PolicyProfile::SharedHost,
        policy: None,
        candidate_ids: &vec![survey.candidates[0].id.clone()],
        now_epoch_seconds: 10_000,
        context: None,
    })
    .expect("proposal");
    (proposal, inventory)
}

#[test]
fn writer_rejects_source_and_inventory_drift() {
    let (proposal, inventory) = network_proposal("");
    let read = || read_config(&proposal.resulting_source);
    accept_proposal(&proposal, &inventory, "", read()).expect("nothing changed");

    let mut drifted = inventory.clone();
    drifted[0].name.push_str("-changed");
    let error = accept_proposal(&proposal, &drifted, "", read()).expect_err("inventory drift");
    assert!(matches!(error, ConfiguratorError::Stale(_)));
    assert!(error.message().contains("inventory changed"));

    let mut attached = inventory.clone();
    attached[0].referenced = true;
    let error = accept_proposal(&proposal, &attached, "", read()).expect_err("inventory drift");
    assert!(error.message().contains("inventory changed"));

    let error =
        accept_proposal(&proposal, &inventory, "# changed\n", read()).expect_err("source drift");
    assert!(matches!(error, ConfiguratorError::Stale(_)));
    assert!(error.message().contains("configuration changed"));

    let mut forged = network_proposal("").0;
    forged.resulting_source.push_str("# more\n");
    let error = accept_proposal(&forged, &inventory, "", read()).expect_err("payload drift");
    assert!(matches!(error, ConfiguratorError::Invalid(_)));

    let mut future = network_proposal("").0;
    future.schema_version = 9;
    let error = accept_proposal(&future, &inventory, "", read()).expect_err("version");
    assert!(error.message().contains("unsupported proposal schema_version 9"));
}

#[test]
fn a_second_proposal_replaces_only_the_managed_region() {
    let manual = "# mine\n[protect]\nnames = [\"^db$\"]\n";
    let (first, _) = network_proposal(manual);
    let (second, _) = network_proposal(&first.resulting_source);
    assert_eq!(first.resulting_source, second.resulting_source);
    assert_eq!(first.proposal_id, second.proposal_id);
    assert_eq!(first.preview, second.preview);
    assert_eq!(first.result_source_hash, second.base_source_hash);
    assert_eq!(second.resulting_source.matches(MANAGED_START).count(), 1);
    assert_eq!(second.resulting_source.matches(MANAGED_END).count(), 1);
    assert!(second.resulting_source.starts_with(manual.trim_end()));
    assert_eq!(
        strip_managed_region(&second.resulting_source).expect("complete").trim_end(),
        manual.trim_end()
    );
    assert!(strip_managed_region(MANAGED_START).is_none());
    assert!(strip_managed_region(&format!("{MANAGED_END}\n{MANAGED_START}")).is_none());
}

#[test]
fn a_region_that_is_no_toml_is_refused() {
    assert!(render_managed_source("", "[[[")
        .expect_err("not TOML")
        .starts_with("generated TOML cannot be edited safely: "));
}

#[test]
fn generated_rules_are_found_again_by_their_ids() {
    let (proposal, inventory) = network_proposal("");
    let config = read_config(&proposal.resulting_source).expect("readable");
    for id in &proposal.generated_rule_ids {
        assert!(id.starts_with(MANAGED_ID_PREFIX));
    }
    let survey = survey_inventory(&inventory);
    assert_eq!(
        managed_candidate_ids(&config, &survey),
        proposal.candidate_ids
    );
    assert!(managed_candidate_ids(&Config::default(), &survey).is_empty());
}

#[test]
fn a_request_must_choose_known_families_once() {
    let inventory = vec![item(
        ResourceKind::Network,
        "n1",
        "project_default",
        &[("com.docker.compose.project", "project")],
    )];
    let survey = survey_inventory(&inventory);
    let id = survey.candidates[0].id.clone();
    let ask = |ids: &Vec<String>| {
        propose(&ProposalRequest {
            base_source: "",
            source_existed: false,
            target_path: "config.toml",
            survey: &survey,
            inventory: &inventory,
            profile: PolicyProfile::SharedHost,
            policy: None,
            candidate_ids: ids,
            now_epoch_seconds: 10_000,
            context: None,
        })
        .expect_err("refused")
        .message()
    };
    assert_eq!(
        ask(&Vec::new()),
        "select at least one discovered candidate"
    );
    assert_eq!(
        ask(&vec![id.clone(), id]),
        "candidate IDs must not be repeated"
    );
    assert!(ask(&vec!["compose/none".to_owned()]).contains("is not present in snapshot"));
}

#[test]
fn a_name_prefix_becomes_a_family_of_what_it_matches() {
    let inventory = vec![
        item(ResourceKind::Volume, "v1", "scratch-a", &[]),
        item(ResourceKind::Volume, "v2", "scratch-b", &[]),
        item(ResourceKind::Volume, "v3", "other", &[]),
    ];
    let mut survey = survey_inventory(&inventory);
    assert!(survey.candidates.is_empty());
    let id = add_name_prefix_candidate(&mut survey, &inventory, ResourceKind::Volume, "scratch-")
        .expect("a prefix");
    assert!(id.starts_with("name-prefix/volume/scratch-"));
    assert_eq!(survey.candidates[0].resources.len(), 2);
    assert_eq!(survey.summary.unowned_resources, 1);
    for (kind, prefix) in [
        (ResourceKind::Volume, " "),
        (ResourceKind::Volume, "none-"),
        (ResourceKind::BuildCache, "scratch-"),
    ] {
        assert!(add_name_prefix_candidate(&mut survey, &inventory, kind, prefix).is_err());
    }
    assert_eq!(survey.candidates.len(), 1);
}

#[test]
fn kinds_and_profiles_are_read_by_their_words() {
    for kind in [
        ResourceKind::Container,
        ResourceKind::Image,
        ResourceKind::Volume,
        ResourceKind::Network,
        ResourceKind::BuildCache,
    ] {
        assert_eq!(parse_resource_kind(kind.as_text()), Some(kind));
    }
    assert_eq!(parse_resource_kind("pod"), None);
    for profile in PolicyProfile::all() {
        assert_eq!(PolicyProfile::from_text(profile.as_text()), Ok(profile));
        profile.settings().validate().expect("a profile is valid");
    }
    assert!(PolicyProfile::from_text("laptop").is_err());
}

#[test]
fn settings_are_checked_one_by_one() {
    let mut settings = PolicyProfile::Workstation.settings();
    settings.volume_ttl = "soon".to_owned();
    let message = settings.validate().expect_err("no duration").message();
    assert!(message.contains("volume TTL"), "{message}");
    let mut settings = PolicyProfile::Workstation.settings();
    settings.image_ttl = "0s".to_owned();
    assert!(settings.validate().is_err());
}

#[test]
fn the_target_is_explicit_then_loaded_then_the_configuration_home() {
    let some = |text: &str| Some(text.to_owned());
    assert_eq!(
        configuration_target_path(&some("e"), &some("l"), &some("/x"), &some("/h")).expect("e"),
        "e"
    );
    assert_eq!(
        configuration_target_path(&None, &some("l"), &some("/x"), &some("/h")).expect("l"),
        "l"
    );
    assert_eq!(
        configuration_target_path(&None, &None, &some("/x"), &some("/h")).expect("x"),
        "/x/docker_maid/config.toml"
    );
    assert_eq!(
        configuration_target_path(&None, &None, &None, &some("/h")).expect("h"),
        "/h/.config/docker_maid/config.toml"
    );
    assert!(configuration_target_path(&None, &None, &None, &None).is_err());
}

#[test]
fn a_write_keeps_what_stood_there() {
    let fresh = plan_write("config.toml", "", "", 7, 11, 3).expect("a new file");
    assert_eq!(fresh.backup, None);
    let kept = plan_write("config.toml", "a", "a", 7, 11, 3).expect("an old file");
    assert!(kept.backup.expect("a backup").contains("config.toml"));
    assert_ne!(kept.temporary, "config.toml");
    let error = plan_write("config.toml", "a", "b", 7, 11, 3).expect_err("changed");
    assert!(matches!(error, ConfiguratorError::Stale(_)));
    let (proposal, _) = network_proposal("");
    let result = write_result(&proposal, None);
    assert_eq!(result.path, "config.toml");
    assert_eq!(result.backup_path, None);
}

#[test]
fn adding_a_prefix_again_changes_nothing() {
    let inventory = vec![
        item(ResourceKind::Volume, "v1", "scratch-a", &[]),
        item(
            ResourceKind::Volume,
            "v2",
            "other",
            &[("com.docker.compose.project", "project")],
        ),
        item(ResourceKind::Network, "n1", "scratch-net", &[]),
    ];
    let mut survey = survey_inventory(&inventory);
    let others = survey.candidates.clone();
    let first = add_name_prefix_candidate(&mut survey, &inventory, ResourceKind::Volume, "scratch-")
        .expect("a prefix");
    let once = survey.clone();
    let second =
        add_name_prefix_candidate(&mut survey, &inventory, ResourceKind::Volume, "scratch-")
            .expect("the same prefix");
    assert_eq!(first, second);
    assert_eq!(survey, once);
    let ids = once
        .candidates
        .iter()
        .map(|family| family.id.as_str())
        .collect::<Vec<_>>();
    assert_eq!(ids.iter().filter(|id| **id == first).count(), 1);
    assert!(ids.windows(2).all(|pair| pair[0] < pair[1]));
    for family in &others {
        assert!(once.candidates.contains(family));
    }
}
