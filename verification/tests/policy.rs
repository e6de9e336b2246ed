//! Configurations: what they may say, and what plan they make.

use docker_maid::agent_skill::skill_by_name;
use docker_maid::config::{
    config_search_paths, resolve_config_path, retired_key_names, BuildCacheRule, CommonRule,
    Config, ConfigError, ContainerRule, ImageRule, NetworkRule, RuleScope, Selectors, VolumeRule,
    DEFAULT_CONFIG,
};
use docker_maid::observation::ObservationState;
use docker_maid::plan::{
    build_plan, build_plan_with_context, Action, Disposition, PlanContext,
};
use docker_maid::resource::{InventoryItem, ResourceKind, ResourceState};
use docker_maid::state::{ProtectionEntry, ProtectionKind, ProtectionState};
use docker_maid::text_map::Labels;
use toml::Table;

const NOW: i64 = 2_000_000;

fn text(table: &Table, key: &str) -> Option<String> {
    table
        .get(key)
        .map(|value| value.as_str().expect("a string").to_owned())
}

fn flag(table: &Table, key: &str) -> bool {
    table
        .get(key)
        .map_or(false, |value| value.as_bool().expect("a boolean"))
}

fn texts(table: &Table, key: &str) -> Vec<String> {
    table.get(key).map_or_else(Vec::new, |value| {
        value
            .as_array()
            .expect("an array")
            .iter()
            .map(|entry| entry.as_str().expect("a string").to_owned())
            .collect()
    })
}

fn inner<'a>(table: &'a Table, key: &str) -> Option<&'a Table> {
    table.get(key).map(|value| value.as_table().expect("a table"))
}

fn tables<'a>(table: Option<&'a Table>, key: &str) -> Vec<&'a Table> {
    table
        .and_then(|outer| outer.get(key))
        .map_or_else(Vec::new, |value| {
            value
                .as_array()
                .expect("an array of tables")
                .iter()
                .map(|entry| entry.as_table().expect("a table"))
                .collect()
        })
}

fn common(table: &Table) -> CommonRule {
    let empty = Table::new();
    let select = inner(table, "select").unwrap_or(&empty);
    CommonRule {
        id: text(table, "id"),
        name: text(table, "name").expect("a name"),
        description: text(table, "description"),
        select: Selectors {
            labels: texts(select, "labels"),
            names: texts(select, "names"),
            name_parts: texts(select, "name_parts"),
        },
        scope: if text(table, "scope").as_deref() == Some("all") {
            RuleScope::All
        } else {
            RuleScope::Owned
        },
        allow_unscoped: flag(table, "allow_unscoped"),
    }
}

/// Refuses a key that no table has, the way a strict reader words it: the
/// source behind a gutter, then the message.
fn refuse_unknown(source: &str, table: &Table, known: &[&str]) -> Result<(), ConfigError> {
    for key in table.keys() {
        if !known.contains(&key.as_str()) {
            let mut message = String::from("TOML parse error\n  |\n");
            for (index, line) in source.lines().enumerate() {
                message.push_str(&format!("{} | {line}\n", index + 1));
            }
            message.push_str(&format!("unknown field `{key}`\n"));
            return Err(ConfigError::Parse {
                path: "test.toml".to_owned(),
                message,
            });
        }
    }
    Ok(())
}

const COMMON: [&str; 6] = [
    "id",
    "name",
    "description",
    "select",
    "scope",
    "allow_unscoped",
];

fn rule_keys(own: &[&'static str]) -> Vec<&'static str> {
    let mut keys = COMMON.to_vec();
    keys.extend_from_slice(own);
    keys
}

fn read_config(source: &str) -> Result<Config, ConfigError> {
    let root = source
        .parse::<Table>()
        .map_err(|error| ConfigError::Parse {
            path: "test.toml".to_owned(),
            message: error.to_string(),
        })?;
    refuse_unknown(source, &root, &["defaults", "protect", "rules", "tui"])?;
    let mut config = Config::default();
    if let Some(defaults) = inner(&root, "defaults") {
        refuse_unknown(source, defaults, &["interval"])?;
        config.defaults.interval = text(defaults, "interval");
    }
    if let Some(protect) = inner(&root, "protect") {
        refuse_unknown(source, protect, &["names", "labels"])?;
        config.protect.names = texts(protect, "names");
        config.protect.labels = texts(protect, "labels");
    }
    if let Some(tui) = inner(&root, "tui") {
        refuse_unknown(source, tui, &["refresh"])?;
        config.tui.refresh = text(tui, "refresh");
    }
    let rules = inner(&root, "rules");
    for table in tables(rules, "containers") {
        refuse_unknown(source, table, &rule_keys(&["stopped_ttl", "running_ttl"]))?;
        config.rules.containers.push(ContainerRule {
            common: common(table),
            stopped_ttl: text(table, "stopped_ttl"),
            running_ttl: text(table, "running_ttl"),
        });
    }
    for table in tables(rules, "images") {
        refuse_unknown(
            source,
            table,
            &rule_keys(&["dangling", "unused_for", "image_tag_patterns"]),
        )?;
        config.rules.images.push(ImageRule {
            common: common(table),
            dangling: flag(table, "dangling"),
            unused_for: text(table, "unused_for"),
            image_tag_patterns: texts(table, "image_tag_patterns"),
        });
    }
    for table in tables(rules, "volumes") {
        refuse_unknown(source, table, &rule_keys(&["orphan_for"]))?;
        config.rules.volumes.push(VolumeRule {
            common: common(table),
            orphan_for: text(table, "orphan_for"),
        });
    }
    for table in tables(rules, "networks") {
        refuse_unknown(source, table, &rule_keys(&["orphan", "orphan_for"]))?;
        config.rules.networks.push(NetworkRule {
            common: common(table),
            orphan: flag(table, "orphan"),
            orphan_for: text(table, "orphan_for"),
        });
    }
    if let Some(table) = rules.and_then(|outer| inner(outer, "build_cache")) {
        refuse_unknown(
            source,
            table,
            &["id", "older_than", "max_bytes", "allow_unscoped"],
        )?;
        config.rules.build_cache = Some(BuildCacheRule {
            id: text(table, "id"),
            older_than: text(table, "older_than"),
            max_bytes: table
                .get("max_bytes")
                .map(|value| value.as_integer().expect("an integer") as u64),
            allow_unscoped: flag(table, "allow_unscoped"),
        });
    }
    Ok(config)
}

fn config(source: &str) -> Config {
    let config = read_config(source).expect("parse config");
    config.validate().expect("validate config");
    config
}

fn item(kind: ResourceKind, name: &str) -> InventoryItem {
    InventoryItem {
        kind,
        id: format!("id-{name}"),
        name: name.to_owned(),
        search_names: vec![name.to_owned()],
        parent_ids: Vec::new(),
        labels: Labels::new(),
        mounts: Vec::new(),
        state: ResourceState::Available,
        created_at: Some(NOW - 86_400),
        state_since: None,
        size: None,
        referenced: false,
        dangling: false,
        system: false,
    }
}

#[test]
fn the_starter_is_a_valid_configuration() {
    let starter = config(DEFAULT_CONFIG);
    assert!(starter.rules.is_empty());
}

#[test]
fn unknown_rule_key_is_rejected() {
    let source = "[[rules.containers]]\nname = \"agents\"\nstopped_ttl = \"2h\"\nselect.names = [\"^agent-\"]\nadpot = true\n";
    let error = read_config(source).expect_err("must reject typo");
    let message = error.message();
    assert!(message.contains("unknown field `adpot`"));
    assert!(!message.contains("retired key"));
}

#[test]
fn the_retired_adopt_key_is_refused_and_names_its_migration() {
    let source = "[[rules.containers]]\nname = \"agents\"\nstopped_ttl = \"2h\"\nselect.names = [\"^agent-\"]\nadopt = true\n";
    let error = read_config(source).expect_err("must reject retired key");
    let message = error.message();
    assert!(message.contains("unknown field `adopt`"));
    assert!(message.contains("retired key `adopt`:"));
    assert!(message.contains("a rule match already means the resource is owned"));
    assert!(message.contains("Delete the line"));
}

#[test]
fn every_key_nothing_reads_is_refused_and_names_its_migration() {
    for (source, key, phrase) in [
        (
            "[report]\nenabled = true\npath = \"/tmp/r.json\"\nkeep = 30\n",
            "report",
            "promised a report file that nothing ever wrote",
        ),
        (
            "[defaults]\nlog_level = \"info\"\n",
            "log_level",
            "does not have a configurable log level",
        ),
        ("[tui]\nmouse = false\n", "mouse", "driven by the keyboard"),
    ] {
        let error =
            read_config(source).expect_err("a key nothing reads must be refused, not ignored");
        let message = error.message();
        assert!(
            message.contains(&format!("unknown field `{key}`")),
            "{key}: {message}"
        );
        assert!(
            message.contains(&format!("retired key `{key}`:")),
            "{key}: {message}"
        );
        assert!(message.contains(phrase), "{key}: {message}");
    }
}

#[test]
fn the_starter_never_advertises_a_key_this_build_would_refuse() {
    for key in retired_key_names() {
        assert!(
            !DEFAULT_CONFIG.contains(&format!("{key} =")),
            "the starter still offers the retired key `{key}`"
        );
        assert!(
            !DEFAULT_CONFIG.contains(&format!("[{key}]")),
            "the starter still offers the retired table `{key}`"
        );
    }
}

#[test]
fn a_quoted_source_line_never_triggers_the_retirement_note() {
    let source = "[defaults]\nbogus = \"unknown field `adopt`\"\n";
    let error = read_config(source).expect_err("must reject bogus");
    let message = error.message();
    assert!(message.contains("unknown field `bogus`"));
    assert!(!message.contains("retired key"));
}

#[test]
fn a_retired_key_under_the_wrong_table_still_reads_truthfully() {
    let error = read_config("[defaults]\nadopt = true\n").expect_err("must reject retired key");
    let message = error.message();
    assert!(message.contains("retired key `adopt`:"));
    assert!(message.contains("this was a container rule key"));
}

#[test]
fn removing_the_retired_key_leaves_the_rule_identical() {
    let with_key = "[[rules.containers]]\nname = \"agents\"\nstopped_ttl = \"2h\"\nselect.names = [\"^agent-\"]\nadopt = true\n";
    let without_key = "[[rules.containers]]\nname = \"agents\"\nstopped_ttl = \"2h\"\nselect.names = [\"^agent-\"]\n";
    read_config(with_key).expect_err("retired key is refused");
    let migrated = read_config(without_key).expect("parse rule");
    let rule = &migrated.rules.containers[0];
    assert_eq!(rule.common.name, "agents");
    assert_eq!(rule.common.scope, RuleScope::Owned);
    assert_eq!(rule.stopped_ttl.as_deref(), Some("2h"));
    assert_eq!(rule.common.select.names, vec!["^agent-".to_owned()]);
}

#[test]
fn invalid_duration_is_rejected() {
    let source = "[defaults]\ninterval = \"soon\"\n";
    let config = read_config(source).expect("parse shape");
    let error = config.validate().expect_err("must reject duration");
    assert!(error.message().contains("defaults.interval"));
}

#[test]
fn invalid_regex_and_glob_selectors_are_rejected() {
    let source = r#"
[protect]
labels = ["["]

[[rules.networks]]
name = "bad-regex"
select.names = ["("]
orphan = true
"#;
    let config = read_config(source).expect("parse shape");
    let error = config.validate().expect_err("must reject invalid patterns");
    let message = error.message();
    assert!(message.contains("protect.labels[0]"));
    assert!(message.contains("rules.networks[0].select.names[0]"));
}

#[test]
fn selector_less_rule_is_rejected() {
    let source = "[[rules.containers]]\nname = \"unsafe\"\nstopped_ttl = \"1h\"\n";
    let config = read_config(source).expect("parse shape");
    let error = config.validate().expect_err("must require selector");
    assert!(error
        .message()
        .contains("must contain at least one selector"));
}

#[test]
fn build_cache_requires_unscoped_authorization() {
    let source = "[rules.build_cache]\nolder_than = \"7d\"\n";
    let config = read_config(source).expect("parse shape");
    let error = config.validate().expect_err("must require authorization");
    assert!(error.message().contains("allow_unscoped must be true"));
}

#[test]
fn build_cache_requires_a_removal_policy() {
    let source = "[rules.build_cache]\nallow_unscoped = true\n";
    let config = read_config(source).expect("parse shape");
    let error = config.validate().expect_err("must require a policy");
    assert!(error
        .message()
        .contains("must set older_than, max_bytes, or both"));
}

#[test]
fn all_scope_requires_unscoped_authorization() {
    let source = "[[rules.images]]\nname = \"all-images\"\nscope = \"all\"\nselect.name_parts = [\"agent-\"]\n";
    let config = read_config(source).expect("parse shape");
    let error = config.validate().expect_err("must require authorization");
    assert!(error.message().contains("allow_unscoped must be true"));
}

#[test]
fn unscoped_authorization_requires_all_scope() {
    let source = "[[rules.images]]\nname = \"all-images\"\nallow_unscoped = true\nselect.name_parts = [\"agent-\"]\n";
    let config = read_config(source).expect("parse shape");
    let error = config.validate().expect_err("must require all scope");
    assert!(error.message().contains("scope must be \"all\""));
}

#[test]
fn path_resolution_prefers_explicit_then_local_then_xdg() {
    let home = Some("/xdg".to_owned());
    let paths = config_search_paths("/work", &home);
    assert_eq!(
        paths,
        vec![
            "/work/docker_maid.toml".to_owned(),
            "/xdg/docker_maid/config.toml".to_owned()
        ]
    );
    assert_eq!(
        resolve_config_path(&Some("explicit.toml".to_owned()), "/work", &home, &vec![true, true])
            .expect("explicit"),
        "explicit.toml"
    );
    assert_eq!(
        resolve_config_path(&None, "/work", &home, &vec![true, true]).expect("local"),
        "/work/docker_maid.toml"
    );
    assert_eq!(
        resolve_config_path(&None, "/work", &home, &vec![false, true]).expect("xdg"),
        "/xdg/docker_maid/config.toml"
    );
    let error = resolve_config_path(&None, "/work", &home, &vec![false, false]).expect_err("none");
    assert!(matches!(error, ConfigError::NotFound { .. }));
    assert!(error.message().contains("/work/docker_maid.toml"));
}

fn fenced_blocks(document: &str, tag: &str) -> Vec<String> {
    let mut blocks = Vec::new();
    let mut buffer: Vec<&str> = Vec::new();
    let mut inside = false;
    let mut collecting = false;
    for line in document.lines() {
        if let Some(rest) = line.trim_start().strip_prefix("```") {
            if inside {
                if collecting {
                    blocks.push(buffer.join("\n"));
                    buffer.clear();
                }
                collecting = false;
            } else {
                collecting = rest.trim() == tag;
            }
            inside = !inside;
            continue;
        }
        if collecting {
            buffer.push(line);
        }
    }
    blocks
}

#[test]
fn every_toml_example_parses_and_validates_under_the_real_schema() {
    let mut examples = fenced_blocks(
        skill_by_name("docker-maid-config").expect("the config skill").document,
        "toml",
    );
    examples.extend(fenced_blocks(
        skill_by_name("docker-maid-repo").expect("the repo skill").document,
        "toml",
    ));
    assert!(
        examples.len() >= 4,
        "the configuration and repo skills should show more than one policy shape each"
    );
    for (index, example) in examples.iter().enumerate() {
        let config = read_config(example)
            .unwrap_or_else(|error| panic!("example {index} does not parse: {}", error.message()));
        config
            .validate()
            .unwrap_or_else(|error| panic!("example {index} does not validate: {}", error.message()));
    }
}

#[test]
fn evaluates_owned_resource_types_and_sorts_output() {
    let config = config(
        r#"
[[rules.containers]]
name = "containers"
select.names = ["^agent-c"]
stopped_ttl = "1h"

[[rules.images]]
name = "images"
select.name_parts = ["agent-i"]
dangling = true
unused_for = "1h"

[[rules.volumes]]
name = "volumes"
select.labels = ["agent.volume=true"]
orphan_for = "1h"

[[rules.networks]]
name = "networks"
select.names = ["^agent-n"]
orphan = true
orphan_for = "1h"
"#,
    );
    let mut container = item(ResourceKind::Container, "agent-c");
    container.state = ResourceState::Stopped;
    container.state_since = Some(NOW - 7_200);
    let mut image = item(ResourceKind::Image, "agent-i:latest");
    image.dangling = true;
    let mut volume = item(ResourceKind::Volume, "agent-v");
    volume
        .labels
        .insert("agent.volume".to_owned(), "true".to_owned());
    let network = item(ResourceKind::Network, "agent-n");

    // Volumes, images, and networks age on the observed-unreferenced
    // clock, so this pass supplies a record that started a day ago.
    let inventory = vec![network, volume, image, container];
    let observations = ObservationState::empty().folded(&inventory, NOW - 86_400);
    let plan = build_plan_with_context(
        &config,
        inventory,
        NOW,
        &PlanContext {
            observations: &observations,
            protection: &ProtectionState::empty(),
        },
    )
    .expect("build plan");

    assert_eq!(plan.pending_count(), 4);
    assert_eq!(plan.decisions[0].resource.kind, ResourceKind::Container);
    assert_eq!(plan.decisions[3].resource.kind, ResourceKind::Network);
    assert_eq!(
        plan.render_table(),
        [
            "TYPE       NAME            STATE      AGE  DISPOSITION  RULE        ACTION  REASON\n",
            "container  agent-c         stopped    2h   owned        containers  remove  matched name regex ^agent-c; state age 2h meets 1h\n",
            "image      agent-i:latest  available  1d   owned        images      remove  matched name part agent-i; unreferenced dangling image; observed unreferenced for 1d which meets 1h\n",
            "volume     agent-v         available  1d   owned        volumes     remove  matched label agent.volume=true (agent.volume=true); observed unattached for 1d which meets 1h\n",
            "network    agent-n         available  1d   owned        networks    remove  matched name regex ^agent-n; observed empty for 1d which meets 1h\n",
            "\nPending removals: 4\n",
            "Scanned: containers=1 images=1 volumes=1 networks=1 build_cache=0\n",
        ].concat()
    );
}

#[test]
fn build_cache_age_and_budget_are_deterministic_and_unscoped() {
    let config = config(
        r#"
[rules.build_cache]
older_than = "12h"
max_bytes = 100
allow_unscoped = true
"#,
    );
    let mut old = item(ResourceKind::BuildCache, "old-cache");
    old.state_since = Some(NOW - 86_400);
    old.size = Some(40);
    let mut oldest = item(ResourceKind::BuildCache, "oldest-cache");
    oldest.state_since = Some(NOW - 7_200);
    oldest.size = Some(80);
    let mut newest = item(ResourceKind::BuildCache, "newest-cache");
    newest.state_since = Some(NOW - 3_600);
    newest.size = Some(80);
    let mut in_use = item(ResourceKind::BuildCache, "in-use-cache");
    in_use.state_since = Some(NOW - 86_400);
    in_use.size = Some(0);
    in_use.referenced = true;

    let plan = build_plan(&config, vec![newest, in_use, oldest, old], NOW).expect("plan");
    let removals = plan
        .decisions
        .iter()
        .filter(|decision| decision.action == Action::Remove)
        .map(|decision| decision.resource.name.as_str())
        .collect::<Vec<_>>();

    assert_eq!(removals, vec!["old-cache", "oldest-cache"]);
    assert!(plan.decisions.iter().all(|decision| {
        decision.disposition == Disposition::AuthorizedUnscoped
            && decision.matched_rule.as_deref() == Some("build-cache")
    }));
    let in_use = plan
        .decisions
        .iter()
        .find(|decision| decision.resource.name == "in-use-cache")
        .expect("in-use decision");
    assert_eq!(in_use.action, Action::Keep);
    assert!(in_use.reason.contains("in use"));
}

#[test]
fn build_cache_budget_keeps_unknown_size_records() {
    let config = config(
        r"
[rules.build_cache]
max_bytes = 0
allow_unscoped = true
",
    );
    let mut unknown = item(ResourceKind::BuildCache, "unknown-size");
    unknown.state_since = Some(NOW - 86_400);

    let plan = build_plan(&config, vec![unknown], NOW).expect("plan");

    assert_eq!(plan.pending_count(), 0);
    assert_eq!(plan.decisions[0].action, Action::Keep);
}

#[test]
fn protection_wins_before_the_first_matching_rule() {
    let config = config(
        r#"
[protect]
names = ["^agent-safe$"]

[[rules.networks]]
name = "first"
select.names = ["^agent-"]
orphan = true

[[rules.networks]]
name = "second"
select.names = ["safe"]
orphan = true
"#,
    );
    let plan = build_plan(
        &config,
        vec![item(ResourceKind::Network, "agent-safe")],
        NOW,
    )
    .expect("build plan");
    let decision = &plan.decisions[0];
    assert_eq!(decision.disposition, Disposition::Protected);
    assert_eq!(decision.action, Action::Keep);
    assert_eq!(decision.matched_rule, None);
}

#[test]
fn typed_runtime_protection_wins_without_affecting_other_resource_kinds() {

    let config = config(
        r#"
[[rules.networks]]
name = "networks"
select.names = ["^shared$"]
orphan = true

[[rules.volumes]]
name = "volumes"
select.names = ["^shared$"]
orphan_for = "1s"
"#,
    );
    let mut volume = item(ResourceKind::Volume, "shared");
    volume.created_at = Some(NOW - 60);
    let protection = ProtectionState {
        schema_version: 1,
        entries: vec![ProtectionEntry {
            kind: ProtectionKind::Network,
            value: "shared".to_owned(),
        }],
    };

    let inventory = vec![item(ResourceKind::Network, "shared"), volume];
    let observations = ObservationState::empty().folded(&inventory, NOW - 60);
    let plan = build_plan_with_context(
        &config,
        inventory,
        NOW,
        &PlanContext {
            protection: &protection,
            observations: &observations,
        },
    )
    .expect("plan");

    let network = plan
        .decisions
        .iter()
        .find(|decision| decision.resource.kind == ResourceKind::Network)
        .expect("network decision");
    let volume = plan
        .decisions
        .iter()
        .find(|decision| decision.resource.kind == ResourceKind::Volume)
        .expect("volume decision");
    assert_eq!(network.disposition, Disposition::Protected);
    assert_eq!(network.action, Action::Keep);
    assert_eq!(volume.action, Action::Remove);
}

#[test]
fn one_label_entry_protects_a_whole_family_from_every_matching_rule() {
    let config = config(
        r#"
[[rules.images]]
name = "images"
select.labels = ["com.docker.compose.project=*"]
dangling = true
unused_for = "1h"

[[rules.volumes]]
name = "volumes"
select.labels = ["com.docker.compose.project=*"]
orphan_for = "1h"

[[rules.networks]]
name = "networks"
select.labels = ["com.docker.compose.project=*"]
orphan = true
orphan_for = "1h"
"#,
    );
    let stack = |kind, name, project: &str| {
        let mut resource = item(kind, name);
        resource
            .labels
            .insert("com.docker.compose.project".to_owned(), project.to_owned());
        resource.dangling = kind == ResourceKind::Image;
        resource
    };
    let inventory = vec![
        stack(ResourceKind::Image, "immich/server:latest", "immich"),
        stack(ResourceKind::Volume, "immich_pgdata", "immich"),
        stack(ResourceKind::Network, "immich_default", "immich"),
        stack(ResourceKind::Volume, "scratch_data", "scratch"),
    ];
    let observations = ObservationState::empty().folded(&inventory, NOW - 86_400);
    let protection = ProtectionState {
        schema_version: 2,
        entries: vec![ProtectionEntry {
            kind: ProtectionKind::Label,
            value: "com.docker.compose.project=immich".to_owned(),
        }],
    };
    let plan = build_plan_with_context(
        &config,
        inventory,
        NOW,
        &PlanContext {
            protection: &protection,
            observations: &observations,
        },
    )
    .expect("plan");

    for decision in &plan.decisions {
        let project = decision
            .resource
            .labels
            .get("com.docker.compose.project")
            .map(String::as_str);
        if project == Some("immich") {
            assert_eq!(
                decision.disposition,
                Disposition::Protected,
                "{} must be protected",
                decision.resource.name
            );
            assert_eq!(decision.action, Action::Keep);
            assert_eq!(
                decision.reason,
                "matched runtime protection label com.docker.compose.project=immich"
            );
        } else {
            // The unrelated family stays fully eligible.
            assert_eq!(decision.action, Action::Remove, "{decision:?}");
        }
    }
    assert_eq!(plan.pending_count(), 1);
}

#[test]
fn a_rule_without_an_age_floor_never_removes_on_first_observation() {
    // Volumes already failed safe; networks and images now match them, so
    // no rule can delete a resource the observed clock has not measured.
    let config = config(
        r#"
[[rules.images]]
name = "images"
select.name_parts = ["agent-i"]
dangling = true

[[rules.volumes]]
name = "volumes"
select.name_parts = ["agent-v"]

[[rules.networks]]
name = "networks"
select.names = ["^agent-n"]
orphan = true
"#,
    );
    let mut image = item(ResourceKind::Image, "agent-i:latest");
    image.dangling = true;
    let inventory = vec![
        image,
        item(ResourceKind::Volume, "agent-v"),
        item(ResourceKind::Network, "agent-n"),
    ];
    // A record a day old: age is not the reason these survive.
    let observations = ObservationState::empty().folded(&inventory, NOW - 86_400);
    let plan = build_plan_with_context(
        &config,
        inventory,
        NOW,
        &PlanContext {
            observations: &observations,
            protection: &ProtectionState::empty(),
        },
    )
    .expect("plan");

    assert_eq!(plan.pending_count(), 0);
    for decision in &plan.decisions {
        assert!(
            decision.reason.contains("no orphan age policy is set")
                || decision.reason.contains("no unused age policy is set"),
            "{decision:?}"
        );
    }
}

#[test]
fn unowned_resources_are_never_removals() {
    let config = config(
        r#"
[[rules.networks]]
name = "agents"
select.names = ["^agent-"]
orphan = true
"#,
    );
    let plan = build_plan(
        &config,
        vec![item(ResourceKind::Network, "production")],
        NOW,
    )
    .expect("build plan");
    assert_eq!(plan.decisions[0].disposition, Disposition::Unowned);
    assert_eq!(plan.decisions[0].action, Action::Keep);
}

#[test]
fn unscoped_escape_hatch_is_visible_in_plan() {
    let config = config(
        r#"
[[rules.images]]
name = "all-dangling"
scope = "all"
allow_unscoped = true
select.name_parts = ["sha256:"]
dangling = true
unused_for = "1h"
"#,
    );
    let mut image = item(ResourceKind::Image, "sha256:abc");
    image.dangling = true;
    let inventory = vec![image];
    let observations = ObservationState::empty().folded(&inventory, NOW - 86_400);
    let plan = build_plan_with_context(
        &config,
        inventory,
        NOW,
        &PlanContext {
            observations: &observations,
            protection: &ProtectionState::empty(),
        },
    )
    .expect("build plan");
    assert_eq!(
        plan.decisions[0].disposition,
        Disposition::AuthorizedUnscoped
    );
    let output = plan.render_table();
    assert!(output.contains("authorized-unscoped"));
    assert!(output.contains("WARNING: 1 pending removal(s) use authorized-unscoped policy."));
}

#[test]
fn thresholds_and_references_prevent_early_removal() {
    let config = config(
        r#"
[[rules.containers]]
name = "containers"
select.names = ["^agent-"]
stopped_ttl = "2h"

[[rules.images]]
name = "images"
select.name_parts = ["agent-"]
dangling = true
"#,
    );
    let mut container = item(ResourceKind::Container, "agent-container");
    container.state = ResourceState::Stopped;
    container.state_since = Some(NOW - 60);
    let mut image = item(ResourceKind::Image, "agent-image");
    image.dangling = true;
    image.referenced = true;
    let plan = build_plan(&config, vec![container, image], NOW).expect("build plan");
    assert_eq!(plan.pending_count(), 0);
    assert_eq!(
        plan.render_table(),
        "No removals pending.\nScanned: containers=1 images=1 volumes=0 networks=0 build_cache=0\n"
    );
}

#[test]
fn an_old_volume_freshly_detached_survives_its_first_observation() {
    let config = config(
        r#"
[[rules.volumes]]
name = "volumes"
select.names = ["^data$"]
orphan_for = "1h"
"#,
    );
    // Six months old, detached seconds ago: the creation-age reading would
    // delete it immediately. The observed clock starts now instead.
    let mut volume = item(ResourceKind::Volume, "data");
    volume.created_at = Some(NOW - 15_552_000);
    let inventory = vec![volume];

    let first = ObservationState::empty().folded(&inventory, NOW);
    let plan = build_plan_with_context(
        &config,
        inventory.clone(),
        NOW,
        &PlanContext {
            observations: &first,
            protection: &ProtectionState::empty(),
        },
    )
    .expect("first pass");
    assert_eq!(plan.pending_count(), 0);
    assert!(plan.decisions[0]
        .reason
        .contains("observed unattached for 0s which is below 1h"));

    // Only after a full TTL of continuous detachment does it become eligible.
    let later = NOW + 3_600;
    let carried = first.folded(&inventory, later);
    let plan = build_plan_with_context(
        &config,
        inventory,
        later,
        &PlanContext {
            observations: &carried,
            protection: &ProtectionState::empty(),
        },
    )
    .expect("later pass");
    assert_eq!(plan.pending_count(), 1);
    assert!(plan.decisions[0]
        .reason
        .contains("observed unattached for 1h which meets 1h"));
}

#[test]
fn a_network_emptied_by_compose_down_waits_for_its_orphan_floor() {
    let config = config(
        r#"
[[rules.networks]]
name = "networks"
select.names = ["^project_default$"]
orphan = true
orphan_for = "2h"
"#,
    );
    let network = item(ResourceKind::Network, "project_default");
    let inventory = vec![network];

    let first = ObservationState::empty().folded(&inventory, NOW);
    let plan = build_plan_with_context(
        &config,
        inventory.clone(),
        NOW,
        &PlanContext {
            observations: &first,
            protection: &ProtectionState::empty(),
        },
    )
    .expect("first pass");
    assert_eq!(plan.pending_count(), 0);

    let later = NOW + 7_200;
    let carried = first.folded(&inventory, later);
    let plan = build_plan_with_context(
        &config,
        inventory,
        later,
        &PlanContext {
            observations: &carried,
            protection: &ProtectionState::empty(),
        },
    )
    .expect("later pass");
    assert_eq!(plan.pending_count(), 1);
    assert!(plan.decisions[0]
        .reason
        .contains("observed empty for 2h which meets 2h"));
}

#[test]
fn a_reattached_resource_restarts_its_clock_and_survives() {
    let config = config(
        r#"
[[rules.volumes]]
name = "volumes"
select.names = ["^data$"]
orphan_for = "1h"
"#,
    );
    let detached = vec![item(ResourceKind::Volume, "data")];
    let mut attached_item = item(ResourceKind::Volume, "data");
    attached_item.referenced = true;
    let attached = vec![attached_item];

    let aged = ObservationState::empty().folded(&detached, NOW - 7_200);
    let reattached = aged.folded(&attached, NOW);
    let detached_again = reattached.folded(&detached, NOW);

    let plan = build_plan_with_context(
        &config,
        detached.clone(),
        NOW,
        &PlanContext {
            observations: &detached_again,
            protection: &ProtectionState::empty(),
        },
    )
    .expect("plan");
    assert_eq!(plan.pending_count(), 0);
}

#[test]
fn without_durable_state_nothing_accumulates_or_is_removed() {
    let config = config(
        r#"
[[rules.volumes]]
name = "volumes"
select.names = ["^data$"]
orphan_for = "1s"

[[rules.images]]
name = "images"
select.names = ["^stale$"]
dangling = true
unused_for = "1s"

[[rules.networks]]
name = "networks"
select.names = ["^empty$"]
orphan = true
orphan_for = "1s"
"#,
    );
    let mut image = item(ResourceKind::Image, "stale");
    image.dangling = true;
    let inventory = vec![
        item(ResourceKind::Volume, "data"),
        image,
        item(ResourceKind::Network, "empty"),
    ];

    // An ephemeral host that cannot persist the record never accumulates
    // observed time, so every pass keeps every resource.
    let plan = build_plan(&config, inventory, NOW).expect("plan");
    assert_eq!(plan.pending_count(), 0);
}

#[test]
fn system_networks_are_implicitly_protected() {
    let config = config(
        r#"
[[rules.networks]]
name = "everything"
scope = "all"
allow_unscoped = true
select.names = [".*"]
orphan = true
"#,
    );
    let mut network = item(ResourceKind::Network, "bridge");
    network.system = true;
    let plan = build_plan(&config, vec![network], NOW).expect("build plan");
    assert_eq!(plan.decisions[0].disposition, Disposition::Protected);
    assert_eq!(plan.pending_count(), 0);
}

#[test]
fn a_label_selector_sees_the_whole_text() {
    let config = config(
        "[protect]\nlabels = [\"folder=*/..\"]\n[[rules.volumes]]\nname = \"all\"\nselect.labels = [\"owner=?\"]\n",
    );
    let mut climbing = item(ResourceKind::Volume, "climbing");
    climbing.labels = Labels::from_pairs(vec![("folder".to_owned(), "/work/..".to_owned())]);
    let mut resting = item(ResourceKind::Volume, "resting");
    resting.labels = Labels::from_pairs(vec![("folder".to_owned(), "/work/.".to_owned())]);
    let plan = build_plan(&config, vec![climbing, resting], NOW).expect("plan");
    let found = plan
        .decisions
        .iter()
        .map(|decision| (decision.resource.name.as_str(), decision.disposition))
        .collect::<Vec<_>>();
    assert_eq!(
        found,
        vec![
            ("climbing", Disposition::Protected),
            ("resting", Disposition::Unowned)
        ]
    );
}

#[test]
fn a_valid_configuration_has_a_plan_for_an_empty_host() {
    let config = config(
        "[protect]\nnames = [\"^db$\"]\nlabels = [\"keep=*\"]\n[[rules.images]]\nname = \"builds\"\nunused_for = \"1d\"\nimage_tag_patterns = [\"build/*:*\"]\nselect.names = [\"^build/\"]\n[[rules.volumes]]\nname = \"caches\"\norphan_for = \"1h\"\nselect.labels = [\"cache=*\"]\n",
    );
    let plan = build_plan(&config, Vec::new(), NOW).expect("plan");
    assert!(plan.decisions.is_empty());
}

#[test]
fn the_order_of_the_listing_does_not_matter() {
    let config = config(
        "[[rules.containers]]\nname = \"agents\"\nstopped_ttl = \"1h\"\nselect.names = [\"^agent-\"]\n[rules.build_cache]\nallow_unscoped = true\nolder_than = \"1d\"\nmax_bytes = 15\n",
    );
    let record = |name: &str, last_used: i64, size: u64| {
        let mut made = item(ResourceKind::BuildCache, name);
        made.state_since = Some(last_used);
        made.size = Some(size);
        made
    };
    let mut stopped = item(ResourceKind::Container, "agent-one");
    stopped.state = ResourceState::Stopped;
    stopped.state_since = Some(NOW - 7_200);
    let listing = vec![
        record("fresh", NOW - 10, 10),
        record("older", NOW - 20, 10),
        stopped,
        record("oldest", NOW - 90_000, 10),
        record("twin", NOW - 20, 10),
    ];
    let forward = build_plan(&config, listing.clone(), NOW).expect("plan");
    let mut backward = listing.clone();
    backward.reverse();
    let mut turned = listing;
    turned.rotate_left(2);
    assert_eq!(build_plan(&config, backward, NOW).expect("plan"), forward);
    assert_eq!(build_plan(&config, turned, NOW).expect("plan"), forward);
    let kept = forward
        .decisions
        .iter()
        .filter(|decision| decision.action == Action::Keep)
        .map(|decision| decision.resource.name.as_str())
        .collect::<Vec<_>>();
    assert_eq!(kept, vec!["fresh"]);
}

#[test]
fn a_floor_below_one_second_still_waits_for_a_second_pass() {
    let config = config(
        "[[rules.images]]\nname = \"images\"\nselect.name_parts = [\"agent-i\"]\ndangling = true\nunused_for = \"500ms\"\n[[rules.volumes]]\nname = \"volumes\"\nselect.name_parts = [\"agent-v\"]\norphan_for = \"500ms\"\n[[rules.networks]]\nname = \"networks\"\nselect.names = [\"^agent-n\"]\norphan = true\norphan_for = \"500ms\"\n",
    );
    let mut image = item(ResourceKind::Image, "agent-i:latest");
    image.dangling = true;
    let inventory = vec![
        image,
        item(ResourceKind::Volume, "agent-v"),
        item(ResourceKind::Network, "agent-n"),
    ];
    let observations = ObservationState::empty().folded(&inventory, NOW);
    let protection = ProtectionState::empty();
    let at = |now: i64| {
        build_plan_with_context(
            &config,
            inventory.clone(),
            now,
            &PlanContext {
                protection: &protection,
                observations: &observations,
            },
        )
        .expect("plan")
    };
    let first = at(NOW);
    assert_eq!(first.pending_count(), 0);
    for decision in &first.decisions {
        assert!(decision.reason.ends_with("for 0s which is below 1s"));
    }
    let second = at(NOW + 1);
    assert_eq!(second.pending_count(), 3);
    for decision in &second.decisions {
        assert!(decision.reason.ends_with("for 1s which meets 0s"));
    }
}
