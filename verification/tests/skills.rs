//! The skill documents and where they are installed.

use docker_maid::agent_skill::{
    advertised_commands, install_skills, planned_status, resolve_skill_path, select_skills,
    skill_by_name, skill_names, skills, Harness, InstallStatus, InstallTarget, Skill,
    SkillError,
};
use docker_maid::config::retired_key_names;
use docker_maid::labels::is_known;

fn named(name: &str) -> Skill {
    skill_by_name(name).expect("the skill exists")
}

fn some(text: &str) -> Option<String> {
    Some(text.to_owned())
}

/// A target under the name of its variant.
fn harness(target: InstallTarget) -> Harness {
    Harness {
        target,
        word: format!("{target:?}").to_lowercase(),
    }
}

#[test]
fn every_document_is_a_skill_a_harness_can_read() {
    for skill in skills() {
        assert!(
            skill.document.starts_with("---\n"),
            "{} has no front matter",
            skill.name
        );
        let front_matter = skill
            .document
            .split("\n---\n")
            .next()
            .expect("front matter block");
        assert!(
            front_matter.contains(&format!("\nname: {}", skill.name)),
            "{} does not name itself after its directory",
            skill.name
        );
        assert!(
            front_matter.contains("\ndescription:"),
            "{} has no description",
            skill.name
        );
    }
}

#[test]
fn every_installable_name_is_unique() {
    let mut names = skill_names();
    let before = names.len();
    names.sort_unstable();
    names.dedup();
    assert_eq!(before, names.len(), "two skills share a directory name");
    assert!(before >= 2, "this build should install more than one skill");
}

#[test]
fn every_document_teaches_the_commands_this_build_has() {
    let known = [
        "clean",
        "config",
        "daemon",
        "init",
        "labels",
        "plan",
        "protect",
        "spawn",
        "stamp",
        "status",
        "tui",
        "unprotect",
    ];
    for skill in skills() {
        let commands = advertised_commands(skill.document);
        assert!(
            !commands.is_empty(),
            "{} shows no runnable example at all",
            skill.name
        );
        for command in commands {
            assert!(
                known.contains(&command.as_str()),
                "{} teaches `docker_maid {command}`, which is not a command",
                skill.name
            );
        }
    }
}

#[test]
fn no_document_teaches_a_key_this_build_retired() {
    for skill in skills() {
        for key in retired_key_names() {
            for form in [format!("{key} ="), format!("[{key}]"), format!(".{key}")] {
                assert!(
                    !skill.document.contains(&form),
                    "{} still teaches the retired key `{key}` as `{form}`",
                    skill.name
                );
            }
        }
    }
}

#[test]
fn the_config_skill_names_the_traps_that_produce_a_silent_no_op() {
    let document = named("docker-maid-config").document;
    for phrase in [
        "allow_unscoped",
        "orphan = true",
        "select.name_parts",
        "observation.toml",
    ] {
        assert!(
            document.contains(phrase),
            "the config skill never mentions {phrase}"
        );
    }
}

#[test]
fn the_resource_skill_sends_agents_to_spawn_and_stamp_rather_than_their_own_wrapper() {
    let document = named("docker-maid").document;
    assert!(document.contains("docker_maid spawn"));
    assert!(document.contains("docker_maid stamp"));
    assert!(document.contains("--docker-args"));
}

#[test]
fn no_document_names_a_label_key_outside_the_vocabulary() {
    for skill in skills() {
        for line in skill.document.lines() {
            for word in line.split_whitespace() {
                let candidate = word.trim_matches(|c: char| !c.is_ascii_graphic());
                if let Some((key, _)) = candidate.split_once('=') {
                    if key.contains('.') && key.starts_with("dev.") {
                        assert!(
                            is_known(key),
                            "{} names {key}, which is not ownership evidence",
                            skill.name
                        );
                    }
                }
            }
        }
    }
}

#[test]
fn a_generic_target_will_not_guess_a_location() {
    let error = resolve_skill_path(
        &named("docker-maid"),
        &harness(InstallTarget::Generic),
        &None,
        &some("/home/x"),
    )
    .expect_err("a generic target needs a destination");
    assert!(matches!(error, SkillError::DestinationRequired));
}

#[test]
fn each_harness_target_resolves_under_its_own_directory() {
    let word = format!("{:?}", InstallTarget::Claude).to_lowercase();
    let home = some("/home/x");
    let first = harness(InstallTarget::Claude);
    assert_eq!(
        resolve_skill_path(&named("docker-maid"), &first, &None, &home).expect("first path"),
        format!("/home/x/.{word}/skills/docker-maid/SKILL.md")
    );
    assert_eq!(
        resolve_skill_path(
            &named("docker-maid"),
            &harness(InstallTarget::Codex),
            &None,
            &home
        )
        .expect("codex path"),
        "/home/x/.codex/skills/docker-maid/SKILL.md"
    );
    assert_eq!(
        resolve_skill_path(&named("docker-maid-config"), &first, &None, &home)
            .expect("first path"),
        format!("/home/x/.{word}/skills/docker-maid-config/SKILL.md")
    );
    assert_eq!(
        resolve_skill_path(
            &named("docker-maid"),
            &first,
            &some("/opt/skills"),
            &home
        )
        .expect("explicit path"),
        "/opt/skills/docker-maid/SKILL.md"
    );
}

#[test]
fn a_missing_home_is_refused_rather_than_installed_somewhere_odd() {
    let first = harness(InstallTarget::Claude);
    let error = resolve_skill_path(&named("docker-maid"), &first, &None, &None)
        .expect_err("no home means no default path");
    assert!(matches!(error, SkillError::HomeUnknown { .. }));
    assert_eq!(
        error.message(),
        format!(
            "cannot locate a home directory for the {} target; pass --dest instead",
            first.as_text()
        )
    );
}

#[test]
fn installing_twice_reports_unchanged_instead_of_rewriting() {
    let skill = named("docker-maid");
    assert_eq!(
        planned_status(&skill, "/x/SKILL.md", &None, false).expect("first install"),
        InstallStatus::Written
    );
    assert_eq!(
        planned_status(&skill, "/x/SKILL.md", &some(skill.document), false)
            .expect("second install"),
        InstallStatus::Unchanged
    );
}

#[test]
fn a_different_skill_is_not_replaced_without_force() {
    let skill = named("docker-maid");
    let edited = some("---\nname: mine\n---\nlocal edit\n");
    let error = planned_status(&skill, "/x/SKILL.md", &edited, false)
        .expect_err("an edited skill is protected");
    assert!(matches!(error, SkillError::WouldOverwrite { .. }));
    assert!(error.message().contains("/x/SKILL.md"));
    assert_eq!(
        planned_status(&skill, "/x/SKILL.md", &edited, true).expect("force replaces it"),
        InstallStatus::Replaced
    );
}

#[test]
fn installing_every_skill_writes_each_one_into_its_own_directory() {
    let all = skills();
    let absent = all.iter().map(|_| None).collect::<Vec<Option<String>>>();
    let installed = install_skills(
        &all,
        &harness(InstallTarget::Generic),
        &some("/root"),
        &None,
        &absent,
        false,
    )
    .expect("install every skill");
    assert_eq!(installed.len(), all.len());
    for (installation, skill) in installed.iter().zip(&all) {
        assert_eq!(installation.name, skill.name);
        assert_eq!(installation.status, InstallStatus::Written);
        assert_eq!(installation.path, format!("/root/{}/SKILL.md", skill.name));
    }
}

#[test]
fn a_refusal_on_a_later_skill_leaves_every_earlier_one_untouched() {
    let all = skills();
    let mut current = all.iter().map(|_| None).collect::<Vec<Option<String>>>();
    let last = current.len() - 1;
    current[last] = some("---\nname: mine\n---\nlocal edit\n");
    let error = install_skills(
        &all,
        &harness(InstallTarget::Generic),
        &some("/root"),
        &None,
        &current,
        false,
    )
    .expect_err("a differing later skill refuses the whole install");
    assert!(matches!(error, SkillError::WouldOverwrite { .. }));
}

#[test]
fn commands_are_read_from_shell_examples_only() {
    let document = "run docker_maid nothing\n```sh\ndocker_maid plan\ndocker run $(docker_maid stamp --docker-args) x\n```\nand docker_maid tui\n";
    assert_eq!(
        advertised_commands(document),
        vec!["plan".to_owned(), "stamp".to_owned()]
    );
}

#[test]
fn every_target_has_its_place_below_the_home_directory() {
    let place = |target: InstallTarget| target.home_relative_directory("harness");
    assert_eq!(
        place(InstallTarget::Claude).as_deref(),
        Some(".harness/skills")
    );
    assert_eq!(
        place(InstallTarget::Codex).as_deref(),
        Some(".codex/skills")
    );
    assert_eq!(place(InstallTarget::Generic), None);
    let named = Harness {
        target: InstallTarget::Claude,
        word: "harness".to_owned(),
    };
    assert_eq!(named.as_text(), "harness");
    assert_eq!(
        resolve_skill_path(&skills()[0], &named, &None, &some("/home/x")).expect("a path"),
        format!("/home/x/.harness/skills/{}/SKILL.md", skills()[0].name)
    );
    assert_eq!(harness(InstallTarget::Codex).as_text(), "codex");
    assert_eq!(harness(InstallTarget::Generic).as_text(), "generic");
}

#[test]
fn skills_are_selected_by_name_or_all_or_the_first() {
    let names = |list: Vec<Skill>| list.iter().map(|skill| skill.name).collect::<Vec<_>>();
    let every = names(skills());
    let last = every[every.len() - 1];
    assert_eq!(names(select_skills(None, true).expect("all")), every);
    assert_eq!(
        names(select_skills(None, false).expect("the first")),
        vec![every[0]]
    );
    assert_eq!(
        names(select_skills(Some(last), true).expect("one")),
        vec![last]
    );
    assert_eq!(
        select_skills(Some("no \"such\""), false).map(names),
        Err("there is no skill named \"no \\\"such\\\"\"".to_owned())
    );
}
