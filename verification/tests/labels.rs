//! The vocabulary of ownership labels, and the stamp that writes them.

use docker_maid::agent_skill::InstallTarget;
use docker_maid::candidate::CandidateSelector;
use docker_maid::labels::{
    agent_namespace, compose_project_key, is_compose_project, is_known, label_table, lookup,
    managed_key, vocabulary, Match, Role,
};
use docker_maid::resource::{InventoryItem, ResourceKind, ResourceState};
use docker_maid::stamp::{Stamp, StampError, MANAGED_VALUE};
use docker_maid::survey::survey_inventory;

#[test]
fn every_entry_is_usable_and_distinct() {
    let table = vocabulary();
    for entry in &table {
        assert!(!entry.key.is_empty(), "a vocabulary key must not be blank");
        assert!(
            !entry.purpose.is_empty(),
            "{} must explain why it is evidence",
            entry.key
        );
        assert!(
            !entry.writer.is_empty(),
            "{} must name who writes it",
            entry.key
        );
        if entry.matching == Match::Prefix {
            assert!(
                entry.key.ends_with('.'),
                "prefix entry {} must end at a namespace boundary",
                entry.key
            );
        }
    }
    let mut keys = table.iter().map(|entry| entry.key).collect::<Vec<_>>();
    keys.sort_unstable();
    let count = keys.len();
    keys.dedup();
    assert_eq!(keys.len(), count, "vocabulary keys must be distinct");
}

#[test]
fn exact_entries_do_not_match_a_longer_key() {
    assert!(is_known("dev.docker-maid.managed"));
    assert!(!is_known("dev.docker-maid.managed.extra"));
    assert!(!is_known("dev.docker-maid"));
    assert!(is_known(compose_project_key()));
    assert!(!is_known("com.docker.compose.projectx"));
    assert!(!is_known("com.docker.compose.service"));
}

#[test]
fn prefix_entries_match_inside_their_namespace_only() {
    assert!(is_known("ai-agent.owner"));
    assert!(is_known("ai-agent.session"));
    assert!(is_known("devcontainer.local_folder"));
    assert!(!is_known("ai-agentx.owner"));
    assert!(!is_known("ai-agent"));
    assert!(!is_known("my-devcontainer.local_folder"));
}

#[test]
fn an_unknown_key_is_never_evidence() {
    for key in [
        "",
        "maintainer",
        "org.opencontainers.image.source",
        "com.example.owner",
    ] {
        assert!(!is_known(key), "{key} must not be ownership evidence");
    }
}

#[test]
fn lookup_returns_the_most_specific_entry_first() {
    let entry = lookup(compose_project_key()).expect("compose key is known");
    assert_eq!(entry.key, compose_project_key());
    assert_eq!(entry.matching, Match::Exact);
    assert_eq!(entry.role, Role::Family);
    assert!(is_compose_project(compose_project_key()));
    assert!(!is_compose_project("ai-agent.owner"));
}

#[test]
fn the_compose_key_accessor_agrees_with_the_table() {
    assert_eq!(compose_project_key(), "com.docker.compose.project");
    assert!(vocabulary()
        .iter()
        .any(|entry| entry.key == compose_project_key() && entry.matching == Match::Exact));
}

#[test]
fn the_writing_accessors_agree_with_the_table() {
    assert_eq!(managed_key(), "dev.docker-maid.managed");
    assert_eq!(agent_namespace(), "ai-agent.");
    let managed = lookup(managed_key()).expect("the managed key is in the table");
    assert_eq!(managed.matching, Match::Exact);
    let agent = lookup(&format!("{}owner", agent_namespace()))
        .expect("a leaf in the agent namespace is in the table");
    assert_eq!(agent.matching, Match::Prefix);
    assert_eq!(agent.key, agent_namespace());
    assert!(!is_compose_project(managed_key()));
    assert!(!is_compose_project(agent_namespace()));
}

#[test]
fn an_entry_matches_as_its_table_row_says() {
    let table = vocabulary();
    let prefix = table
        .iter()
        .find(|entry| entry.key == "ai-agent.")
        .expect("agent row");
    assert!(prefix.matches("ai-agent.owner"));
    assert!(!prefix.matches("ai-agen"));
    assert_eq!(prefix.matching.as_text(), "prefix");
    let exact = table
        .iter()
        .find(|entry| entry.key == managed_key())
        .expect("managed row");
    assert!(exact.matches(managed_key()));
    assert!(!exact.matches("dev.docker-maid.managed.x"));
    assert_eq!(exact.matching.as_text(), "exact");
}

fn pairs(stamp: &Stamp) -> Vec<(String, String)> {
    let labels = stamp.labels();
    (0..labels.len())
        .map(|index| (labels.key_at(index).clone(), labels.value_at(index).clone()))
        .collect()
}

#[test]
fn the_bare_stamp_marks_the_resource_as_managed() {
    let stamp = Stamp::new(None).expect("the bare stamp is always valid");
    assert_eq!(stamp.labels().len(), 1);
    assert_eq!(
        stamp.labels().get(managed_key()).map(String::as_str),
        Some(MANAGED_VALUE)
    );
}

#[test]
fn naming_an_owner_adds_exactly_one_label() {
    let name = format!("{:?}-code", InstallTarget::Claude).to_lowercase();
    let stamp = Stamp::new(Some(name.as_str())).expect("a plain name is supported");
    assert_eq!(stamp.labels().len(), 2);
    let owner_key = format!("{}owner", agent_namespace());
    assert_eq!(
        stamp.labels().get(&owner_key).map(String::as_str),
        Some(name.as_str())
    );
}

#[test]
fn every_stamped_key_is_a_key_the_survey_reads() {
    for stamp in [
        Stamp::new(None).expect("bare stamp"),
        Stamp::new(Some("agent-7")).expect("named stamp"),
    ] {
        for (key, _) in pairs(&stamp) {
            assert!(is_known(&key), "{key} is not ownership evidence");
            assert!(
                !is_compose_project(&key),
                "{key} would claim to be an operator-declared Compose stack"
            );
        }
    }
}

#[test]
fn a_stamped_value_is_never_empty() {
    let stamp = Stamp::new(Some("a")).expect("a one-character name is supported");
    for (key, value) in pairs(&stamp) {
        assert!(!value.is_empty(), "{key} must carry a value");
    }
}

#[test]
fn a_blank_owner_is_refused_rather_than_dropped() {
    assert_eq!(Stamp::new(Some("")), Err(StampError::BlankOwner));
    assert_eq!(Stamp::new(Some("   ")), Err(StampError::BlankOwner));
}

#[test]
fn an_owner_needing_a_shell_quote_is_refused() {
    for value in ["two words", "a$b", "a\"b", "a'b", "a;b", "a\nb", "a=b"] {
        assert_eq!(
            Stamp::new(Some(value)),
            Err(StampError::UnsupportedOwner {
                value: value.to_owned()
            }),
            "{value:?} must not reach a shell"
        );
    }
}

#[test]
fn an_owner_is_never_trimmed_into_something_else() {
    assert!(Stamp::new(Some(" agent")).is_err());
    assert!(Stamp::new(Some("agent ")).is_err());
}

#[test]
fn the_flag_line_splits_back_into_the_argument_list() {
    let stamp = Stamp::new(Some("agent.7_b-c")).expect("the full charset is supported");
    let arguments = stamp.docker_arguments();
    let split = stamp
        .docker_argument_line()
        .split_whitespace()
        .map(str::to_owned)
        .collect::<Vec<_>>();
    assert_eq!(split, arguments);
    assert_eq!(arguments.len(), stamp.labels().len() * 2);
    for pair in arguments.chunks(2) {
        assert_eq!(pair[0], "--label");
        assert!(pair[1].contains('='));
    }
}

#[test]
fn a_stamped_resource_becomes_an_adoption_candidate() {
    let stamp = Stamp::new(Some("agent-7")).expect("named stamp");
    let item = InventoryItem {
        kind: ResourceKind::Container,
        id: "stamped-id".to_owned(),
        name: "stamped".to_owned(),
        search_names: vec!["stamped".to_owned()],
        parent_ids: Vec::new(),
        labels: stamp.labels().clone(),
        mounts: Vec::new(),
        state: ResourceState::Stopped,
        created_at: Some(1),
        state_since: Some(1),
        size: Some(10),
        referenced: false,
        dangling: false,
        system: false,
    };
    let survey = survey_inventory(&vec![item.clone()]);
    let mut offered = survey
        .candidates
        .iter()
        .filter_map(|candidate| match &candidate.selector {
            CandidateSelector::ExactLabel { key, value } => Some((key.clone(), value.clone())),
            _ => None,
        })
        .collect::<Vec<_>>();
    offered.sort_unstable();
    let expected = pairs(&stamp);
    assert_eq!(
        offered, expected,
        "every stamped label must reach the survey as adoptable evidence"
    );
    for candidate in &survey.candidates {
        assert!(
            candidate.resources.iter().any(|entry| entry.id == item.id),
            "candidate {} lost the stamped resource",
            candidate.id
        );
    }
}

#[test]
fn a_refused_owner_is_named_in_the_message() {
    let blank = Stamp::new(Some(" ")).expect_err("blank owner");
    assert!(!blank.message().is_empty());
    let odd = Stamp::new(Some("a b")).expect_err("odd owner");
    assert!(odd.message().contains("\"a b\""), "{}", odd.message());
}

#[test]
fn the_label_table_says_every_entry_on_two_lines() {
    let table = label_table();
    let lines = table.lines().collect::<Vec<_>>();
    assert_eq!(lines.len(), 2 * vocabulary().len());
    for (index, entry) in vocabulary().iter().enumerate() {
        let star = if entry.matching == Match::Prefix {
            "*"
        } else {
            ""
        };
        assert_eq!(
            lines[2 * index],
            format!(
                "{}{star}  {}  written by {}",
                entry.key,
                entry.role.as_text(),
                entry.writer
            )
        );
        assert_eq!(lines[2 * index + 1], format!("    {}", entry.purpose));
    }
    assert!(table.ends_with('\n'));
}
