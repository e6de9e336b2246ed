//! The skills that teach an agent this tool, and where they are installed.
//!
//! An install touches the skill directories and nothing else. Every path and
//! every overwrite is settled before the first byte is written.

use crate::order::sort;
use crate::outside::{quote, quoted};
use crate::state::{below, join_path};
use crate::text::{
    chars_of, concat2, concat3, concat4, find_text, first_at, group_views, opt_view, pieces, split,
    split_words, stands_at, starts_with, text_eq, text_of, trim_start, trimmed_start, views, words,
};
use crate::unique::{dedup, ordered_once};
use vstd::prelude::*;
use vstd::string::*;

verus! {

/// Teaches an agent to create resources that are known to be its own.
pub const RESOURCE_SKILL: &'static str = r#"---
name: docker-maid
description: Create Docker resources that are marked as yours, so they are cleaned up when you are done.
---

# Creating Docker resources

Docker fixes labels at creation, so mark a resource when you create it.

## A sandbox

```sh
docker_maid spawn --owner my-agent --workspace "$PWD" alpine:latest sleep 600
```

The sandbox is detached, carries the ownership labels, and is never pulled or
removed for you.

## Anything else

```sh
docker run $(docker_maid stamp --owner my-agent --docker-args) alpine:latest true
docker volume create $(docker_maid stamp --docker-args) scratch
```

The stamp writes `dev.docker-maid.managed=true` and, with an owner, one label
in the `ai-agent.` namespace. See every known key:

```sh
docker_maid labels
```

## Before you finish

```sh
docker_maid plan
docker_maid status
```

A plan never deletes anything. Only `clean --apply` does.
"#;

/// Teaches an agent to write policy.
pub const CONFIG_SKILL: &'static str = r#"---
name: docker-maid-config
description: Write cleanup policy for Docker that does what it says.
---

# Writing policy

Check every change before you rely on it:

```sh
docker_maid config validate
docker_maid plan
```

## Containers

```toml
[[rules.containers]]
name = "agent-containers"
stopped_ttl = "24h"
select.labels = ["ai-agent.owner=my-agent"]
```

## Volumes

A volume's age is the time it was seen unreferenced without interruption. The
record is kept in `observation.toml`; the first pass that sees a volume
unreferenced starts its clock at zero.

```toml
[[rules.volumes]]
name = "agent-volumes"
orphan_for = "48h"
select.labels = ["ai-agent.owner=my-agent"]
```

## Networks

`orphan = true` alone removes nothing: a network rule also needs an age floor.

```toml
[[rules.networks]]
name = "agent-networks"
orphan = true
orphan_for = "2h"
select.name_parts = ["agent"]
```

## Build cache

The build cache has no labels or names, so its rule works only with
`allow_unscoped`.

```toml
[rules.build_cache]
older_than = "30d"
max_bytes = 21474836480
allow_unscoped = true
```

A rule without selectors owns nothing, and what no rule owns is kept.
"#;

/// Teaches an agent to give a repository its own policy.
pub const REPO_SKILL: &'static str = r#"---
name: docker-maid-repo
description: Give one repository its own Docker cleanup defaults.
---

# Defaults for a repository

Find what is there, then write rules for the families that belong to this
repository:

```sh
docker_maid config survey
docker_maid config validate
```

```toml
[[rules.containers]]
name = "repo-containers"
stopped_ttl = "2h"
select.labels = ["devcontainer.local_folder=/work/repo"]

[protect]
names = ["^repo-database$"]
```

Protect what must outlive a cleanup:

```sh
docker_maid protect volume repo-data
docker_maid unprotect volume repo-data
```
"#;

/// One installable skill.
#[derive(Debug, Clone, Copy, PartialEq, Eq)]
pub struct Skill {
    /// The directory that the skill takes, and the name that selects it.
    pub name: &'static str,
    /// The document.
    pub document: &'static str,
}

/// What a skill says.
#[verifier::ext_equal]
pub struct SkillView {
    pub name: Seq<char>,
    pub document: Seq<char>,
}

impl View for Skill {
    type V = SkillView;

    open spec fn view(&self) -> SkillView {
        SkillView { name: self.name@, document: self.document@ }
    }
}

/// Every skill, in the order in which they are installed.
pub open spec fn all_skills() -> Seq<SkillView> {
    seq![
        SkillView { name: "docker-maid"@, document: RESOURCE_SKILL@ },
        SkillView { name: "docker-maid-config"@, document: CONFIG_SKILL@ },
        SkillView { name: "docker-maid-repo"@, document: REPO_SKILL@ },
    ]
}

/// Every skill, in the order in which they are installed.
pub fn skills() -> (list: Vec<Skill>)
    ensures
        views(list@) == all_skills(),
{
    let mut list: Vec<Skill> = Vec::new();
    list.push(Skill { name: "docker-maid", document: RESOURCE_SKILL });
    list.push(Skill { name: "docker-maid-config", document: CONFIG_SKILL });
    list.push(Skill { name: "docker-maid-repo", document: REPO_SKILL });
    assert(views(list@) =~= all_skills());
    list
}

/// The file that every harness reads.
pub const SKILL_FILE: &'static str = "SKILL.md";

/// The skill of a name.
pub open spec fn skill_named(list: Seq<SkillView>, name: Seq<char>) -> Option<SkillView>
    decreases list.len(),
{
    if list.len() == 0 {
        None
    } else if list[0].name == name {
        Some(list[0])
    } else {
        skill_named(list.drop_first(), name)
    }
}

/// The skill of a name.
pub fn skill_by_name(name: &str) -> (found: Option<Skill>)
    ensures
        opt_view(found) == skill_named(all_skills(), name@),
{
    broadcast use group_views;

    let list = skills();
    let mut index: usize = 0;
    assert(all_skills().skip(0) =~= all_skills());
    while index < list.len()
        invariant
            index <= list@.len(),
            views(list@) == all_skills(),
            skill_named(all_skills(), name@) == skill_named(all_skills().skip(index as int), name@),
        decreases list@.len() - index,
    {
        assert(all_skills().skip(index as int)[0] == list@[index as int]@);
        assert(all_skills().skip(index as int).drop_first() =~= all_skills().skip(index as int + 1));
        if text_eq(list[index].name, name) {
            return Some(list[index]);
        }
        index += 1;
    }
    None
}

/// The skills that a request for one by name, for all, or for neither stands
/// for; none where nothing bears the name.
pub open spec fn selection_of(name: Option<Seq<char>>, all: bool) -> Option<Seq<SkillView>> {
    match name {
        Some(wanted) => match skill_named(all_skills(), wanted) {
            Some(found) => Some(seq![found]),
            None => None,
        },
        None => if all {
            Some(all_skills())
        } else {
            Some(seq![all_skills()[0]])
        },
    }
}

/// Selects skills: the one of a name, else all of them, else the first.
pub fn select_skills(name: Option<&str>, all: bool) -> (outcome: Result<Vec<Skill>, String>)
    ensures
        match selection_of(
            match name {
                Some(wanted) => Some(wanted@),
                None => None,
            },
            all,
        ) {
            Some(list) => outcome matches Ok(made) && views(made@) == list,
            None => outcome matches Err(message) && message@ == "there is no skill named "@
                + quoted(name->0@),
        },
{
    broadcast use group_views;

    let mut list: Vec<Skill> = Vec::new();
    match name {
        Some(wanted) => match skill_by_name(wanted) {
            Some(found) => {
                list.push(found);
                assert(views(list@) =~= seq![found@]);
                Ok(list)
            },
            None => Err(concat2("there is no skill named ", quote(wanted).as_str())),
        },
        None => {
            let every = skills();
            if all {
                Ok(every)
            } else {
                list.push(every[0]);
                assert(views(list@) =~= seq![all_skills()[0]]);
                Ok(list)
            }
        },
    }
}

/// A borrowed text as its characters.
pub open spec fn str_views(items: Seq<&'static str>) -> Seq<Seq<char>> {
    items.map_values(|item: &'static str| item@)
}

/// Every installable name.
pub fn skill_names() -> (names: Vec<&'static str>)
    ensures
        str_views(names@) == all_skills().map_values(|skill: SkillView| skill.name),
{
    broadcast use group_views;

    let list = skills();
    let ghost wanted = all_skills().map_values(|skill: SkillView| skill.name);
    let mut names: Vec<&'static str> = Vec::new();
    let mut index: usize = 0;
    assert(str_views(names@) =~= wanted.take(0));
    while index < list.len()
        invariant
            index <= list@.len(),
            views(list@) == all_skills(),
            wanted == all_skills().map_values(|skill: SkillView| skill.name),
            str_views(names@) == wanted.take(index as int),
        decreases list@.len() - index,
    {
        let ghost before = names@;
        let skill: Skill = list[index];
        assert(skill@ == all_skills()[index as int]);
        names.push(skill.name);
        assert(str_views(names@) =~= str_views(before).push(skill.name@));
        assert(wanted.take(index as int + 1) =~= wanted.take(index as int).push(skill.name@));
        index += 1;
    }
    assert(wanted.take(index as int) =~= wanted);
    names
}

/// No two skills share a name, so none is installed over another.
pub proof fn skill_names_are_distinct(first: int, second: int)
    requires
        0 <= first < second < all_skills().len(),
    ensures
        all_skills()[first].name != all_skills()[second].name,
{
    reveal_strlit("docker-maid");
    reveal_strlit("docker-maid-config");
    reveal_strlit("docker-maid-repo");
    assert("docker-maid"@.len() == 11);
    assert("docker-maid-config"@.len() == 18);
    assert("docker-maid-repo"@.len() == 16);
}

/// Which harness's directory takes the skills.
#[derive(Debug, Clone, Copy, PartialEq, Eq, Structural)]
pub enum InstallTarget {
    Claude,
    Codex,
    /// A directory that the caller names.
    Generic,
}

/// The word by which a target is chosen: for the first the one it was given, for
/// the others always the same.
pub open spec fn target_text(target: InstallTarget, word: Seq<char>) -> Seq<char> {
    match target {
        InstallTarget::Claude => word,
        InstallTarget::Codex => "codex"@,
        InstallTarget::Generic => "generic"@,
    }
}

/// Where a target keeps skills below the home directory: a harness in a hidden
/// directory of its own name. A generic one has no such place.
pub open spec fn home_directory_of(target: InstallTarget, word: Seq<char>) -> Option<Seq<char>> {
    match target {
        InstallTarget::Claude => Some("."@ + word + "/skills"@),
        InstallTarget::Codex => Some(".codex/skills"@),
        InstallTarget::Generic => None,
    }
}

impl InstallTarget {
    /// Where the target keeps skills below the home directory; `word` is the
    /// name by which the first target is chosen. A generic one has no such
    /// place: guessing would be wrong.
    pub fn home_relative_directory(self, word: &str) -> (path: Option<String>)
        ensures
            opt_view(path) == home_directory_of(self, word@),
    {
        match self {
            InstallTarget::Claude => Some(concat3(".", word, "/skills")),
            InstallTarget::Codex => Some(".codex/skills".to_owned()),
            InstallTarget::Generic => None,
        }
    }
}

/// A target with the name by which it is chosen.
#[derive(Debug, Clone, PartialEq, Eq)]
pub struct Harness {
    pub target: InstallTarget,
    pub word: String,
}

/// What a chosen target says.
pub struct HarnessView {
    pub target: InstallTarget,
    pub word: Seq<char>,
}

impl View for Harness {
    type V = HarnessView;

    open spec fn view(&self) -> HarnessView {
        HarnessView { target: self.target, word: self.word@ }
    }
}

impl Harness {
    /// The word by which the target is chosen.
    pub fn as_text(&self) -> (word: String)
        ensures
            word@ == target_text(self.target, self.word@),
    {
        match self.target {
            InstallTarget::Claude => self.word.clone(),
            InstallTarget::Codex => "codex".to_owned(),
            InstallTarget::Generic => "generic".to_owned(),
        }
    }
}

/// Why a skill cannot be installed.
#[derive(Debug, PartialEq, Eq)]
pub enum SkillError {
    /// A generic target came without a directory.
    DestinationRequired,
    /// No home directory is known.
    HomeUnknown { target: String },
    /// Another document stands there.
    WouldOverwrite { path: String },
    /// A file could not be written.
    Write { path: String, message: String },
}

/// What a skill error says.
pub open spec fn skill_error_text(error: SkillError) -> Seq<char> {
    match error {
        SkillError::DestinationRequired =>
            "a generic target needs --dest to say which skills directory to install into"@,
        SkillError::HomeUnknown { target } => "cannot locate a home directory for the "@
            + target@ + " target; pass --dest instead"@,
        SkillError::WouldOverwrite { path } => path@
            + " already holds a different skill; pass --force to replace it"@,
        SkillError::Write { path, message } => "cannot write "@ + path@ + ": "@ + message@,
    }
}

impl SkillError {
    /// The error in words.
    pub fn message(&self) -> (words: String)
        ensures
            words@ == skill_error_text(*self),
    {
        match self {
            SkillError::DestinationRequired =>
                "a generic target needs --dest to say which skills directory to install into".to_owned(),
            SkillError::HomeUnknown { target } => concat3(
                "cannot locate a home directory for the ",
                target.as_str(),
                " target; pass --dest instead",
            ),
            SkillError::WouldOverwrite { path } => concat2(
                path.as_str(),
                " already holds a different skill; pass --force to replace it",
            ),
            SkillError::Write { path, message } => concat4(
                "cannot write ",
                path.as_str(),
                ": ",
                message.as_str(),
            ),
        }
    }
}

/// What an install does to a file.
#[derive(Debug, Clone, Copy, PartialEq, Eq, Structural)]
pub enum InstallStatus {
    /// Nothing was there before.
    Written,
    /// The same document is there already.
    Unchanged,
    /// Another document is replaced.
    Replaced,
}

/// The word for a status.
pub open spec fn status_text(status: InstallStatus) -> Seq<char> {
    match status {
        InstallStatus::Written => "written"@,
        InstallStatus::Unchanged => "unchanged"@,
        InstallStatus::Replaced => "replaced"@,
    }
}

impl InstallStatus {
    /// The word for the status.
    pub fn as_text(self) -> (word: &'static str)
        ensures
            word@ == status_text(self),
    {
        match self {
            InstallStatus::Written => "written",
            InstallStatus::Unchanged => "unchanged",
            InstallStatus::Replaced => "replaced",
        }
    }
}

/// Where one skill goes, and what happens there.
#[derive(Debug, PartialEq, Eq)]
pub struct Installation {
    pub name: &'static str,
    pub path: String,
    pub status: InstallStatus,
}

/// What an installation says.
pub struct InstallationView {
    pub name: Seq<char>,
    pub path: Seq<char>,
    pub status: InstallStatus,
}

impl View for Installation {
    type V = InstallationView;

    open spec fn view(&self) -> InstallationView {
        InstallationView { name: self.name@, path: self.path@, status: self.status }
    }
}

/// What stands in the way of an install.
pub enum InstallFault {
    DestinationRequired,
    HomeUnknown(Seq<char>),
    WouldOverwrite(Seq<char>),
}

/// Whether an error states a fault.
pub open spec fn states(error: SkillError, fault: InstallFault) -> bool {
    match fault {
        InstallFault::DestinationRequired => error is DestinationRequired,
        InstallFault::HomeUnknown(wanted) => error matches SkillError::HomeUnknown { target }
            && target@ == wanted,
        InstallFault::WouldOverwrite(wanted) => error matches SkillError::WouldOverwrite { path }
            && path@ == wanted,
    }
}

/// The directory that takes the skills.
pub open spec fn skills_directory(
    harness: HarnessView,
    destination: Option<Seq<char>>,
    home: Option<Seq<char>>,
) -> Result<Seq<char>, InstallFault> {
    match (destination, home_directory_of(harness.target, harness.word)) {
        (Some(given), _) => Ok(given),
        (None, Some(relative)) => match home {
            Some(root) => Ok(below(root, relative)),
            None => Err(InstallFault::HomeUnknown(target_text(harness.target, harness.word))),
        },
        (None, None) => Err(InstallFault::DestinationRequired),
    }
}

/// The file that a skill becomes.
pub open spec fn skill_path(
    name: Seq<char>,
    harness: HarnessView,
    destination: Option<Seq<char>>,
    home: Option<Seq<char>>,
) -> Result<Seq<char>, InstallFault> {
    match skills_directory(harness, destination, home) {
        Ok(directory) => Ok(below(below(directory, name), SKILL_FILE@)),
        Err(fault) => Err(fault),
    }
}

/// Finds the file that a skill becomes.
pub fn resolve_skill_path(
    skill: &Skill,
    harness: &Harness,
    destination: &Option<String>,
    home: &Option<String>,
) -> (outcome: Result<String, SkillError>)
    ensures
        match skill_path(skill@.name, harness@, opt_view(*destination), opt_view(*home)) {
            Ok(path) => outcome matches Ok(text) && text@ == path,
            Err(fault) => outcome matches Err(error) && states(error, fault),
        },
{
    let directory = match destination {
        Some(given) => given.clone(),
        None => match harness.target.home_relative_directory(harness.word.as_str()) {
            Some(relative) => match home {
                Some(root) => join_path(root.as_str(), relative.as_str()),
                None => {
                    return Err(SkillError::HomeUnknown { target: harness.as_text() });
                },
            },
            None => {
                return Err(SkillError::DestinationRequired);
            },
        },
    };
    let own = join_path(directory.as_str(), skill.name);
    Ok(join_path(own.as_str(), SKILL_FILE))
}

/// What installing a document over what stands there would do.
pub open spec fn status_of(
    document: Seq<char>,
    current: Option<Seq<char>>,
    force: bool,
) -> Option<InstallStatus> {
    match current {
        None => Some(InstallStatus::Written),
        Some(text) => if text == document {
            Some(InstallStatus::Unchanged)
        } else if force {
            Some(InstallStatus::Replaced)
        } else {
            None
        },
    }
}

/// What installing a skill over what stands there would do.
pub fn planned_status(skill: &Skill, path: &str, current: &Option<String>, force: bool) -> (outcome:
    Result<InstallStatus, SkillError>)
    ensures
        match status_of(skill@.document, opt_view(*current), force) {
            Some(status) => outcome == Ok::<InstallStatus, SkillError>(status),
            None => outcome matches Err(error) && states(error, InstallFault::WouldOverwrite(path@)),
        },
{
    match current {
        None => Ok(InstallStatus::Written),
        Some(text) => if text_eq(text.as_str(), skill.document) {
            Ok(InstallStatus::Unchanged)
        } else if force {
            Ok(InstallStatus::Replaced)
        } else {
            Err(SkillError::WouldOverwrite { path: path.to_owned() })
        },
    }
}

/// The installs of skills, all of them or none: `current` holds what stands at
/// each skill's file.
pub open spec fn installs_of(
    list: Seq<SkillView>,
    harness: HarnessView,
    destination: Option<Seq<char>>,
    home: Option<Seq<char>>,
    current: Seq<Option<Seq<char>>>,
    force: bool,
) -> Result<Seq<InstallationView>, InstallFault>
    decreases list.len(),
{
    if list.len() == 0 {
        Ok(Seq::empty())
    } else {
        let last = list.last();
        match installs_of(list.drop_last(), harness, destination, home, current, force) {
            Err(fault) => Err(fault),
            Ok(before) => match skill_path(last.name, harness, destination, home) {
                Err(fault) => Err(fault),
                Ok(path) => match status_of(last.document, current[list.len() - 1], force) {
                    Some(status) => Ok(
                        before.push(InstallationView { name: last.name, path, status }),
                    ),
                    None => Err(InstallFault::WouldOverwrite(path)),
                },
            },
        }
    }
}

proof fn lemma_fault_stays(
    list: Seq<SkillView>,
    harness: HarnessView,
    destination: Option<Seq<char>>,
    home: Option<Seq<char>>,
    current: Seq<Option<Seq<char>>>,
    force: bool,
    count: int,
)
    requires
        0 <= count <= list.len(),
        installs_of(list.take(count), harness, destination, home, current, force) is Err,
    ensures
        installs_of(list, harness, destination, home, current, force) == installs_of(
            list.take(count),
            harness,
            destination,
            home,
            current,
            force,
        ),
    decreases list.len(),
{
    if count == list.len() {
        assert(list.take(count) =~= list);
    } else {
        assert(list.drop_last().take(count) =~= list.take(count));
        lemma_fault_stays(list.drop_last(), harness, destination, home, current, force, count);
    }
}

/// Optional texts as their characters.
pub open spec fn opt_views(items: Seq<Option<String>>) -> Seq<Option<Seq<char>>> {
    items.map_values(|item: Option<String>| opt_view(item))
}

/// Settles the installs of skills before anything is written; `current` holds
/// what stands at each skill's file.
pub fn install_skills(
    list: &Vec<Skill>,
    harness: &Harness,
    destination: &Option<String>,
    home: &Option<String>,
    current: &Vec<Option<String>>,
    force: bool,
) -> (outcome: Result<Vec<Installation>, SkillError>)
    requires
        current@.len() == list@.len(),
    ensures
        match installs_of(
            views(list@),
            harness@,
            opt_view(*destination),
            opt_view(*home),
            opt_views(current@),
            force,
        ) {
            Ok(installs) => outcome matches Ok(made) && views(made@) == installs,
            Err(fault) => outcome matches Err(error) && states(error, fault),
        },
{
    broadcast use group_views;

    let ghost all = views(list@);
    let ghost standing = opt_views(current@);
    let mut installs: Vec<Installation> = Vec::new();
    let mut index: usize = 0;
    assert(all.take(0).len() == 0);
    assert(views(installs@) =~= Seq::empty());
    while index < list.len()
        invariant
            index <= list@.len(),
            current@.len() == list@.len(),
            all == views(list@),
            standing == opt_views(current@),
            installs_of(
                all.take(index as int),
                harness@,
                opt_view(*destination),
                opt_view(*home),
                standing,
                force,
            ) == Ok::<Seq<InstallationView>, InstallFault>(views(installs@)),
        decreases list@.len() - index,
    {
        let skill: Skill = list[index];
        proof {
            assert(all.take(index as int + 1).drop_last() =~= all.take(index as int));
            assert(all.take(index as int + 1).last() == skill@);
            assert(standing[index as int] == opt_view(current@[index as int]));
        }
        let path = match resolve_skill_path(&skill, harness, destination, home) {
            Ok(path) => path,
            Err(error) => {
                proof {
                    lemma_fault_stays(
                        all,
                        harness@,
                        opt_view(*destination),
                        opt_view(*home),
                        standing,
                        force,
                        index as int + 1,
                    );
                }
                return Err(error);
            },
        };
        let status = match planned_status(&skill, path.as_str(), &current[index], force) {
            Ok(status) => status,
            Err(error) => {
                proof {
                    lemma_fault_stays(
                        all,
                        harness@,
                        opt_view(*destination),
                        opt_view(*home),
                        standing,
                        force,
                        index as int + 1,
                    );
                }
                return Err(error);
            },
        };
        let install = Installation { name: skill.name, path, status };
        let ghost listed = views(installs@);
        installs.push(install);
        assert(views(installs@) == listed.push(install@));
        index += 1;
    }
    assert(all.take(index as int) =~= all);
    Ok(installs)
}

/// Without force nothing that differs is replaced: every install that goes
/// through writes a new file or finds its own document there.
pub proof fn nothing_is_replaced_without_force(
    list: Seq<SkillView>,
    harness: HarnessView,
    destination: Option<Seq<char>>,
    home: Option<Seq<char>>,
    current: Seq<Option<Seq<char>>>,
    index: int,
)
    requires
        installs_of(list, harness, destination, home, current, false) is Ok,
        0 <= index < list.len(),
    ensures
        installs_of(list, harness, destination, home, current, false)->Ok_0.len() == list.len(),
        installs_of(list, harness, destination, home, current, false)->Ok_0[index].status
            != InstallStatus::Replaced,
        current[index] is None || current[index] == Some(list[index].document),
    decreases list.len(),
{
    reveal_with_fuel(installs_of, 2);
    let rest = list.drop_last();
    if rest.len() > 0 {
        nothing_is_replaced_without_force(
            rest,
            harness,
            destination,
            home,
            current,
            if index < rest.len() {
                index
            } else {
                0
            },
        );
    }
    if index < rest.len() {
        assert(rest[index] == list[index]);
    }
}

/// Whether a line opens or closes a block of code.
pub open spec fn is_fence(line: Seq<char>) -> bool {
    "```"@.is_prefix_of(trimmed_start(line))
}

/// Whether the line behind these stands in a block of code.
pub open spec fn in_code(lines: Seq<Seq<char>>) -> bool
    decreases lines.len(),
{
    if lines.len() == 0 {
        false
    } else {
        in_code(lines.drop_last()) != is_fence(lines.last())
    }
}

/// The parts of a text behind occurrences of a marker.
pub open spec fn tails(text: Seq<char>, marker: Seq<char>) -> Seq<Seq<char>>
    decreases text.len(),
{
    match first_at(text, marker) {
        None => Seq::empty(),
        Some(start) => {
            if 0 <= start && marker.len() > 0 && start + marker.len() <= text.len() {
                let rest = text.skip(start + marker.len());
                let head = match first_at(rest, marker) {
                    Some(end) => rest.take(end),
                    None => rest,
                };
                seq![head] + tails(rest, marker)
            } else {
                Seq::empty()
            }
        },
    }
}

/// The first word that is no flag.
pub open spec fn first_plain(list: Seq<Seq<char>>) -> Option<Seq<char>>
    decreases list.len(),
{
    if list.len() == 0 {
        None
    } else if "--"@.is_prefix_of(list[0]) {
        first_plain(list.drop_first())
    } else {
        Some(list[0])
    }
}

/// A text without closing brackets at its end.
pub open spec fn unclosed(text: Seq<char>) -> Seq<char>
    decreases text.len(),
{
    if text.len() > 0 && text.last() == ')' {
        unclosed(text.drop_last())
    } else {
        text
    }
}

/// The command that a tail names, as a list.
pub open spec fn command_in(tail: Seq<char>) -> Seq<Seq<char>> {
    match first_plain(words(tail)) {
        Some(word) => seq![unclosed(word)],
        None => Seq::empty(),
    }
}

/// The commands that tails name.
pub open spec fn commands_in(list: Seq<Seq<char>>) -> Seq<Seq<char>>
    decreases list.len(),
{
    if list.len() == 0 {
        Seq::empty()
    } else {
        commands_in(list.drop_last()) + command_in(list.last())
    }
}

/// What stands before a command of this tool.
pub const BINARY: &'static str = "docker_maid ";

/// The commands that lines of a document run.
pub open spec fn commands_run(lines: Seq<Seq<char>>) -> Seq<Seq<char>>
    decreases lines.len(),
{
    if lines.len() == 0 {
        Seq::empty()
    } else {
        let before = commands_run(lines.drop_last());
        if in_code(lines.drop_last()) && !is_fence(lines.last()) {
            before + commands_in(tails(lines.last(), BINARY@))
        } else {
            before
        }
    }
}

fn plain_word(list: &Vec<String>) -> (found: Option<String>)
    ensures
        opt_view(found) == first_plain(views(list@)),
{
    broadcast use group_views;

    let ghost all = views(list@);
    let mut index: usize = 0;
    assert(all.skip(0) =~= all);
    while index < list.len()
        invariant
            index <= list@.len(),
            all == views(list@),
            first_plain(all) == first_plain(all.skip(index as int)),
        decreases list@.len() - index,
    {
        assert(all.skip(index as int)[0] == list@[index as int]@);
        assert(all.skip(index as int).drop_first() =~= all.skip(index as int + 1));
        if !starts_with(list[index].as_str(), "--") {
            return Some(list[index].clone());
        }
        index += 1;
    }
    None
}

fn drop_closing(text: &str) -> (rest: String)
    ensures
        rest@ == unclosed(text@),
{
    let characters = chars_of(text);
    let mut end: usize = characters.len();
    assert(text@.take(end as int) =~= text@);
    while end > 0 && characters[end - 1] == ')'
        invariant
            end <= characters@.len(),
            characters@ == text@,
            unclosed(text@) == unclosed(text@.take(end as int)),
        decreases end,
    {
        assert(text@.take(end as int).drop_last() =~= text@.take(end as int - 1));
        end -= 1;
    }
    assert(text@.subrange(0, end as int) =~= text@.take(end as int));
    text_of(&characters, 0, end)
}

fn push_command(commands: &mut Vec<String>, tail: &str)
    ensures
        views(final(commands)@) == views(old(commands)@) + command_in(tail@),
{
    broadcast use group_views;

    let ghost before = views(commands@);
    match plain_word(&split_words(tail)) {
        Some(word) => {
            let command = drop_closing(word.as_str());
            commands.push(command);
            assert(views(commands@) =~= before + seq![command@]);
        },
        None => {
            assert(views(commands@) =~= before + Seq::<Seq<char>>::empty());
        },
    }
}

fn push_line_commands(commands: &mut Vec<String>, line: &str)
    ensures
        views(final(commands)@) == views(old(commands)@) + commands_in(tails(line@, BINARY@)),
{
    broadcast use group_views;

    let marker = chars_of(BINARY);
    proof {
        reveal_strlit("docker_maid ");
    }
    let ghost before = views(commands@);
    let mut rest = line.to_owned();
    let ghost mut done: Seq<Seq<char>> = Seq::empty();
    assert(done + tails(rest@, BINARY@) =~= tails(line@, BINARY@));
    assert(views(commands@) =~= before + commands_in(done));
    let mut found = find_text(rest.as_str(), BINARY);
    while found.is_some()
        invariant
            match found {
                Some(at) => first_at(rest@, BINARY@) == Some(at as int) && stands_at(
                    rest@,
                    BINARY@,
                    at as int,
                ),
                None => first_at(rest@, BINARY@) is None,
            },
            marker@ == BINARY@,
            BINARY@.len() == 12,
            tails(line@, BINARY@) == done + tails(rest@, BINARY@),
            views(commands@) == before + commands_in(done),
        decreases rest@.len(),
    {
        let start: usize = found.unwrap();
        let characters = chars_of(rest.as_str());
        let total: usize = characters.len();
        assert(start + marker@.len() <= total);
        let behind: usize = start + marker.len();
        let next = text_of(&characters, behind, total);
        assert(next@ =~= rest@.skip(start + BINARY@.len()));
        let head = match find_text(next.as_str(), BINARY) {
            Some(end) => {
                let inner = chars_of(next.as_str());
                let part = text_of(&inner, 0, end);
                assert(part@ =~= next@.take(end as int));
                part
            },
            None => next.clone(),
        };
        let ghost listed = views(commands@);
        push_command(commands, head.as_str());
        proof {
            assert(tails(rest@, BINARY@) == seq![head@] + tails(next@, BINARY@));
            assert(done.push(head@).drop_last() =~= done);
            assert(commands_in(done.push(head@)) =~= commands_in(done) + command_in(head@));
            assert(views(commands@) =~= before + commands_in(done.push(head@)));
            assert(done + (seq![head@] + tails(next@, BINARY@)) =~= done.push(head@) + tails(
                next@,
                BINARY@,
            ));
            done = done.push(head@);
        }
        rest = next;
        found = find_text(rest.as_str(), BINARY);
    }
    assert(tails(rest@, BINARY@) =~= Seq::<Seq<char>>::empty());
    assert(done + tails(rest@, BINARY@) =~= done);
}

/// Every command of this tool that a document's blocks of code run, in order,
/// each once.
pub fn advertised_commands(document: &str) -> (commands: Vec<String>)
    ensures
        views(commands@) == ordered_once::<String>(commands_run(pieces(document@, '\n'))),
{
    broadcast use group_views;

    let lines = split(document, '\n');
    let ghost all = views(lines@);
    let mut commands: Vec<String> = Vec::new();
    let mut inside = false;
    let mut index: usize = 0;
    assert(all.take(0).len() == 0);
    assert(views(commands@) =~= commands_run(all.take(0)));
    while index < lines.len()
        invariant
            index <= lines@.len(),
            all == views(lines@),
            inside == in_code(all.take(index as int)),
            views(commands@) == commands_run(all.take(index as int)),
        decreases lines@.len() - index,
    {
        let line = lines[index].as_str();
        assert(all.take(index as int + 1).drop_last() =~= all.take(index as int));
        assert(all.take(index as int + 1).last() == line@);
        if starts_with(trim_start(line).as_str(), "```") {
            inside = !inside;
        } else if inside {
            push_line_commands(&mut commands, line);
        }
        index += 1;
    }
    assert(all.take(index as int) =~= all);
    dedup(sort(commands))
}

} // verus!
