//! The vocabulary of labels that count as evidence of ownership.
//!
//! A key outside this table is no evidence, however convincing it looks.

use crate::text::{group_views, starts_with, text_eq, views};
use vstd::prelude::*;

verus! {

/// How an entry matches a label key.
#[derive(Debug, Clone, Copy, PartialEq, Eq, Structural)]
pub enum Match {
    /// The key equals the entry's key.
    Exact,
    /// The key begins with the entry's key, which is a namespace.
    Prefix,
}

pub open spec fn match_text(matching: Match) -> Seq<char> {
    match matching {
        Match::Exact => "exact"@,
        Match::Prefix => "prefix"@,
    }
}

impl Match {
    /// The word for this way of matching.
    pub fn as_text(self) -> (word: &'static str)
        ensures
            word@ == match_text(self),
    {
        match self {
            Match::Exact => "exact",
            Match::Prefix => "prefix",
        }
    }
}

/// What a matching label stands for.
#[derive(Debug, Clone, Copy, PartialEq, Eq, Structural)]
pub enum Role {
    /// The key and its value together name a family of resources.
    Family,
}

pub open spec fn role_text(role: Role) -> Seq<char> {
    match role {
        Role::Family => "family"@,
    }
}

impl Role {
    /// The word for this role.
    pub fn as_text(self) -> (word: &'static str)
        ensures
            word@ == role_text(self),
    {
        match self {
            Role::Family => "family",
        }
    }
}

/// One entry of the vocabulary.
#[derive(Debug, Clone, Copy, PartialEq, Eq)]
pub struct LabelKey {
    /// The exact key, or the namespace with its trailing dot.
    pub key: &'static str,
    /// Whether `key` is compared whole or as a prefix.
    pub matching: Match,
    /// What a match stands for.
    pub role: Role,
    /// Who writes the label in practice.
    pub writer: &'static str,
    /// Why the key is evidence of ownership.
    pub purpose: &'static str,
}

/// What an entry of the vocabulary says.
#[verifier::ext_equal]
pub struct LabelKeyView {
    pub key: Seq<char>,
    pub matching: Match,
    pub role: Role,
    pub writer: Seq<char>,
    pub purpose: Seq<char>,
}

impl View for LabelKey {
    type V = LabelKeyView;

    open spec fn view(&self) -> LabelKeyView {
        LabelKeyView {
            key: self.key@,
            matching: self.matching,
            role: self.role,
            writer: self.writer@,
            purpose: self.purpose@,
        }
    }
}

/// Whether an entry covers a label key.
pub open spec fn covers(entry: LabelKeyView, key: Seq<char>) -> bool {
    match entry.matching {
        Match::Exact => key == entry.key,
        Match::Prefix => entry.key.is_prefix_of(key),
    }
}

impl LabelKey {
    /// Whether a label key matches this entry.
    pub fn matches(&self, key: &str) -> (found: bool)
        ensures
            found == covers(self@, key@),
    {
        match self.matching {
            Match::Exact => text_eq(key, self.key),
            Match::Prefix => starts_with(key, self.key),
        }
    }
}

pub open spec fn compose_entry() -> LabelKeyView {
    LabelKeyView {
        key: "com.docker.compose.project"@,
        matching: Match::Exact,
        role: Role::Family,
        writer: "Docker Compose"@,
        purpose: "Groups every resource Compose created for one project, so the whole stack is adopted or left alone together"@,
    }
}

pub open spec fn managed_entry() -> LabelKeyView {
    LabelKeyView {
        key: "dev.docker-maid.managed"@,
        matching: Match::Exact,
        role: Role::Family,
        writer: "docker_maid"@,
        purpose: "Marks a resource this tool stamped, so a family it created is recognised on a later pass"@,
    }
}

pub open spec fn agent_entry() -> LabelKeyView {
    LabelKeyView {
        key: "ai-agent."@,
        matching: Match::Prefix,
        role: Role::Family,
        writer: "coding agents"@,
        purpose: "Namespace an agent uses to claim what it created, for example ai-agent.owner to name the agent"@,
    }
}

pub open spec fn devcontainer_entry() -> LabelKeyView {
    LabelKeyView {
        key: "devcontainer."@,
        matching: Match::Prefix,
        role: Role::Family,
        writer: "Dev Containers"@,
        purpose: "Namespace the Dev Containers tooling writes, for example devcontainer.local_folder to name the workspace"@,
    }
}

/// The vocabulary, most specific entry first.
pub open spec fn entries() -> Seq<LabelKeyView> {
    seq![compose_entry(), managed_entry(), agent_entry(), devcontainer_entry()]
}

/// Every label key that counts as evidence of ownership, most specific first.
pub fn vocabulary() -> (table: Vec<LabelKey>)
    ensures
        views(table@) == entries(),
{
    let mut table: Vec<LabelKey> = Vec::new();
    table.push(
        LabelKey {
            key: "com.docker.compose.project",
            matching: Match::Exact,
            role: Role::Family,
            writer: "Docker Compose",
            purpose: "Groups every resource Compose created for one project, so the whole stack is adopted or left alone together",
        },
    );
    table.push(
        LabelKey {
            key: "dev.docker-maid.managed",
            matching: Match::Exact,
            role: Role::Family,
            writer: "docker_maid",
            purpose: "Marks a resource this tool stamped, so a family it created is recognised on a later pass",
        },
    );
    table.push(
        LabelKey {
            key: "ai-agent.",
            matching: Match::Prefix,
            role: Role::Family,
            writer: "coding agents",
            purpose: "Namespace an agent uses to claim what it created, for example ai-agent.owner to name the agent",
        },
    );
    table.push(
        LabelKey {
            key: "devcontainer.",
            matching: Match::Prefix,
            role: Role::Family,
            writer: "Dev Containers",
            purpose: "Namespace the Dev Containers tooling writes, for example devcontainer.local_folder to name the workspace",
        },
    );
    assert(views(table@) =~= entries());
    table
}

/// How an entry is shown: its key, with a star behind a prefix, its role and
/// writer, and on a line below why it is evidence.
pub open spec fn entry_text(entry: LabelKeyView) -> Seq<char> {
    entry.key + (match entry.matching {
        Match::Exact => "  "@,
        Match::Prefix => "*  "@,
    }) + role_text(entry.role) + "  written by "@ + entry.writer + "\n    "@ + entry.purpose + "\n"@
}

/// The first `count` entries of a table as text.
pub open spec fn label_lines(table: Seq<LabelKeyView>, count: int) -> Seq<char>
    decreases count,
{
    if count <= 0 {
        Seq::empty()
    } else {
        label_lines(table, count - 1) + entry_text(table[count - 1])
    }
}

/// The vocabulary as text.
pub fn label_table() -> (text: String)
    ensures
        text@ == label_lines(entries(), entries().len() as int),
{
    broadcast use group_views;

    let table = vocabulary();
    let mut text = String::new();
    let mut index: usize = 0;
    assert(text@ =~= label_lines(entries(), 0));
    while index < table.len()
        invariant
            index <= table@.len(),
            views(table@) == entries(),
            text@ == label_lines(entries(), index as int),
        decreases table@.len() - index,
    {
        let entry = &table[index];
        let ghost before = text@;
        text.append(entry.key);
        match entry.matching {
            Match::Exact => text.append("  "),
            Match::Prefix => text.append("*  "),
        }
        text.append(entry.role.as_text());
        text.append("  written by ");
        text.append(entry.writer);
        text.append("\n    ");
        text.append(entry.purpose);
        text.append("\n");
        assert(entries()[index as int] == entry@);
        assert(text@ =~= before + entry_text(entry@));
        index += 1;
    }
    text
}

/// The first entry of a table that covers a key.
pub open spec fn first_cover(table: Seq<LabelKeyView>, key: Seq<char>) -> Option<LabelKeyView>
    decreases table.len(),
{
    if table.len() == 0 {
        None
    } else if covers(table[0], key) {
        Some(table[0])
    } else {
        first_cover(table.drop_first(), key)
    }
}

/// The entry of the vocabulary that a key falls under.
pub open spec fn entry_of(key: Seq<char>) -> Option<LabelKeyView> {
    first_cover(entries(), key)
}

/// Whether a key is evidence of ownership.
pub open spec fn known(key: Seq<char>) -> bool {
    entry_of(key) is Some
}

/// The entry that a label key matches, the first in the vocabulary's order.
pub fn lookup(key: &str) -> (found: Option<LabelKey>)
    ensures
        match found {
            Some(entry) => entry_of(key@) == Some(entry@),
            None => entry_of(key@) is None,
        },
{
    broadcast use group_views;

    let table = vocabulary();
    let mut index: usize = 0;
    assert(entries().skip(0) =~= entries());
    while index < table.len()
        invariant
            index <= table@.len(),
            views(table@) == entries(),
            entry_of(key@) == first_cover(entries().skip(index as int), key@),
        decreases table@.len() - index,
    {
        let entry: LabelKey = table[index];
        assert(entries().skip(index as int)[0] == entry@);
        if entry.matches(key) {
            return Some(entry);
        }
        assert(entries().skip(index as int).drop_first() =~= entries().skip(index + 1));
        index += 1;
    }
    None
}

/// Whether a label key is evidence of ownership.
pub fn is_known(key: &str) -> (found: bool)
    ensures
        found == known(key@),
{
    lookup(key).is_some()
}

/// The key under which Compose names a project.
pub fn compose_project_key() -> (key: &'static str)
    ensures
        key@ == compose_entry().key,
{
    "com.docker.compose.project"
}

/// Whether a key is the one under which Compose names a project.
pub fn is_compose_project(key: &str) -> (found: bool)
    ensures
        found == (key@ == compose_entry().key),
{
    text_eq(key, compose_project_key())
}

/// The key that marks a resource as created by this tool.
pub fn managed_key() -> (key: &'static str)
    ensures
        key@ == managed_entry().key,
{
    "dev.docker-maid.managed"
}

/// The namespace in which an agent claims what it created. It is no label key
/// by itself: a caller appends a leaf.
pub fn agent_namespace() -> (key: &'static str)
    ensures
        key@ == agent_entry().key,
{
    "ai-agent."
}

/// No key falls under two entries, so the answer of a lookup does not hang on
/// the order of the table.
pub proof fn a_key_falls_under_one_entry(key: Seq<char>, first: int, second: int)
    requires
        0 <= first < entries().len(),
        0 <= second < entries().len(),
        covers(entries()[first], key),
        covers(entries()[second], key),
    ensures
        first == second,
{
    reveal_strlit("com.docker.compose.project");
    reveal_strlit("dev.docker-maid.managed");
    reveal_strlit("ai-agent.");
    reveal_strlit("devcontainer.");
    assert("com.docker.compose.project"@[0] == 'c');
    assert("dev.docker-maid.managed"@[0] == 'd');
    assert("ai-agent."@[0] == 'a');
    assert("devcontainer."@[0] == 'd');
    assert("dev.docker-maid.managed"@[3] == '.');
    assert("devcontainer."@[3] == 'c');
    let a = entries()[first].key;
    let b = entries()[second].key;
    assert(key[0] == a[0] && key[0] == b[0]);
    assert(key[3] == a[3] && key[3] == b[3]);
}

/// Every entry has a key, a writer and a purpose; a namespace ends at a dot.
pub proof fn every_entry_is_usable(index: int)
    requires
        0 <= index < entries().len(),
    ensures
        entries()[index].key.len() > 0,
        entries()[index].writer.len() > 0,
        entries()[index].purpose.len() > 0,
        entries()[index].matching is Prefix ==> entries()[index].key.last() == '.',
{
    reveal_strlit("com.docker.compose.project");
    reveal_strlit("dev.docker-maid.managed");
    reveal_strlit("ai-agent.");
    reveal_strlit("devcontainer.");
    reveal_strlit("Docker Compose");
    reveal_strlit("docker_maid");
    reveal_strlit("coding agents");
    reveal_strlit("Dev Containers");
    reveal_strlit(
        "Groups every resource Compose created for one project, so the whole stack is adopted or left alone together",
    );
    reveal_strlit(
        "Marks a resource this tool stamped, so a family it created is recognised on a later pass",
    );
    reveal_strlit(
        "Namespace an agent uses to claim what it created, for example ai-agent.owner to name the agent",
    );
    reveal_strlit(
        "Namespace the Dev Containers tooling writes, for example devcontainer.local_folder to name the workspace",
    );
}

/// The entry that covers a key is the one that a lookup gives.
pub proof fn lemma_covered_is_known(index: int, key: Seq<char>)
    requires
        0 <= index < entries().len(),
        covers(entries()[index], key),
    ensures
        entry_of(key) == Some(entries()[index]),
{
    reveal_with_fuel(first_cover, 5);
    let all = entries();
    assert(all.drop_first()[0] == all[1]);
    assert(all.drop_first().drop_first()[0] == all[2]);
    assert(all.drop_first().drop_first().drop_first()[0] == all[3]);
    assert forall|other: int| 0 <= other < all.len() && covers(all[other], key) implies other
        == index by {
        a_key_falls_under_one_entry(key, other, index);
    }
}

} // verus!
