//! The labels that mark a resource at the moment it is created.
//!
//! Docker fixes a resource's labels at creation, so the stamp is handed out
//! and never written to what exists already.

use crate::labels::{
    agent_entry, agent_namespace, compose_entry, known, lemma_covered_is_known, managed_entry,
    managed_key,
};
use crate::order::text_lt;
use crate::outside::{quote, quoted};
use crate::text::{
    blank, chars_of, concat2, concat3, group_views, is_blank, is_space, join, joined,
    lemma_words_of_joined, views, words,
};
use crate::text_map::{put, slot, Labels};
use vstd::prelude::*;

verus! {

/// The value that stands under the managed key.
pub const MANAGED_VALUE: &'static str = "true";

/// The leaf under the agent namespace that names the owner.
pub const OWNER_LEAF: &'static str = "owner";

/// Why an owner's name cannot be stamped.
#[derive(Debug, PartialEq, Eq)]
pub enum StampError {
    /// The name was empty or only white space.
    BlankOwner,
    /// The name held a character that the stamp does not write.
    UnsupportedOwner { value: String },
}

/// What a stamp error says.
pub open spec fn stamp_error_text(error: StampError) -> Seq<char> {
    match error {
        StampError::BlankOwner =>
            "owner name is empty; give the agent a name or omit --owner entirely"@,
        StampError::UnsupportedOwner { value } => "owner name "@ + quoted(value@)
            + " is not supported; use letters, digits, dot, dash, and underscore only"@,
    }
}

impl StampError {
    /// The error in words.
    pub fn message(&self) -> (text: String)
        ensures
            text@ == stamp_error_text(*self),
    {
        match self {
            StampError::BlankOwner =>
                "owner name is empty; give the agent a name or omit --owner entirely".to_owned(),
            StampError::UnsupportedOwner { value } => concat3(
                "owner name ",
                quote(value.as_str()).as_str(),
                " is not supported; use letters, digits, dot, dash, and underscore only",
            ),
        }
    }
}

/// Whether a character may stand in an owner's name: none that a shell reads.
pub open spec fn owner_char(character: char) -> bool {
    let code = character as u32;
    ||| 0x30 <= code <= 0x39
    ||| 0x41 <= code <= 0x5a
    ||| 0x61 <= code <= 0x7a
    ||| character == '.'
    ||| character == '-'
    ||| character == '_'
}

fn is_supported_owner_char(character: char) -> (supported: bool)
    ensures
        supported == owner_char(character),
{
    let code: u32 = character as u32;
    (0x30 <= code && code <= 0x39) || (0x41 <= code && code <= 0x5a) || (0x61 <= code && code
        <= 0x7a) || character == '.' || character == '-' || character == '_'
}

/// Whether every character of a name may stand in an owner's name.
pub open spec fn owner_chars(name: Seq<char>) -> bool {
    forall|i: int| 0 <= i < name.len() ==> owner_char(#[trigger] name[i])
}

/// Whether the stamp takes this owner, or goes without one.
pub open spec fn stampable(owner: Option<Seq<char>>) -> bool {
    match owner {
        Some(name) => !is_blank(name) && owner_chars(name),
        None => true,
    }
}

/// The key that names the owner.
pub open spec fn owner_key() -> Seq<char> {
    agent_entry().key + OWNER_LEAF@
}

/// The labels of a stamp, in the order of their keys.
pub open spec fn stamp_labels(owner: Option<Seq<char>>) -> Seq<(Seq<char>, Seq<char>)> {
    let mark = (managed_entry().key, MANAGED_VALUE@);
    match owner {
        Some(name) => seq![(owner_key(), name), mark],
        None => seq![mark],
    }
}

proof fn lemma_stamp_labels(name: Seq<char>)
    ensures
        put(Seq::<(Seq<char>, Seq<char>)>::empty(), managed_entry().key, MANAGED_VALUE@)
            == stamp_labels(None),
        put(stamp_labels(None), owner_key(), name) == stamp_labels(Some(name)),
{
    let none = Seq::<(Seq<char>, Seq<char>)>::empty();
    assert(put(none, managed_entry().key, MANAGED_VALUE@) =~= stamp_labels(None));
    reveal_strlit("ai-agent.");
    reveal_strlit("dev.docker-maid.managed");
    assert(owner_key()[0] == 'a');
    assert(managed_entry().key[0] == 'd');
    assert(!text_lt(managed_entry().key, owner_key()));
    assert(stamp_labels(None).drop_last() =~= none);
    reveal_with_fuel(slot, 2);
    assert(slot(stamp_labels(None), owner_key()) == 0);
    assert(managed_entry().key != owner_key());
    assert(put(stamp_labels(None), owner_key(), name) =~= stamp_labels(Some(name)));
}

/// The labels that mark a resource as created by this tool or an agent.
#[derive(Debug, PartialEq, Eq)]
pub struct Stamp {
    labels: Labels,
}

impl View for Stamp {
    type V = Seq<(Seq<char>, Seq<char>)>;

    closed spec fn view(&self) -> Seq<(Seq<char>, Seq<char>)> {
        self.labels@
    }
}

impl Clone for Stamp {
    fn clone(&self) -> (copy: Self)
        ensures
            copy@ == self@,
    {
        Stamp { labels: self.labels.clone() }
    }
}

/// The arguments that put labels on what a Docker command creates.
pub open spec fn label_arguments(labels: Seq<(Seq<char>, Seq<char>)>) -> Seq<Seq<char>>
    decreases labels.len(),
{
    if labels.len() == 0 {
        Seq::empty()
    } else {
        label_arguments(labels.drop_last()).push("--label"@).push(
            labels.last().0 + "="@ + labels.last().1,
        )
    }
}

impl Stamp {
    /// The stamp, with the owner's name where one is given.
    pub fn new(owner: Option<&str>) -> (stamp: Result<Stamp, StampError>)
        ensures
            match stamp {
                Ok(made) => match owner {
                    Some(name) => stampable(Some(name@)) && made@ == stamp_labels(Some(name@)),
                    None => made@ == stamp_labels(None),
                },
                Err(StampError::BlankOwner) => owner is Some && is_blank(owner->0@),
                Err(StampError::UnsupportedOwner { value }) => owner is Some && !is_blank(owner->0@)
                    && !owner_chars(owner->0@) && value@ == owner->0@,
            },
    {
        let mut labels: Labels = Labels::new();
        labels.insert(managed_key().to_owned(), MANAGED_VALUE.to_owned());
        proof {
            lemma_stamp_labels(Seq::empty());
        }
        if let Some(name) = owner {
            if blank(name) {
                return Err(StampError::BlankOwner);
            }
            let characters = chars_of(name);
            let mut index: usize = 0;
            while index < characters.len()
                invariant
                    index <= characters@.len(),
                    characters@ == name@,
                    owner == Some(name),
                    !is_blank(name@),
                    forall|i: int| 0 <= i < index ==> owner_char(#[trigger] name@[i]),
                decreases characters@.len() - index,
            {
                if !is_supported_owner_char(characters[index]) {
                    assert(!owner_char(name@[index as int]));
                    return Err(StampError::UnsupportedOwner { value: name.to_owned() });
                }
                index += 1;
            }
            labels.insert(concat2(agent_namespace(), OWNER_LEAF), name.to_owned());
            proof {
                lemma_stamp_labels(name@);
            }
        }
        Ok(Stamp { labels })
    }

    /// The labels to apply, in the order of their keys.
    pub fn labels(&self) -> (labels: &Labels)
        ensures
            labels@ == self@,
    {
        &self.labels
    }

    /// The stamp as arguments of a Docker command.
    pub fn docker_arguments(&self) -> (arguments: Vec<String>)
        ensures
            views(arguments@) == label_arguments(self@),
    {
        broadcast use group_views;

        let mut arguments: Vec<String> = Vec::new();
        let count: usize = self.labels.len();
        let mut index: usize = 0;
        assert(views(arguments@) =~= label_arguments(self@.take(0)));
        while index < count
            invariant
                index <= count,
                count == self@.len(),
                views(arguments@) == label_arguments(self@.take(index as int)),
            decreases count - index,
        {
            let setting = concat3(
                self.labels.key_at(index).as_str(),
                "=",
                self.labels.value_at(index).as_str(),
            );
            assert(self@.take(index as int + 1).drop_last() =~= self@.take(index as int));
            assert(self@.take(index as int + 1).last() == self@[index as int]);
            arguments.push("--label".to_owned());
            arguments.push(setting);
            index += 1;
        }
        assert(self@.take(index as int) =~= self@);
        arguments
    }

    /// The stamp as one line that a shell splits into the arguments.
    pub fn docker_argument_line(&self) -> (line: String)
        ensures
            line@ == joined(label_arguments(self@), " "@),
    {
        join(&self.docker_arguments(), " ")
    }
}

/// Every stamped key is one that the vocabulary knows, and none is the key of
/// a Compose project; no stamped value is empty.
pub proof fn a_stamp_is_evidence(owner: Option<Seq<char>>, index: int)
    requires
        stampable(owner),
        0 <= index < stamp_labels(owner).len(),
    ensures
        known(stamp_labels(owner)[index].0),
        stamp_labels(owner)[index].0 != compose_entry().key,
        stamp_labels(owner)[index].1.len() > 0,
{
    let (key, value) = stamp_labels(owner)[index];
    reveal_strlit("true");
    reveal_strlit("ai-agent.");
    reveal_strlit("dev.docker-maid.managed");
    reveal_strlit("com.docker.compose.project");
    assert(compose_entry().key[0] == 'c');
    if key == managed_entry().key {
        assert(key[0] == 'd');
        lemma_covered_is_known(1, key);
    } else {
        assert(key[0] == 'a');
        assert(agent_entry().key.is_prefix_of(key));
        lemma_covered_is_known(2, key);
        assert(value == owner->0);
        if value.len() == 0 {
            assert(is_blank(value));
        }
    }
}

proof fn lemma_argument_count(labels: Seq<(Seq<char>, Seq<char>)>)
    ensures
        label_arguments(labels).len() == 2 * labels.len(),
    decreases labels.len(),
{
    if labels.len() > 0 {
        lemma_argument_count(labels.drop_last());
    }
}

proof fn lemma_arguments_are_words(labels: Seq<(Seq<char>, Seq<char>)>)
    requires
        forall|i: int, j: int|
            0 <= i < labels.len() && 0 <= j < labels[i].0.len() ==> !is_space(
                #[trigger] labels[i].0[j],
            ),
        forall|i: int, j: int|
            0 <= i < labels.len() && 0 <= j < labels[i].1.len() ==> !is_space(
                #[trigger] labels[i].1[j],
            ),
    ensures
        forall|i: int|
            0 <= i < label_arguments(labels).len() ==> (#[trigger] label_arguments(labels)[i]).len()
                > 0,
        forall|i: int, j: int|
            0 <= i < label_arguments(labels).len() && 0 <= j < label_arguments(labels)[i].len()
                ==> !is_space(#[trigger] label_arguments(labels)[i][j]),
    decreases labels.len(),
{
    reveal_strlit("--label");
    reveal_strlit("=");
    if labels.len() > 0 {
        let rest = labels.drop_last();
        assert forall|i: int, j: int| 0 <= i < rest.len() && 0 <= j < rest[i].0.len() implies !is_space(
            #[trigger] rest[i].0[j],
        ) by {
            assert(rest[i].0[j] == labels[i].0[j]);
        }
        assert forall|i: int, j: int| 0 <= i < rest.len() && 0 <= j < rest[i].1.len() implies !is_space(
            #[trigger] rest[i].1[j],
        ) by {
            assert(rest[i].1[j] == labels[i].1[j]);
        }
        lemma_arguments_are_words(rest);
        let before = label_arguments(rest);
        let all = label_arguments(labels);
        let key = labels.last().0;
        let value = labels.last().1;
        let setting = key + "="@ + value;
        assert(labels.last() == labels[labels.len() - 1]);
        assert(all == before.push("--label"@).push(setting));
        assert forall|i: int| 0 <= i < all.len() implies (#[trigger] all[i]).len() > 0 by {
            if i < before.len() {
                assert(all[i] == before[i]);
            }
        }
        assert forall|i: int, j: int| 0 <= i < all.len() && 0 <= j < all[i].len() implies !is_space(
            #[trigger] all[i][j],
        ) by {
            if i < before.len() {
                assert(all[i][j] == before[i][j]);
            } else if i == before.len() + 1 {
                if j < key.len() {
                    assert(setting[j] == labels[labels.len() - 1].0[j]);
                } else if j > key.len() {
                    assert(setting[j] == labels[labels.len() - 1].1[j - key.len() - 1]);
                }
            }
        }
    }
}

/// The line of flags splits at white space into exactly the arguments, two
/// for each label.
pub proof fn the_flag_line_splits_into_the_arguments(owner: Option<Seq<char>>)
    requires
        stampable(owner),
    ensures
        words(joined(label_arguments(stamp_labels(owner)), " "@)) == label_arguments(
            stamp_labels(owner),
        ),
        label_arguments(stamp_labels(owner)).len() == 2 * stamp_labels(owner).len(),
{
    let labels = stamp_labels(owner);
    reveal_strlit("true");
    reveal_strlit("owner");
    reveal_strlit("ai-agent.");
    reveal_strlit("dev.docker-maid.managed");
    assert forall|i: int, j: int| 0 <= i < labels.len() && 0 <= j < labels[i].0.len() implies !is_space(
        #[trigger] labels[i].0[j],
    ) by {}
    assert forall|i: int, j: int| 0 <= i < labels.len() && 0 <= j < labels[i].1.len() implies !is_space(
        #[trigger] labels[i].1[j],
    ) by {
        if owner is Some && i == 0 {
            assert(owner_char(owner->0[j]));
        }
    }
    lemma_arguments_are_words(labels);
    lemma_words_of_joined(label_arguments(labels));
    lemma_argument_count(labels);
}

} // verus!
