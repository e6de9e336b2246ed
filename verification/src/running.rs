//! What the commands around a cleanup do: where the configuration lies, when the
//! daemon wakes, what a sandbox is created with, and how a label is matched.

use crate::config::{config_search_paths, first_present, resolve_config_path, ConfigError};
use crate::naming::{escape_glob, glob_escaped};
use crate::outside::{overruns, parsed_duration};
use crate::spawn::{ContainerBody, SpawnError, SpawnRequest};
use crate::stamp::{label_arguments, owner_char, owner_chars, Stamp, StampError};
use crate::state::below;
use crate::text::{is_blank, views};
use crate::wakeup::{daemon_interval, DaemonWake, TickCounts, Wait, WaitStep};
use vstd::prelude::*;

verus! {

proof fn lemma_first_present(paths: Seq<Seq<char>>, present: Seq<bool>, index: int)
    requires
        0 <= index <= paths.len(),
        present.len() == paths.len(),
    ensures
        match first_present(paths, present, index) {
            Some(path) => exists|i: int|
                {
                    &&& index <= i < paths.len()
                    &&& #[trigger] paths[i] == path
                    &&& present[i]
                    &&& forall|k: int| index <= k < i ==> !#[trigger] present[k]
                },
            None => forall|k: int| index <= k < paths.len() ==> !#[trigger] present[k],
        },
    decreases paths.len() - index,
{
    if index < paths.len() && !present[index] {
        lemma_first_present(paths, present, index + 1);
        if let Some(path) = first_present(paths, present, index + 1) {
            let i = choose|i: int|
                {
                    &&& index + 1 <= i < paths.len()
                    &&& #[trigger] paths[i] == path
                    &&& present[i]
                    &&& forall|k: int| index + 1 <= k < i ==> !#[trigger] present[k]
                };
            assert(paths[i] == path);
            assert forall|k: int| index <= k < i implies !#[trigger] present[k] by {}
        }
    } else if index < paths.len() {
        assert(paths[index] == first_present(paths, present, index)->0);
    }
}

/// Whether a path is the first of the places looked at that is a file.
pub open spec fn is_first_file(paths: Seq<Seq<char>>, present: Seq<bool>, path: Seq<char>) -> bool {
    exists|i: int|
        {
            &&& 0 <= i < paths.len()
            &&& #[trigger] paths[i] == path
            &&& present[i]
            &&& forall|k: int| 0 <= k < i ==> !#[trigger] present[k]
        }
}

/// The configuration that is named is used whether it is there or not; without a
/// name it is looked for in the current directory and then in the home of
/// configurations, and the first that is a file is used.
pub proof fn a_named_configuration_comes_first(
    explicit: Option<String>,
    current_dir: &str,
    config_home: Option<String>,
    present: Vec<bool>,
    paths: Vec<String>,
    outcome: Result<String, ConfigError>,
)
    requires
        call_ensures(config_search_paths, (current_dir, &config_home), paths),
        call_ensures(
            resolve_config_path,
            (&explicit, current_dir, &config_home, &present),
            outcome,
        ),
        present@.len() == paths@.len(),
    ensures
        paths@.len() == if config_home is Some {
            2int
        } else {
            1int
        },
        views(paths@)[0] == below(current_dir@, "docker_maid.toml"@),
        config_home is Some ==> views(paths@)[1] == below(
            config_home->0@,
            "docker_maid/config.toml"@,
        ),
        explicit is Some ==> outcome is Ok && outcome->Ok_0@ == explicit->0@,
        explicit is None ==> (outcome is Err <==> forall|k: int|
            0 <= k < present@.len() ==> !#[trigger] present@[k]),
        explicit is None && outcome is Ok ==> is_first_file(
            views(paths@),
            present@,
            outcome->Ok_0@,
        ),
{
    let searched = views(paths@);
    lemma_first_present(searched, present@, 0);
    assert(searched.len() == paths@.len());
    if explicit is None && outcome is Ok {
        let path = outcome->Ok_0@;
        let i = choose|i: int|
            {
                &&& 0 <= i < searched.len()
                &&& #[trigger] searched[i] == path
                &&& present@[i]
                &&& forall|k: int| 0 <= k < i ==> !#[trigger] present@[k]
            };
        assert(searched[i] == path && present@[i]);
    }
}

/// Whether a text is a span that is not zero.
pub open spec fn is_span(text: Seq<char>, span: (u64, u32)) -> bool {
    &&& !overruns(text)
    &&& parsed_duration(text) is Ok
    &&& parsed_duration(text)->Ok_0 == span
    &&& span != (0u64, 0u32)
}

/// Whether a text is no span that is not zero.
pub open spec fn is_no_span(text: Seq<char>) -> bool {
    forall|span: (u64, u32)| !#[trigger] is_span(text, span)
}

/// The daemon runs as often as it is asked to, else as configured, else every five
/// minutes; what is asked for must be a span.
pub proof fn the_daemon_runs_as_often_as_it_is_told(
    asked: Option<&str>,
    configured: Option<String>,
    outcome: Result<(u64, u32), String>,
)
    requires
        call_ensures(daemon_interval, (asked, &configured), outcome),
    ensures
        asked is Some ==> {
            ||| outcome is Ok && is_span(asked->0@, outcome->Ok_0)
            ||| outcome is Err && is_no_span(asked->0@)
        },
        asked is None ==> outcome is Ok && {
            ||| configured is Some && is_span(configured->0@, outcome->Ok_0)
            ||| outcome->Ok_0 == (300u64, 0u32) && (configured is None || is_no_span(configured->0@))
        },
{
    if asked is Some {
        let text = asked->0@;
        assert(forall|span: (u64, u32)| #[trigger]
            is_span(text, span) ==> parsed_duration(text)->Ok_0 == span);
    }
    if configured is Some {
        let text = configured->0@;
        assert(forall|span: (u64, u32)| #[trigger]
            is_span(text, span) ==> parsed_duration(text)->Ok_0 == span);
    }
}

/// A daemon that waits wakes when the interval is over, and before that once no
/// event came for the quiet time; until then it sleeps, no longer than to the
/// earlier of the two.
pub proof fn a_wait_ends_with_the_interval_or_the_quiet(
    wait: &mut Wait,
    now: u64,
    interval: u64,
    debounce: u64,
    waiting: TickCounts,
    later: u64,
    ticks: TickCounts,
    at: u64,
    step: WaitStep,
)
    requires
        call_ensures(Wait::start, (now, interval, debounce, waiting), *old(wait)),
        call_ensures(Wait::note, (wait, later, ticks), ()),
        call_ensures(Wait::step, (final(wait), at), step),
        now + interval <= u64::MAX,
        later + debounce <= u64::MAX,
        waiting.events + ticks.events <= u64::MAX,
        waiting.reconnects + ticks.reconnects <= u64::MAX,
    ensures
        ({
            let events = waiting.events + ticks.events;
            let reconnects = waiting.reconnects + ticks.reconnects;
            let stirred = events > 0 || reconnects > 0;
            if at >= now + interval {
                step == WaitStep::Wake(DaemonWake::Interval)
            } else if stirred && at >= later + debounce {
                step == WaitStep::Wake(
                    DaemonWake::Event { events: events as u64, reconnects: reconnects as u64 },
                )
            } else if stirred && later + debounce <= now + interval {
                step == WaitStep::SleepUntil((later + debounce) as u64)
            } else {
                step == WaitStep::SleepUntil((now + interval) as u64)
            }
        }),
{
}

/// Whether a path starts at the root.
pub open spec fn from_root(path: Seq<char>) -> bool {
    path.len() > 0 && path[0] == '/'
}

/// A sandbox is described exactly when the image and the name are not blank, the
/// workspace is an absolute path of a directory, and the directory to start in is
/// absolute; the container is then made from the image with the stamp for labels,
/// the workspace bound in, and nothing attached or removed by itself.
pub proof fn a_sandbox_is_what_was_described(
    image: &str,
    name: Option<&str>,
    workspace: Option<&str>,
    is_directory: bool,
    workdir: Option<&str>,
    command: Vec<String>,
    stamp: Stamp,
    outcome: Result<SpawnRequest, SpawnError>,
    body: ContainerBody,
)
    requires
        call_ensures(
            SpawnRequest::new,
            (image, name, workspace, is_directory, workdir, command, stamp),
            outcome,
        ),
        outcome is Ok ==> call_ensures(SpawnRequest::container_body, (&outcome->Ok_0,), body),
    ensures
        outcome is Ok <==> {
            &&& !is_blank(image@)
            &&& name is Some ==> !is_blank(name->0@)
            &&& workspace is Some ==> from_root(workspace->0@) && is_directory
            &&& workdir is Some ==> from_root(workdir->0@)
        },
        outcome is Ok ==> {
            &&& body.image is Some && body.image->0@ == image@
            &&& command@.len() == 0 ==> body.cmd is None
            &&& command@.len() > 0 ==> body.cmd is Some && views(body.cmd->0@) == views(command@)
            &&& body.labels is Some && body.labels->0@ == stamp@
            &&& workdir is Some ==> body.working_dir is Some && body.working_dir->0@ == workdir->0@
            &&& workdir is None && workspace is Some ==> body.working_dir is Some
                && body.working_dir->0@ == "/workspace"@
            &&& workdir is None && workspace is None ==> body.working_dir is None
            &&& body.host_config is Some && body.host_config->0.auto_remove == Some(false)
            &&& workspace is None ==> body.host_config->0.binds is None
            &&& workspace is Some ==> body.host_config->0.binds is Some && views(
                body.host_config->0.binds->0@,
            ) == seq![workspace->0@ + ":/workspace"@]
            &&& body.tty == Some(false) && body.open_stdin == Some(false)
            &&& body.attach_stdin == Some(false) && body.attach_stdout == Some(false)
                && body.attach_stderr == Some(false)
        },
{
    if outcome is Ok && workspace is Some {
        reveal_strlit(":");
        reveal_strlit("/workspace");
        reveal_strlit(":/workspace");
        assert(":"@ + "/workspace"@ =~= ":/workspace"@);
        assert(workspace->0@ + ":"@ + "/workspace"@ =~= workspace->0@ + ":/workspace"@);
    }
}

/// Whether a character may stand in an owner's name.
pub open spec fn is_plain(character: char) -> bool {
    ||| '0' <= character <= '9'
    ||| 'A' <= character <= 'Z'
    ||| 'a' <= character <= 'z'
    ||| character == '.'
    ||| character == '-'
    ||| character == '_'
}

proof fn lemma_plain(character: char)
    ensures
        owner_char(character) <==> is_plain(character),
{
}

/// A stamp marks what it is put on as managed, names its owner where there is one,
/// and says nothing else; an owner's name is of plain characters.
pub proof fn a_stamp_marks_and_names(
    owner: Option<&str>,
    outcome: Result<Stamp, StampError>,
    label: (Seq<char>, Seq<char>),
)
    requires
        call_ensures(Stamp::new, (owner,), outcome),
    ensures
        outcome is Ok <==> owner is None || !is_blank(owner->0@) && forall|i: int|
            0 <= i < owner->0@.len() ==> is_plain(#[trigger] owner->0@[i]),
        outcome is Ok ==> (outcome->Ok_0@.contains(label) <==> label == (
            "dev.docker-maid.managed"@,
            "true"@,
        ) || owner is Some && label == ("ai-agent.owner"@, owner->0@)),
{
    reveal_strlit("ai-agent.");
    reveal_strlit("owner");
    reveal_strlit("ai-agent.owner");
    assert("ai-agent."@ + "owner"@ =~= "ai-agent.owner"@);
    if owner is Some {
        let name = owner->0@;
        if owner_chars(name) {
            assert forall|i: int| 0 <= i < name.len() implies is_plain(#[trigger] name[i]) by {
                lemma_plain(name[i]);
            }
        }
        if forall|i: int| 0 <= i < name.len() ==> is_plain(#[trigger] name[i]) {
            assert forall|i: int| 0 <= i < name.len() implies owner_char(
                #[trigger] name[i],
            ) by {
                lemma_plain(name[i]);
            }
        }
    }
    if outcome is Ok {
        let labels = outcome->Ok_0@;
        if owner is Some {
            assert(labels[0] == ("ai-agent.owner"@, owner->0@));
            assert(labels[1] == ("dev.docker-maid.managed"@, "true"@));
            assert(labels.len() == 2);
        } else {
            assert(labels[0] == ("dev.docker-maid.managed"@, "true"@));
            assert(labels.len() == 1);
        }
        if labels.contains(label) {
            let i = choose|i: int| 0 <= i < labels.len() && labels[i] == label;
            assert(i == 0 || i == 1);
        }
    }
}

/// Whether arguments give a label in a turn, behind its flag.
pub open spec fn gives_label(
    arguments: Seq<Seq<char>>,
    turn: int,
    label: (Seq<char>, Seq<char>),
) -> bool {
    &&& arguments[2 * turn] == "--label"@
    &&& arguments[2 * turn + 1] == label.0 + "="@ + label.1
}

proof fn lemma_arguments(labels: Seq<(Seq<char>, Seq<char>)>)
    ensures
        label_arguments(labels).len() == 2 * labels.len(),
        forall|i: int|
            0 <= i < labels.len() ==> gives_label(label_arguments(labels), i, #[trigger] labels[i]),
    decreases labels.len(),
{
    if labels.len() > 0 {
        let less = labels.drop_last();
        lemma_arguments(less);
        assert forall|i: int| 0 <= i < labels.len() implies gives_label(
            label_arguments(labels),
            i,
            #[trigger] labels[i],
        ) by {
            if i < less.len() {
                assert(gives_label(label_arguments(less), i, less[i]));
            }
        }
    }
}

/// The arguments of a stamp give every label in its turn, behind its flag.
pub proof fn a_stamp_becomes_label_arguments(stamp: Stamp, arguments: Vec<String>)
    requires
        call_ensures(Stamp::docker_arguments, (&stamp,), arguments),
    ensures
        arguments@.len() == 2 * stamp@.len(),
        forall|i: int|
            0 <= i < stamp@.len() ==> gives_label(views(arguments@), i, #[trigger] stamp@[i]),
{
    lemma_arguments(stamp@);
    assert(views(arguments@).len() == arguments@.len());
}

/// Whether a glob reads a character as something else than itself.
pub open spec fn has_glob_meaning(character: char) -> bool {
    ||| character == '*'
    ||| character == '?'
    ||| character == '['
    ||| character == ']'
    ||| character == '{'
    ||| character == '}'
    ||| character == '\\'
}

/// Whether a glob stands for one text: every character of the text in its turn,
/// those with a meaning behind a backslash.
pub open spec fn stands_for_text(glob: Seq<char>, text: Seq<char>) -> bool
    decreases text.len(),
{
    if text.len() == 0 {
        glob.len() == 0
    } else if has_glob_meaning(text.last()) {
        glob.len() >= 2 && glob.last() == text.last() && glob[glob.len() - 2] == '\\'
            && stands_for_text(glob.take(glob.len() - 2), text.drop_last())
    } else {
        glob.len() >= 1 && glob.last() == text.last() && stands_for_text(
            glob.drop_last(),
            text.drop_last(),
        )
    }
}

proof fn lemma_escaped(text: Seq<char>)
    ensures
        stands_for_text(glob_escaped(text), text),
    decreases text.len(),
{
    if text.len() > 0 {
        let less = text.drop_last();
        let before = glob_escaped(less);
        let glob = glob_escaped(text);
        lemma_escaped(less);
        if has_glob_meaning(text.last()) {
            assert(glob.take(glob.len() - 2) =~= before);
        } else {
            assert(glob.drop_last() =~= before);
        }
    }
}

/// An escaped text is a glob that stands for that text alone.
pub proof fn an_escaped_text_stands_for_itself(text: &str, glob: String)
    requires
        call_ensures(escape_glob, (text,), glob),
    ensures
        stands_for_text(glob@, text@),
{
    lemma_escaped(text@);
}

} // verus!
