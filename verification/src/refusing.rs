//! What is refused, replaced and reported at the end of a command.

use crate::agent_skill::{
    install_skills, installs_of, opt_views, planned_status, Harness, Installation, InstallStatus,
    InstallationView, Skill, SkillError, SkillView,
};
use crate::command::{
    config_home, matching_pattern, protected_value, refuse_config_sourced_unprotect, Failure,
    RunOutcome,
};
use crate::config::Config;
use crate::outside::regex_matches;
use crate::state::{below, ProtectionKind};
use crate::text::{opt_view, views};
use vstd::prelude::*;

verus! {

/// Whether some pattern finds a value.
pub open spec fn is_matched(patterns: Seq<Seq<char>>, value: Seq<char>) -> bool {
    exists|p: int| 0 <= p < patterns.len() && regex_matches(#[trigger] patterns[p], value)
}

proof fn lemma_pattern(patterns: Seq<Seq<char>>, value: Seq<char>, from: int)
    requires
        0 <= from <= patterns.len(),
    ensures
        matching_pattern(patterns, value, from) is Some <==> exists|p: int|
            from <= p < patterns.len() && regex_matches(#[trigger] patterns[p], value),
    decreases patterns.len() - from,
{
    if from < patterns.len() {
        lemma_pattern(patterns, value, from + 1);
        if regex_matches(patterns[from], value) {
            assert(exists|p: int|
                from <= p < patterns.len() && regex_matches(#[trigger] patterns[p], value));
        } else if exists|p: int|
            from <= p < patterns.len() && regex_matches(#[trigger] patterns[p], value) {
            let p = choose|p: int|
                from <= p < patterns.len() && regex_matches(#[trigger] patterns[p], value);
            assert(from + 1 <= p);
        }
    }
}

proof fn lemma_protected(values: Seq<Seq<char>>, patterns: Seq<Seq<char>>, from: int)
    requires
        0 <= from <= values.len(),
    ensures
        protected_value(values, patterns, from) is Some <==> exists|v: int|
            from <= v < values.len() && is_matched(patterns, #[trigger] values[v]),
    decreases values.len() - from,
{
    if from < values.len() {
        lemma_protected(values, patterns, from + 1);
        lemma_pattern(patterns, values[from], 0);
        if is_matched(patterns, values[from]) {
            assert(exists|v: int|
                from <= v < values.len() && is_matched(patterns, #[trigger] values[v]));
        } else if exists|v: int|
            from <= v < values.len() && is_matched(patterns, #[trigger] values[v]) {
            let v = choose|v: int|
                from <= v < values.len() && is_matched(patterns, #[trigger] values[v]);
            assert(from + 1 <= v);
        }
    }
}

/// Values are not unprotected exactly when a name pattern of the configuration
/// finds one of them.
pub proof fn what_the_configuration_protects_is_not_unprotected(
    kind: ProtectionKind,
    values: Vec<String>,
    path: &str,
    source: &str,
    config: Config,
    refusal: Option<String>,
)
    requires
        call_ensures(
            refuse_config_sourced_unprotect,
            (kind, &values, path, source, &config),
            refusal,
        ),
    ensures
        refusal is Some <==> exists|v: int|
            0 <= v < values@.len() && is_matched(
                config@.protect.names,
                #[trigger] views(values@)[v],
            ),
{
    lemma_protected(views(values@), config@.protect.names, 0);
    assert(views(values@).len() == values@.len());
}

/// Whether a document may stand where something stands, and what that does: it is
/// written where nothing is, left where it is the same, and put in place of
/// another only by force.
pub open spec fn is_install(
    status: InstallStatus,
    document: Seq<char>,
    current: Option<Seq<char>>,
    force: bool,
) -> bool {
    &&& status == InstallStatus::Written <==> current is None
    &&& status == InstallStatus::Unchanged <==> current == Some(document)
    &&& status == InstallStatus::Replaced ==> force
}

/// A skill is refused exactly when another document stands there and nothing is
/// forced.
pub proof fn another_document_is_replaced_only_by_force(
    skill: Skill,
    path: &str,
    current: Option<String>,
    force: bool,
    outcome: Result<InstallStatus, SkillError>,
)
    requires
        call_ensures(planned_status, (&skill, path, &current, force), outcome),
    ensures
        outcome is Err <==> current is Some && current->0@ != skill@.document && !force,
        outcome is Ok ==> is_install(outcome->Ok_0, skill@.document, opt_view(current), force),
{
}

/// Whether installs are those of skills, each at its own file.
pub open spec fn are_installs(
    installs: Seq<InstallationView>,
    list: Seq<SkillView>,
    current: Seq<Option<Seq<char>>>,
    force: bool,
) -> bool {
    &&& installs.len() == list.len()
    &&& forall|i: int|
        0 <= i < list.len() ==> (#[trigger] installs[i]).name == list[i].name && is_install(
            installs[i].status,
            list[i].document,
            current[i],
            force,
        )
}

proof fn lemma_installs(
    list: Seq<SkillView>,
    harness: crate::agent_skill::HarnessView,
    destination: Option<Seq<char>>,
    home: Option<Seq<char>>,
    current: Seq<Option<Seq<char>>>,
    force: bool,
)
    requires
        installs_of(list, harness, destination, home, current, force) is Ok,
    ensures
        are_installs(
            installs_of(list, harness, destination, home, current, force)->Ok_0,
            list,
            current,
            force,
        ),
    decreases list.len(),
{
    if list.len() > 0 {
        let less = list.drop_last();
        lemma_installs(less, harness, destination, home, current, force);
        let before = installs_of(less, harness, destination, home, current, force)->Ok_0;
        let all = installs_of(list, harness, destination, home, current, force)->Ok_0;
        assert forall|i: int| 0 <= i < list.len() implies (#[trigger] all[i]).name == list[i].name
            && is_install(all[i].status, list[i].document, current[i], force) by {
            if i < less.len() {
                assert(before[i].name == less[i].name);
            }
        }
    }
}

/// An install settles every skill in its turn, and nothing at all where one of
/// them would replace another document unasked.
pub proof fn an_install_settles_every_skill_or_none(
    list: Vec<Skill>,
    harness: Harness,
    destination: Option<String>,
    home: Option<String>,
    current: Vec<Option<String>>,
    force: bool,
    outcome: Result<Vec<Installation>, SkillError>,
)
    requires
        current@.len() == list@.len(),
        call_ensures(
            install_skills,
            (&list, &harness, &destination, &home, &current, force),
            outcome,
        ),
        outcome is Ok,
    ensures
        are_installs(views(outcome->Ok_0@), views(list@), opt_views(current@), force),
{
    lemma_installs(
        views(list@),
        harness@,
        opt_view(destination),
        opt_view(home),
        opt_views(current@),
        force,
    );
}

/// The base of configurations is the one that is set, else it lies below the home
/// directory; what is empty counts as not set.
pub proof fn the_base_of_configurations(
    setting: Option<String>,
    home: Option<String>,
    base: Option<String>,
)
    requires
        call_ensures(config_home, (&setting, &home), base),
    ensures
        setting is Some && setting->0@.len() > 0 ==> base is Some && base->0@ == setting->0@,
        !(setting is Some && setting->0@.len() > 0) && home is Some && home->0@.len() > 0
            ==> base is Some && base->0@ == below(home->0@, ".config"@),
        !(setting is Some && setting->0@.len() > 0) && !(home is Some && home->0@.len() > 0)
            ==> base is None,
{
}

/// A command ends with nothing to report in zero, with removals to come in one and
/// with targets that were left in two; configuration, Docker, state and the rest
/// have codes of their own, and a reader that has gone is no failure.
pub proof fn every_end_has_its_code(outcome: RunOutcome, failure: Failure, ended: u8, failed: u8)
    requires
        call_ensures(RunOutcome::exit_code, (outcome,), ended),
        call_ensures(Failure::exit_code, (failure,), failed),
    ensures
        ended == match outcome {
            RunOutcome::Success => 0u8,
            RunOutcome::PendingRemovals => 1,
            RunOutcome::PartialFailure => 2,
        },
        failed == match failure {
            Failure::Config => 3u8,
            Failure::Docker => 5,
            Failure::State => 6,
            Failure::Internal => 7,
            Failure::Output { broken_pipe: true } => 0,
            Failure::Output { broken_pipe: false } => 7,
        },
{
}

} // verus!
