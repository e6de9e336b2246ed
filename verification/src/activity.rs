//! The activity journal: what each cleanup pass did, as a list of events.

use crate::executor::{status_text, ExecutionReport, OutcomeView, TargetStatus};
use crate::order::{ranked, sort, Ranked};
use crate::plan::{Action, Decision, DecisionView, Plan};
use crate::resource::{kind_text, ResourceKind};
use crate::state::{state_directory, state_error_text, StateError, StatePaths};
use crate::text::{
    concat2, concat4, decimal, decimal_text, group_views, opt_view, text_eq, views,
};
use crate::text_map::{keys_ascend, lemma_put, put, value_of, TextMap};
use vstd::prelude::*;
use vstd::string::*;
use vstd::utf8::*;

pub use crate::journal::{retain_newest_lines, stable_config_hash};

verus! {

/// The version of the journal that this library reads and writes.
pub const SCHEMA_VERSION: u32 = 1;

/// The most events that the journal keeps.
pub const MAX_EVENTS: usize = 10_000;

/// The most bytes that the journal keeps.
pub const MAX_BYTES: usize = 5 * 1024 * 1024;

/// Why the journal cannot be used.
#[derive(Debug, PartialEq, Eq)]
pub enum ActivityError {
    /// There is no place for state.
    State(StateError),
    /// A path cannot be read or written.
    Io { path: String, message: String },
    /// An event cannot be written down.
    Encode(String),
    /// A line does not hold an event.
    Decode { path: String, line: usize, message: String },
    /// The journal breaks a rule.
    Invalid(String),
}

/// The words of a journal error.
pub open spec fn activity_error_text(error: ActivityError) -> Seq<char> {
    match error {
        ActivityError::State(source) => state_error_text(source),
        ActivityError::Io { path, message } => "cannot access activity journal "@ + path@ + ": "@
            + message@,
        ActivityError::Encode(message) => "cannot encode activity event: "@ + message@,
        ActivityError::Decode { path, line, message } => "invalid activity event "@ + path@
            + " line "@ + decimal(line as nat) + ": "@ + message@,
        ActivityError::Invalid(message) => message@,
    }
}

impl ActivityError {
    /// The words of this error.
    pub fn message(&self) -> (words: String)
        ensures
            words@ == activity_error_text(*self),
    {
        match self {
            ActivityError::State(source) => source.message(),
            ActivityError::Io { path, message } => concat4(
                "cannot access activity journal ",
                path.as_str(),
                ": ",
                message.as_str(),
            ),
            ActivityError::Encode(message) => concat2(
                "cannot encode activity event: ",
                message.as_str(),
            ),
            ActivityError::Decode { path, line, message } => {
                let mut words = concat4(
                    "invalid activity event ",
                    path.as_str(),
                    " line ",
                    decimal_text(*line as u64).as_str(),
                );
                words.append(": ");
                words.append(message.as_str());
                words
            },
            ActivityError::Invalid(message) => message.clone(),
        }
    }
}

/// What an event reports.
#[derive(Debug, PartialEq, Eq)]
pub enum EventData {
    PassStarted,
    Action {
        action: String,
        resource_kind: String,
        resource_id: String,
        resource_name: String,
        matched_rule: String,
        age_seconds: Option<u64>,
        freed_bytes: u64,
        detail: String,
    },
    PassSummary {
        completed_at: i64,
        rule_match_counts: TextMap<u64>,
        removed_count: u64,
        skipped_count: u64,
        failure_count: u64,
        reclaimed_bytes: u64,
    },
}

/// What an event reports.
pub enum EventDataView {
    PassStarted,
    Action {
        action: Seq<char>,
        resource_kind: Seq<char>,
        resource_id: Seq<char>,
        resource_name: Seq<char>,
        matched_rule: Seq<char>,
        age_seconds: Option<u64>,
        freed_bytes: u64,
        detail: Seq<char>,
    },
    PassSummary {
        completed_at: i64,
        rule_match_counts: Seq<(Seq<char>, u64)>,
        removed_count: u64,
        skipped_count: u64,
        failure_count: u64,
        reclaimed_bytes: u64,
    },
}

impl View for EventData {
    type V = EventDataView;

    open spec fn view(&self) -> EventDataView {
        match self {
            EventData::PassStarted => EventDataView::PassStarted,
            EventData::Action {
                action,
                resource_kind,
                resource_id,
                resource_name,
                matched_rule,
                age_seconds,
                freed_bytes,
                detail,
            } => EventDataView::Action {
                action: action@,
                resource_kind: resource_kind@,
                resource_id: resource_id@,
                resource_name: resource_name@,
                matched_rule: matched_rule@,
                age_seconds: *age_seconds,
                freed_bytes: *freed_bytes,
                detail: detail@,
            },
            EventData::PassSummary {
                completed_at,
                rule_match_counts,
                removed_count,
                skipped_count,
                failure_count,
                reclaimed_bytes,
            } => EventDataView::PassSummary {
                completed_at: *completed_at,
                rule_match_counts: rule_match_counts@,
                removed_count: *removed_count,
                skipped_count: *skipped_count,
                failure_count: *failure_count,
                reclaimed_bytes: *reclaimed_bytes,
            },
        }
    }
}

impl Clone for EventData {
    fn clone(&self) -> (copy: Self)
        ensures
            copy@ == self@,
    {
        match self {
            EventData::PassStarted => EventData::PassStarted,
            EventData::Action {
                action,
                resource_kind,
                resource_id,
                resource_name,
                matched_rule,
                age_seconds,
                freed_bytes,
                detail,
            } => EventData::Action {
                action: action.clone(),
                resource_kind: resource_kind.clone(),
                resource_id: resource_id.clone(),
                resource_name: resource_name.clone(),
                matched_rule: matched_rule.clone(),
                age_seconds: *age_seconds,
                freed_bytes: *freed_bytes,
                detail: detail.clone(),
            },
            EventData::PassSummary {
                completed_at,
                rule_match_counts,
                removed_count,
                skipped_count,
                failure_count,
                reclaimed_bytes,
            } => EventData::PassSummary {
                completed_at: *completed_at,
                rule_match_counts: rule_match_counts.clone(),
                removed_count: *removed_count,
                skipped_count: *skipped_count,
                failure_count: *failure_count,
                reclaimed_bytes: *reclaimed_bytes,
            },
        }
    }
}

/// One event of the journal.
#[derive(Debug, PartialEq, Eq)]
pub struct ActivityEvent {
    pub schema_version: u32,
    pub pass_id: String,
    pub source: String,
    pub sequence: u64,
    pub timestamp: i64,
    pub config_hash: String,
    pub data: EventData,
}

/// What an event says.
#[verifier::ext_equal]
pub struct EventView {
    pub schema_version: u32,
    pub pass_id: Seq<char>,
    pub source: Seq<char>,
    pub sequence: u64,
    pub timestamp: i64,
    pub config_hash: Seq<char>,
    pub data: EventDataView,
}

impl View for ActivityEvent {
    type V = EventView;

    open spec fn view(&self) -> EventView {
        EventView {
            schema_version: self.schema_version,
            pass_id: self.pass_id@,
            source: self.source@,
            sequence: self.sequence,
            timestamp: self.timestamp,
            config_hash: self.config_hash@,
            data: self.data@,
        }
    }
}

impl Clone for ActivityEvent {
    fn clone(&self) -> (copy: Self)
        ensures
            copy@ == self@,
    {
        ActivityEvent {
            schema_version: self.schema_version,
            pass_id: self.pass_id.clone(),
            source: self.source.clone(),
            sequence: self.sequence,
            timestamp: self.timestamp,
            config_hash: self.config_hash.clone(),
            data: self.data.clone(),
        }
    }
}

impl Ranked for ActivityEvent {
    /// By sequence.
    open spec fn ranks(left: EventView, right: EventView) -> bool {
        left.sequence <= right.sequence
    }

    proof fn ranks_total(left: EventView, right: EventView) {
    }

    proof fn ranks_transitive(a: EventView, b: EventView, c: EventView) {
    }

    fn in_order(&self, other: &Self) -> (held: bool) {
        self.sequence <= other.sequence
    }
}

/// A pass that ran to its end.
#[derive(Debug, PartialEq, Eq)]
pub struct CompletedPass {
    pub pass_id: String,
    pub source: String,
    pub started_at: i64,
    pub completed_at: i64,
    pub config_hash: String,
    pub actions: Vec<ActivityEvent>,
    pub rule_match_counts: TextMap<u64>,
    pub removed_count: u64,
    pub skipped_count: u64,
    pub failure_count: u64,
    pub reclaimed_bytes: u64,
}

/// What a completed pass says.
#[verifier::ext_equal]
pub struct CompletedPassView {
    pub pass_id: Seq<char>,
    pub source: Seq<char>,
    pub started_at: i64,
    pub completed_at: i64,
    pub config_hash: Seq<char>,
    pub actions: Seq<EventView>,
    pub rule_match_counts: Seq<(Seq<char>, u64)>,
    pub removed_count: u64,
    pub skipped_count: u64,
    pub failure_count: u64,
    pub reclaimed_bytes: u64,
}

impl View for CompletedPass {
    type V = CompletedPassView;

    open spec fn view(&self) -> CompletedPassView {
        CompletedPassView {
            pass_id: self.pass_id@,
            source: self.source@,
            started_at: self.started_at,
            completed_at: self.completed_at,
            config_hash: self.config_hash@,
            actions: views(self.actions@),
            rule_match_counts: self.rule_match_counts@,
            removed_count: self.removed_count,
            skipped_count: self.skipped_count,
            failure_count: self.failure_count,
            reclaimed_bytes: self.reclaimed_bytes,
        }
    }
}

/// When a pass started: its first start event, else the time of its summary.
pub open spec fn pass_start(events: Seq<EventView>, pass_id: Seq<char>, otherwise: i64) -> i64
    decreases events.len(),
{
    if events.len() == 0 {
        otherwise
    } else if events[0].pass_id == pass_id && events[0].data is PassStarted {
        events[0].timestamp
    } else {
        pass_start(events.drop_first(), pass_id, otherwise)
    }
}

/// The action events of a pass, in the order of the journal.
pub open spec fn pass_actions(events: Seq<EventView>, pass_id: Seq<char>) -> Seq<EventView>
    decreases events.len(),
{
    if events.len() == 0 {
        events
    } else {
        let before = pass_actions(events.drop_last(), pass_id);
        let event = events.last();
        if event.pass_id == pass_id && event.data is Action {
            before.push(event)
        } else {
            before
        }
    }
}

/// The pass that a summary closes.
pub open spec fn pass_of(events: Seq<EventView>, summary: EventView) -> CompletedPassView {
    CompletedPassView {
        pass_id: summary.pass_id,
        source: summary.source,
        started_at: pass_start(events, summary.pass_id, summary.timestamp),
        completed_at: summary.data->completed_at,
        config_hash: summary.config_hash,
        actions: ranked::<ActivityEvent>(pass_actions(events, summary.pass_id)),
        rule_match_counts: summary.data->rule_match_counts,
        removed_count: summary.data->removed_count,
        skipped_count: summary.data->skipped_count,
        failure_count: summary.data->failure_count,
        reclaimed_bytes: summary.data->reclaimed_bytes,
    }
}

/// The last summary among the first `count` events.
pub open spec fn last_summary(events: Seq<EventView>, count: int) -> Option<EventView>
    decreases count,
{
    if count <= 0 || count > events.len() {
        None
    } else if events[count - 1].data is PassSummary {
        Some(events[count - 1])
    } else {
        last_summary(events, count - 1)
    }
}

/// The passes that the first `count` events close, in the order in which they
/// ended.
pub open spec fn passes_closed(events: Seq<EventView>, count: int) -> Seq<CompletedPassView>
    decreases count,
{
    if count <= 0 {
        Seq::empty()
    } else {
        let before = passes_closed(events, count - 1);
        if events[count - 1].data is PassSummary {
            before.push(pass_of(events, events[count - 1]))
        } else {
            before
        }
    }
}

fn started_at_in(events: &Vec<ActivityEvent>, pass_id: &str, otherwise: i64) -> (moment: i64)
    ensures
        moment == pass_start(views(events@), pass_id@, otherwise),
{
    broadcast use group_views;

    let ghost all = views(events@);
    let mut index: usize = 0;
    assert(all.skip(0) =~= all);
    while index < events.len()
        invariant
            index <= events@.len(),
            all == views(events@),
            pass_start(all, pass_id@, otherwise) == pass_start(
                all.skip(index as int),
                pass_id@,
                otherwise,
            ),
        decreases events@.len() - index,
    {
        let event = &events[index];
        assert(all.skip(index as int)[0] == event@);
        if text_eq(event.pass_id.as_str(), pass_id) {
            match &event.data {
                EventData::PassStarted => {
                    return event.timestamp;
                },
                _ => {},
            }
        }
        assert(all.skip(index as int).drop_first() =~= all.skip(index as int + 1));
        index += 1;
    }
    otherwise
}

fn actions_in(events: &Vec<ActivityEvent>, pass_id: &str) -> (actions: Vec<ActivityEvent>)
    ensures
        views(actions@) == ranked::<ActivityEvent>(pass_actions(views(events@), pass_id@)),
{
    broadcast use group_views;

    let ghost all = views(events@);
    let mut actions: Vec<ActivityEvent> = Vec::new();
    let mut index: usize = 0;
    assert(views(actions@) =~= pass_actions(all.take(0), pass_id@));
    while index < events.len()
        invariant
            index <= events@.len(),
            all == views(events@),
            views(actions@) == pass_actions(all.take(index as int), pass_id@),
        decreases events@.len() - index,
    {
        let event = &events[index];
        assert(all.take(index as int + 1).drop_last() =~= all.take(index as int));
        assert(all.take(index as int + 1).last() == event@);
        if text_eq(event.pass_id.as_str(), pass_id) {
            match &event.data {
                EventData::Action { .. } => {
                    actions.push(event.clone());
                },
                _ => {},
            }
        }
        index += 1;
    }
    assert(all.take(index as int) =~= all);
    sort(actions)
}

fn close_pass(events: &Vec<ActivityEvent>, summary: &ActivityEvent) -> (pass: Option<CompletedPass>)
    ensures
        match pass {
            Some(closed) => {
                &&& summary@.data is PassSummary
                &&& closed@ == pass_of(views(events@), summary@)
            },
            None => !(summary@.data is PassSummary),
        },
{
    match &summary.data {
        EventData::PassSummary {
            completed_at,
            rule_match_counts,
            removed_count,
            skipped_count,
            failure_count,
            reclaimed_bytes,
        } => Some(
            CompletedPass {
                pass_id: summary.pass_id.clone(),
                source: summary.source.clone(),
                started_at: started_at_in(events, summary.pass_id.as_str(), summary.timestamp),
                completed_at: *completed_at,
                config_hash: summary.config_hash.clone(),
                actions: actions_in(events, summary.pass_id.as_str()),
                rule_match_counts: rule_match_counts.clone(),
                removed_count: *removed_count,
                skipped_count: *skipped_count,
                failure_count: *failure_count,
                reclaimed_bytes: *reclaimed_bytes,
            },
        ),
        _ => None,
    }
}

/// The journal in its place below the state directory.
#[derive(Debug, PartialEq, Eq)]
pub struct ActivityJournal {
    paths: StatePaths,
}

impl Clone for ActivityJournal {
    fn clone(&self) -> (copy: Self)
        ensures
            copy.directory() == self.directory(),
    {
        ActivityJournal { paths: self.paths.clone() }
    }
}

/// The event that opens a pass.
pub open spec fn start_event(
    pass_id: Seq<char>,
    source: Seq<char>,
    config_hash: Seq<char>,
    timestamp: i64,
) -> EventView {
    EventView {
        schema_version: SCHEMA_VERSION,
        pass_id,
        source,
        sequence: 0,
        timestamp,
        config_hash,
        data: EventDataView::PassStarted,
    }
}

impl ActivityJournal {
    /// The directory that holds the journal.
    pub closed spec fn directory(&self) -> Seq<char> {
        self.paths.directory()
    }

    /// The journal below the given paths.
    pub fn new(paths: StatePaths) -> (journal: Self)
        ensures
            journal.directory() == paths.directory(),
    {
        ActivityJournal { paths }
    }

    /// The journal below the bases that the environment names.
    pub fn from_env(state_home: &Option<String>, home: &Option<String>) -> (outcome: Result<
        Self,
        ActivityError,
    >)
        ensures
            match outcome {
                Ok(journal) => state_directory(opt_view(*state_home), opt_view(*home)) == Some(
                    journal.directory(),
                ),
                Err(error) => {
                    &&& error == ActivityError::State(StateError::Environment)
                    &&& state_directory(opt_view(*state_home), opt_view(*home)) is None
                },
            },
    {
        match StatePaths::from_env(state_home, home) {
            Ok(paths) => Ok(ActivityJournal::new(paths)),
            Err(error) => Err(ActivityError::State(error)),
        }
    }

    /// Where the journal keeps its files.
    pub fn paths(&self) -> (paths: &StatePaths)
        ensures
            paths.directory() == self.directory(),
    {
        &self.paths
    }

    /// Opens a pass: the pass, and the event to append before anything is
    /// deleted. `history` is what reading the journal gave; a pass does not
    /// start on a journal that cannot be read. `pass_id` names the pass.
    pub fn start_pass(
        &self,
        history: Result<Vec<ActivityEvent>, ActivityError>,
        pass_id: String,
        source: &str,
        config_hash: &str,
        timestamp: i64,
    ) -> (outcome: Result<(ActivityPass, ActivityEvent), ActivityError>)
        ensures
            match outcome {
                Ok((pass, event)) => {
                    &&& history is Ok
                    &&& pass.pass() == pass_id@
                    &&& pass.origin() == source@
                    &&& pass.hash() == config_hash@
                    &&& pass.start() == timestamp
                    &&& event@ == start_event(pass_id@, source@, config_hash@, timestamp)
                },
                Err(error) => history == Err::<Vec<ActivityEvent>, ActivityError>(error),
            },
    {
        match history {
            Ok(_) => {},
            Err(error) => {
                return Err(error);
            },
        }
        let event = ActivityEvent {
            schema_version: SCHEMA_VERSION,
            pass_id: pass_id.clone(),
            source: source.to_owned(),
            sequence: 0,
            timestamp,
            config_hash: config_hash.to_owned(),
            data: EventData::PassStarted,
        };
        let pass = ActivityPass {
            pass_id,
            source: source.to_owned(),
            config_hash: config_hash.to_owned(),
            started_at: timestamp,
        };
        Ok((pass, event))
    }

    /// The most recent completed pass with its actions. Passes that did not
    /// come to their end are left out.
    pub fn last_completed_pass(&self, events: &Vec<ActivityEvent>) -> (pass: Option<CompletedPass>)
        ensures
            opt_view(pass) == match last_summary(views(events@), events@.len() as int) {
                Some(summary) => Some(pass_of(views(events@), summary)),
                None => None,
            },
    {
        broadcast use group_views;

        let ghost all = views(events@);
        let mut index: usize = events.len();
        while index > 0
            invariant
                index <= events@.len(),
                all == views(events@),
                last_summary(all, all.len() as int) == last_summary(all, index as int),
            decreases index,
        {
            let event = &events[index - 1];
            assert(all[index - 1] == event@);
            match close_pass(events, event) {
                Some(pass) => {
                    return Some(pass);
                },
                None => {},
            }
            index -= 1;
        }
        None
    }

    /// Every completed pass, in the order in which they ended.
    pub fn completed_passes(&self, events: &Vec<ActivityEvent>) -> (passes: Vec<CompletedPass>)
        ensures
            views(passes@) == passes_closed(views(events@), events@.len() as int),
    {
        broadcast use group_views;

        let ghost all = views(events@);
        let mut passes: Vec<CompletedPass> = Vec::new();
        let mut index: usize = 0;
        assert(views(passes@) =~= passes_closed(all, 0));
        while index < events.len()
            invariant
                index <= events@.len(),
                all == views(events@),
                views(passes@) == passes_closed(all, index as int),
            decreases events@.len() - index,
        {
            assert(all[index as int] == events@[index as int]@);
            match close_pass(events, &events[index]) {
                Some(pass) => {
                    passes.push(pass);
                },
                None => {},
            }
            index += 1;
        }
        passes
    }
}

/// The last completed pass is the last of all completed passes.
pub proof fn last_pass_closes_the_list(events: Seq<EventView>, count: int)
    requires
        0 <= count <= events.len(),
    ensures
        match last_summary(events, count) {
            Some(summary) => passes_closed(events, count).len() > 0 && passes_closed(
                events,
                count,
            ).last() == pass_of(events, summary),
            None => passes_closed(events, count).len() == 0,
        },
    decreases count,
{
    if count > 0 && !(events[count - 1].data is PassSummary) {
        last_pass_closes_the_list(events, count - 1);
    }
}

/// A cleanup pass under way.
#[derive(Debug, PartialEq, Eq)]
pub struct ActivityPass {
    pass_id: String,
    source: String,
    config_hash: String,
    started_at: i64,
}

/// The last removal of a plan that speaks of a resource.
pub open spec fn removal_on(
    decisions: Seq<DecisionView>,
    kind: ResourceKind,
    id: Seq<char>,
) -> Option<DecisionView>
    decreases decisions.len(),
{
    if decisions.len() == 0 {
        None
    } else {
        let last = decisions.last();
        if last.action == Action::Remove && last.resource.kind == kind && last.resource.id == id {
            Some(last)
        } else {
            removal_on(decisions.drop_last(), kind, id)
        }
    }
}

/// The bytes that an outcome freed.
pub open spec fn freed_by(decisions: Seq<DecisionView>, outcome: OutcomeView) -> u64 {
    if outcome.status == TargetStatus::Removed {
        match removal_on(decisions, outcome.kind, outcome.id) {
            Some(decision) => match decision.resource.size {
                Some(bytes) => bytes,
                None => 0,
            },
            None => 0,
        }
    } else {
        0
    }
}

/// The bytes that outcomes freed together, at most the largest that can be
/// held.
pub open spec fn freed_bytes(decisions: Seq<DecisionView>, outcomes: Seq<OutcomeView>) -> u64
    decreases outcomes.len(),
{
    if outcomes.len() == 0 {
        0
    } else {
        let before = freed_bytes(decisions, outcomes.drop_last());
        let own = freed_by(decisions, outcomes.last());
        if before + own > u64::MAX {
            u64::MAX
        } else {
            (before + own) as u64
        }
    }
}

/// How many outcomes have a status.
pub open spec fn outcomes_with(outcomes: Seq<OutcomeView>, status: TargetStatus) -> nat {
    crate::executor::status_count(outcomes, status)
}

/// How many decisions each rule made.
pub open spec fn rule_counts(decisions: Seq<DecisionView>) -> Seq<(Seq<char>, u64)>
    decreases decisions.len(),
{
    if decisions.len() == 0 {
        Seq::empty()
    } else {
        let before = rule_counts(decisions.drop_last());
        match decisions.last().matched_rule {
            Some(rule) => put(
                before,
                rule,
                (match value_of(before, rule) {
                    Some(count) => count + 1,
                    None => 1,
                }) as u64,
            ),
            None => before,
        }
    }
}

proof fn lemma_rule_counts(decisions: Seq<DecisionView>, rule: Seq<char>)
    requires
        decisions.len() <= u64::MAX,
    ensures
        keys_ascend(rule_counts(decisions)),
        match value_of(rule_counts(decisions), rule) {
            Some(count) => count <= decisions.len(),
            None => true,
        },
    decreases decisions.len(),
{
    if decisions.len() > 0 {
        let rest = decisions.drop_last();
        let before = rule_counts(rest);
        lemma_rule_counts(rest, rule);
        match decisions.last().matched_rule {
            Some(last) => {
                lemma_rule_counts(rest, last);
                let value = (match value_of(before, last) {
                    Some(count) => count + 1,
                    None => 1,
                }) as u64;
                lemma_put(before, last, value, rule);
            },
            None => {},
        }
    }
}

/// One more, at most the largest number that can be held.
pub open spec fn next_number(count: nat) -> u64 {
    if count >= u64::MAX {
        u64::MAX
    } else {
        (count + 1) as u64
    }
}

impl ActivityPass {
    /// The name of the pass.
    pub closed spec fn pass(&self) -> Seq<char> {
        self.pass_id@
    }

    /// What started the pass.
    pub closed spec fn origin(&self) -> Seq<char> {
        self.source@
    }

    /// The hash of the configuration that the pass applies.
    pub closed spec fn hash(&self) -> Seq<char> {
        self.config_hash@
    }

    /// When the pass started.
    pub closed spec fn start(&self) -> i64 {
        self.started_at
    }

    /// An event of this pass.
    pub open spec fn event(&self, sequence: u64, timestamp: i64, data: EventDataView) -> EventView {
        EventView {
            schema_version: SCHEMA_VERSION,
            pass_id: self.pass(),
            source: self.origin(),
            sequence,
            timestamp,
            config_hash: self.hash(),
            data,
        }
    }

    /// The event of one outcome.
    pub open spec fn action_event(
        &self,
        decisions: Seq<DecisionView>,
        outcomes: Seq<OutcomeView>,
        index: int,
        completed_at: i64,
    ) -> EventView {
        let outcome = outcomes[index];
        self.event(
            next_number(index as nat),
            completed_at,
            EventDataView::Action {
                action: status_text(outcome.status),
                resource_kind: kind_text(outcome.kind),
                resource_id: outcome.id,
                resource_name: outcome.name,
                matched_rule: outcome.matched_rule,
                age_seconds: match removal_on(decisions, outcome.kind, outcome.id) {
                    Some(decision) => decision.age_seconds,
                    None => None,
                },
                freed_bytes: freed_by(decisions, outcome),
                detail: outcome.detail,
            },
        )
    }

    /// The events that close this pass: one for each outcome, then the summary.
    pub open spec fn closing_events(
        &self,
        decisions: Seq<DecisionView>,
        outcomes: Seq<OutcomeView>,
        completed_at: i64,
    ) -> Seq<EventView> {
        Seq::new(
            outcomes.len(),
            |i: int| self.action_event(decisions, outcomes, i, completed_at),
        ).push(
            self.event(
                next_number(outcomes.len()),
                completed_at,
                EventDataView::PassSummary {
                    completed_at,
                    rule_match_counts: rule_counts(decisions),
                    removed_count: outcomes_with(outcomes, TargetStatus::Removed) as u64,
                    skipped_count: outcomes_with(outcomes, TargetStatus::Skipped) as u64,
                    failure_count: outcomes_with(outcomes, TargetStatus::Failed) as u64,
                    reclaimed_bytes: freed_bytes(decisions, outcomes),
                },
            ),
        )
    }

    /// The name of the pass.
    pub fn id(&self) -> (name: &str)
        ensures
            name@ == self.pass(),
    {
        self.pass_id.as_str()
    }

    /// When the pass started.
    pub fn started_at(&self) -> (moment: i64)
        ensures
            moment == self.start(),
    {
        self.started_at
    }

    fn make_event(&self, sequence: u64, timestamp: i64, data: EventData) -> (event: ActivityEvent)
        ensures
            event@ == self.event(sequence, timestamp, data@),
    {
        ActivityEvent {
            schema_version: SCHEMA_VERSION,
            pass_id: self.pass_id.clone(),
            source: self.source.clone(),
            sequence,
            timestamp,
            config_hash: self.config_hash.clone(),
            data,
        }
    }

    fn find_removal<'a>(plan: &'a Plan, kind: ResourceKind, id: &str) -> (found: Option<
        &'a Decision,
    >)
        ensures
            match found {
                Some(decision) => removal_on(plan@, kind, id@) == Some(decision@),
                None => removal_on(plan@, kind, id@) is None,
            },
    {
        broadcast use group_views;

        let ghost all = views(plan.decisions@);
        let mut index: usize = plan.decisions.len();
        assert(all.take(index as int) =~= all);
        while index > 0
            invariant
                index <= plan.decisions@.len(),
                all == views(plan.decisions@),
                removal_on(all, kind, id@) == removal_on(all.take(index as int), kind, id@),
            decreases index,
        {
            let decision = &plan.decisions[index - 1];
            assert(all.take(index as int).last() == decision@);
            if decision.action == Action::Remove && decision.resource.kind == kind && text_eq(
                decision.resource.id.as_str(),
                id,
            ) {
                return Some(decision);
            }
            assert(all.take(index as int).drop_last() =~= all.take(index as int - 1));
            index -= 1;
        }
        None
    }

    pub fn count_rules(plan: &Plan) -> (counts: TextMap<u64>)
        ensures
            counts@ == rule_counts(plan@),
    {
        broadcast use group_views;

        let ghost all = views(plan.decisions@);
        let total: usize = plan.decisions.len();
        let mut counts: TextMap<u64> = TextMap::new();
        let mut index: usize = 0;
        while index < plan.decisions.len()
            invariant
                index <= plan.decisions@.len(),
                total == plan.decisions@.len(),
                all == views(plan.decisions@),
                counts@ == rule_counts(all.take(index as int)),
            decreases plan.decisions@.len() - index,
        {
            let decision = &plan.decisions[index];
            assert(all.take(index as int + 1).drop_last() =~= all.take(index as int));
            assert(all.take(index as int + 1).last() == decision@);
            match &decision.matched_rule {
                Some(rule) => {
                    proof {
                        lemma_rule_counts(all.take(index as int), rule@);
                    }
                    let count: u64 = match counts.get(rule.as_str()) {
                        Some(held) => *held + 1,
                        None => 1,
                    };
                    counts.insert(rule.clone(), count);
                },
                None => {},
            }
            index += 1;
        }
        assert(all.take(index as int) =~= all);
        counts
    }

    /// The events that close this pass, to be appended in their order.
    pub fn finish(&self, plan: &Plan, report: &ExecutionReport, completed_at: i64) -> (events: Vec<
        ActivityEvent,
    >)
        ensures
            views(events@) == self.closing_events(plan@, report@, completed_at),
    {
        broadcast use group_views;

        let ghost outcomes = report@;
        let ghost actions = Seq::new(
            outcomes.len(),
            |i: int| self.action_event(plan@, outcomes, i, completed_at),
        );
        let total: usize = report.outcomes.len();
        let mut events: Vec<ActivityEvent> = Vec::new();
        let mut removed_count: u64 = 0;
        let mut skipped_count: u64 = 0;
        let mut failure_count: u64 = 0;
        let mut reclaimed_bytes: u64 = 0;
        let mut index: usize = 0;
        assert(views(events@) =~= actions.take(0));
        while index < report.outcomes.len()
            invariant
                index <= report.outcomes@.len(),
                total == report.outcomes@.len(),
                outcomes == views(report.outcomes@),
                actions == Seq::new(
                    outcomes.len(),
                    |i: int| self.action_event(plan@, outcomes, i, completed_at),
                ),
                removed_count <= index,
                skipped_count <= index,
                failure_count <= index,
                removed_count == outcomes_with(outcomes.take(index as int), TargetStatus::Removed),
                skipped_count == outcomes_with(outcomes.take(index as int), TargetStatus::Skipped),
                failure_count == outcomes_with(outcomes.take(index as int), TargetStatus::Failed),
                reclaimed_bytes == freed_bytes(plan@, outcomes.take(index as int)),
                views(events@) == actions.take(index as int),
            decreases report.outcomes@.len() - index,
        {
            let outcome = &report.outcomes[index];
            assert(outcomes.take(index as int + 1).drop_last() =~= outcomes.take(index as int));
            assert(outcomes.take(index as int + 1).last() == outcome@);
            assert(outcomes[index as int] == outcome@);
            let decision = ActivityPass::find_removal(plan, outcome.kind, outcome.id.as_str());
            let mut freed: u64 = 0;
            let mut age_seconds: Option<u64> = None;
            match decision {
                Some(found) => {
                    age_seconds = found.age_seconds;
                    if outcome.status == TargetStatus::Removed {
                        match found.resource.size {
                            Some(bytes) => {
                                freed = bytes;
                            },
                            None => {},
                        }
                    }
                },
                None => {},
            }
            match outcome.status {
                TargetStatus::Removed => {
                    removed_count += 1;
                },
                TargetStatus::Skipped => {
                    skipped_count += 1;
                },
                TargetStatus::Failed => {
                    failure_count += 1;
                },
            }
            reclaimed_bytes = reclaimed_bytes.saturating_add(freed);
            let event = self.make_event(
                (index as u64).saturating_add(1),
                completed_at,
                EventData::Action {
                    action: outcome.status.as_text().to_owned(),
                    resource_kind: outcome.kind.as_text().to_owned(),
                    resource_id: outcome.id.clone(),
                    resource_name: outcome.name.clone(),
                    matched_rule: outcome.matched_rule.clone(),
                    age_seconds,
                    freed_bytes: freed,
                    detail: outcome.detail.clone(),
                },
            );
            assert(event@ == actions[index as int]);
            assert(actions.take(index as int + 1) =~= actions.take(index as int).push(event@));
            events.push(event);
            index += 1;
        }
        assert(outcomes.take(index as int) =~= outcomes);
        assert(actions.take(index as int) =~= actions);
        let summary = self.make_event(
            (total as u64).saturating_add(1),
            completed_at,
            EventData::PassSummary {
                completed_at,
                rule_match_counts: ActivityPass::count_rules(plan),
                removed_count,
                skipped_count,
                failure_count,
                reclaimed_bytes,
            },
        );
        events.push(summary);
        events
    }
}

/// A closed pass is found again: right behind its start and its closing events
/// the journal's last completed pass is that pass, with its outcomes in order.
pub proof fn a_finished_pass_is_read_back(
    pass: ActivityPass,
    before: Seq<EventView>,
    decisions: Seq<DecisionView>,
    outcomes: Seq<OutcomeView>,
    completed_at: i64,
)
    requires
        outcomes.len() < u64::MAX,
        forall|i: int| 0 <= i < before.len() ==> (#[trigger] before[i]).pass_id != pass.pass(),
    ensures
        ({
            let closing = pass.closing_events(decisions, outcomes, completed_at);
            let start = start_event(pass.pass(), pass.origin(), pass.hash(), pass.start());
            let events = before.push(start) + closing;
            &&& last_summary(events, events.len() as int) == Some(closing.last())
            &&& pass_of(events, closing.last()).pass_id == pass.pass()
            &&& pass_of(events, closing.last()).started_at == pass.start()
            &&& pass_of(events, closing.last()).completed_at == completed_at
            &&& pass_of(events, closing.last()).actions == closing.drop_last()
        }),
{
    let closing = pass.closing_events(decisions, outcomes, completed_at);
    let start = start_event(pass.pass(), pass.origin(), pass.hash(), pass.start());
    let opened = before.push(start);
    let events = opened + closing;
    assert(events[events.len() - 1] == closing.last());
    lemma_start_found(before, start, closing, completed_at);
    lemma_no_foreign_actions(before, pass.pass());
    assert(opened.drop_last() =~= before);
    assert(pass_actions(opened, pass.pass()) =~= Seq::empty());
    let count = outcomes.len() as int;
    lemma_actions_appended(opened, closing, pass.pass(), count);
    assert(events.drop_last() =~= opened + closing.take(count));
    assert(closing.drop_last() =~= closing.take(count));
    assert(pass_actions(events, pass.pass()) =~= closing.take(count));
    assert(crate::order::in_rank_order::<ActivityEvent>(closing.take(count)));
    crate::order::lemma_ranked_fixed::<ActivityEvent>(closing.take(count));
}

proof fn lemma_start_found(
    before: Seq<EventView>,
    start: EventView,
    closing: Seq<EventView>,
    otherwise: i64,
)
    requires
        start.data is PassStarted,
        forall|i: int| 0 <= i < before.len() ==> (#[trigger] before[i]).pass_id != start.pass_id,
    ensures
        pass_start(before.push(start) + closing, start.pass_id, otherwise) == start.timestamp,
    decreases before.len(),
{
    let events = before.push(start) + closing;
    if before.len() == 0 {
        assert(events[0] == start);
    } else {
        assert(events[0] == before[0]);
        let rest = before.drop_first();
        assert forall|i: int| 0 <= i < rest.len() implies (#[trigger] rest[i]).pass_id
            != start.pass_id by {
            assert(before[i + 1] == rest[i]);
        }
        assert(events.drop_first() =~= rest.push(start) + closing);
        lemma_start_found(rest, start, closing, otherwise);
    }
}

proof fn lemma_no_foreign_actions(events: Seq<EventView>, pass_id: Seq<char>)
    requires
        forall|i: int| 0 <= i < events.len() ==> (#[trigger] events[i]).pass_id != pass_id,
    ensures
        pass_actions(events, pass_id).len() == 0,
    decreases events.len(),
{
    if events.len() > 0 {
        let rest = events.drop_last();
        assert forall|i: int| 0 <= i < rest.len() implies (#[trigger] rest[i]).pass_id
            != pass_id by {
            assert(events[i] == rest[i]);
        }
        assert(events[events.len() - 1].pass_id != pass_id);
        lemma_no_foreign_actions(rest, pass_id);
    }
}

proof fn lemma_actions_appended(
    opened: Seq<EventView>,
    closing: Seq<EventView>,
    pass_id: Seq<char>,
    count: int,
)
    requires
        0 <= count <= closing.len(),
        pass_actions(opened, pass_id).len() == 0,
        forall|i: int|
            0 <= i < count ==> (#[trigger] closing[i]).pass_id == pass_id && closing[i].data
                is Action,
    ensures
        pass_actions(opened + closing.take(count), pass_id) == closing.take(count),
    decreases count,
{
    let events = opened + closing.take(count);
    if count == 0 {
        assert(events =~= opened);
        assert(pass_actions(opened, pass_id) =~= closing.take(0));
    } else {
        lemma_actions_appended(opened, closing, pass_id, count - 1);
        assert(events.drop_last() =~= opened + closing.take(count - 1));
        assert(events.last() == closing[count - 1]);
        assert(closing.take(count - 1).push(closing[count - 1]) =~= closing.take(count));
    }
}

} // verus!
