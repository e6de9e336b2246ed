//! Proposals: a configuration source with generated rules, checked and
//! previewed before anything is written.
//!
//! Reading a source into a configuration, and rendering rules as TOML, happen
//! outside. The functions here say what is to be read and rendered, and what
//! follows from the outcome.

use crate::candidate::{
    CandidateFamily, CandidateFamilyView, CandidateResourceView, ConfiguratorError,
    ConfiguratorSurvey, SurveyView, CONFIGURATOR_SCHEMA_VERSION,
};
use crate::config::{
    complaints, config_error_text, default_config, Config, ConfigError, ConfigView, Rules, RulesView,
};
use crate::generate::{
    generated_rules, managed_rules, rule_ids, sorted_rule_ids, MANAGED_ID_PREFIX,
};
use crate::journal::{stable_config_hash, text_hash};
use crate::managed::{
    region_head, render_managed_source, rewriting_replaces_only_the_region, stands_at_most_once,
    stands_only_at, strip_managed_region, the_manual_text_holds_no_marker, the_region_stands_once,
    with_region, without_region, MANAGED_END, MANAGED_START,
};
use crate::order::{ranked, sort};
use crate::outside::{document_fault, quote, quoted};
use crate::plan::{plan_for, ContextView, DecisionView, PlanContext};
use crate::preview::{
    chosen_warnings, creation_record, fully_reached, preview_context, preview_of, proposal_preview,
    selected_candidate_warnings, shadow_fault, ProposalPreview,
};
use crate::profile::{
    profile_settings, profile_text, settings_fault, PolicyProfile, PolicySettings, SettingsView,
};
use crate::resource::{kind_text, state_text, InventoryItem, ItemView};
use crate::state::{below, join_path, ProtectionState};
use crate::text::{
    blank, clone_texts, concat2, concat3, concat4, concat5, decimal, decimal_text, group_views,
    is_blank, is_empty_text, join, joined, occurs_in, opt_view, signed_decimal, signed_text,
    starts_with, text_eq, trimmed, trimmed_end, views,
};
use crate::text_map::Labels;
use crate::unique::{dedup, ordered_once};
use vstd::prelude::*;
use vstd::string::*;

verus! {

/// What a proposal is made from.
pub struct ProposalRequest<'a> {
    pub base_source: &'a str,
    pub source_existed: bool,
    pub target_path: &'a str,
    pub survey: &'a ConfiguratorSurvey,
    pub inventory: &'a Vec<InventoryItem>,
    pub profile: PolicyProfile,
    pub policy: Option<&'a PolicySettings>,
    pub candidate_ids: &'a Vec<String>,
    pub now_epoch_seconds: i64,
    /// The runtime state that the preview goes by; without it every resource is
    /// taken as unused since it was created.
    pub context: Option<PlanContext<'a>>,
}

/// What a request says.
pub struct RequestView {
    pub base_source: Seq<char>,
    pub source_existed: bool,
    pub target_path: Seq<char>,
    pub survey: SurveyView,
    pub inventory: Seq<ItemView>,
    pub profile: PolicyProfile,
    pub policy: SettingsView,
    pub candidate_ids: Seq<Seq<char>>,
    pub now: i64,
    pub context: ContextView,
}

impl<'a> View for ProposalRequest<'a> {
    type V = RequestView;

    /// The settings are those given, else those of the profile.
    open spec fn view(&self) -> RequestView {
        RequestView {
            base_source: self.base_source@,
            source_existed: self.source_existed,
            target_path: self.target_path@,
            survey: self.survey@,
            inventory: views(self.inventory@),
            profile: self.profile,
            policy: match self.policy {
                Some(policy) => policy@,
                None => profile_settings(self.profile),
            },
            candidate_ids: views(self.candidate_ids@),
            now: self.now_epoch_seconds,
            context: match self.context {
                Some(context) => context@,
                None => preview_context(views(self.inventory@)),
            },
        }
    }
}

/// A proposal for a configuration source.
#[derive(Debug, PartialEq, Eq)]
pub struct ConfigProposal {
    pub schema_version: u32,
    pub proposal_id: String,
    pub snapshot_id: String,
    pub inventory_signature: String,
    pub target_path: String,
    pub source_existed: bool,
    pub base_source_hash: String,
    pub result_source_hash: String,
    pub profile: PolicyProfile,
    pub policy: PolicySettings,
    pub candidate_ids: Vec<String>,
    pub generated_rule_ids: Vec<String>,
    pub preview: ProposalPreview,
    pub warnings: Vec<String>,
    pub resulting_source: String,
}

/// What a proposal says.
#[verifier::ext_equal]
pub struct ProposalView {
    pub schema_version: u32,
    pub proposal_id: Seq<char>,
    pub snapshot_id: Seq<char>,
    pub inventory_signature: Seq<char>,
    pub target_path: Seq<char>,
    pub source_existed: bool,
    pub base_source_hash: Seq<char>,
    pub result_source_hash: Seq<char>,
    pub profile: PolicyProfile,
    pub policy: SettingsView,
    pub candidate_ids: Seq<Seq<char>>,
    pub generated_rule_ids: Seq<Seq<char>>,
    pub preview: ProposalPreview,
    pub warnings: Seq<Seq<char>>,
    pub resulting_source: Seq<char>,
}

impl View for ConfigProposal {
    type V = ProposalView;

    open spec fn view(&self) -> ProposalView {
        ProposalView {
            schema_version: self.schema_version,
            proposal_id: self.proposal_id@,
            snapshot_id: self.snapshot_id@,
            inventory_signature: self.inventory_signature@,
            target_path: self.target_path@,
            source_existed: self.source_existed,
            base_source_hash: self.base_source_hash@,
            result_source_hash: self.result_source_hash@,
            profile: self.profile,
            policy: self.policy@,
            candidate_ids: views(self.candidate_ids@),
            generated_rule_ids: views(self.generated_rule_ids@),
            preview: self.preview,
            warnings: views(self.warnings@),
            resulting_source: self.resulting_source@,
        }
    }
}

/// Why no proposal is made.
pub enum Refusal {
    /// The request cannot be met.
    Invalid(Seq<char>),
    /// What the proposal was made from has changed.
    Stale(Seq<char>),
    /// A source is no valid configuration.
    Config(Seq<char>),
}

/// Whether an error states a refusal.
pub open spec fn refuses(error: ConfiguratorError, refusal: Refusal) -> bool {
    match refusal {
        Refusal::Invalid(words) => error matches ConfiguratorError::Invalid(message) && message@
            == words,
        Refusal::Stale(words) => error matches ConfiguratorError::Stale(message) && message@
            == words,
        Refusal::Config(words) => error matches ConfiguratorError::Config(inner)
            && config_error_text(inner) == words,
    }
}

/// What reading a source gave: a configuration, or the words of an error.
pub open spec fn read_config(outcome: Result<Config, ConfigError>) -> Result<
    ConfigView,
    Seq<char>,
> {
    match outcome {
        Ok(config) => Ok(config@),
        Err(error) => Err(config_error_text(error)),
    }
}

/// What rendering rules gave: a text, or the words of an error.
pub open spec fn read_text(outcome: Result<String, ConfigError>) -> Result<Seq<char>, Seq<char>> {
    match outcome {
        Ok(text) => Ok(text@),
        Err(error) => Err(config_error_text(error)),
    }
}

/// The source without the generated rules, where the request can be met so
/// far.
pub open spec fn manual_part(request: RequestView) -> Result<Seq<char>, Refusal> {
    if settings_fault(request.policy) is Some {
        Err(Refusal::Invalid(settings_fault(request.policy)->0))
    } else if request.candidate_ids.len() == 0 {
        Err(Refusal::Invalid("select at least one discovered candidate"@))
    } else {
        match without_region(request.base_source) {
            Some(source) => Ok(source),
            None => Err(
                Refusal::Invalid(
                    "configuration contains an incomplete docker_maid managed-rule region"@,
                ),
            ),
        }
    }
}

fn chosen_policy<'a>(request: &ProposalRequest<'a>) -> (policy: PolicySettings)
    ensures
        policy@ == request@.policy,
{
    match request.policy {
        Some(policy) => policy.clone(),
        None => request.profile.settings(),
    }
}

/// The source that is to be read as the configuration written by hand.
pub fn manual_source<'a>(request: &ProposalRequest<'a>) -> (outcome: Result<
    String,
    ConfiguratorError,
>)
    ensures
        match manual_part(request@) {
            Ok(source) => outcome matches Ok(text) && text@ == source,
            Err(refusal) => outcome matches Err(error) && refuses(error, refusal),
        },
{
    broadcast use group_views;

    let policy = chosen_policy(request);
    match policy.validate() {
        Ok(_) => {},
        Err(error) => {
            return Err(error);
        },
    }
    if request.candidate_ids.len() == 0 {
        return Err(
            ConfiguratorError::Invalid("select at least one discovered candidate".to_owned()),
        );
    }
    match strip_managed_region(request.base_source) {
        Some(source) => Ok(source),
        None => Err(
            ConfiguratorError::Invalid(
                "configuration contains an incomplete docker_maid managed-rule region".to_owned(),
            ),
        ),
    }
}

/// A configuration that was read, where it is valid.
pub open spec fn valid_config(read: Result<ConfigView, Seq<char>>) -> Result<ConfigView, Refusal> {
    match read {
        Err(words) => Err(Refusal::Config(words)),
        Ok(config) => if complaints(config).len() == 0 {
            Ok(config)
        } else {
            Err(
                Refusal::Config(
                    "configuration validation failed: "@ + joined(complaints(config), "; "@),
                ),
            )
        },
    }
}

/// The configuration written by hand; a blank source is the default one.
pub open spec fn manual_config_of(
    source: Seq<char>,
    read: Result<ConfigView, Seq<char>>,
) -> Result<ConfigView, Refusal> {
    if is_blank(source) {
        Ok(default_config())
    } else {
        valid_config(read)
    }
}

#[verifier::spinoff_prover]
#[verifier::rlimit(40)]
fn check_config(outcome: Result<Config, ConfigError>) -> (checked: Result<
    Config,
    ConfiguratorError,
>)
    ensures
        match valid_config(read_config(outcome)) {
            Ok(config) => checked matches Ok(made) && made@ == config,
            Err(refusal) => checked matches Err(error) && refuses(error, refusal),
        },
{
    match outcome {
        Err(error) => Err(ConfiguratorError::Config(error)),
        Ok(config) => match config.validate() {
            Ok(_) => Ok(config),
            Err(error) => {
                assert(config_error_text(error) == "configuration validation failed: "@ + joined(
                    complaints(config@),
                    "; "@,
                ));
                Err(ConfiguratorError::Config(error))
            },
        },
    }
}

/// Takes what reading the manual source gave.
pub fn parse_config_source(source: &str, outcome: Result<Config, ConfigError>) -> (checked: Result<
    Config,
    ConfiguratorError,
>)
    ensures
        match manual_config_of(source@, read_config(outcome)) {
            Ok(config) => checked matches Ok(made) && made@ == config,
            Err(refusal) => checked matches Err(error) && refuses(error, refusal),
        },
{
    if blank(source) {
        Ok(Config::default())
    } else {
        check_config(outcome)
    }
}

/// The first id that only generated rules may have.
pub open spec fn misplaced_id(ids: Seq<Seq<char>>) -> Option<Seq<char>>
    decreases ids.len(),
{
    if ids.len() == 0 {
        None
    } else if MANAGED_ID_PREFIX@.is_prefix_of(ids[0]) {
        Some(ids[0])
    } else {
        misplaced_id(ids.drop_first())
    }
}

fn find_misplaced(ids: &Vec<String>) -> (found: Option<String>)
    ensures
        opt_view(found) == misplaced_id(views(ids@)),
{
    broadcast use group_views;

    let ghost all = views(ids@);
    let mut index: usize = 0;
    assert(all.skip(0) =~= all);
    while index < ids.len()
        invariant
            index <= ids@.len(),
            all == views(ids@),
            misplaced_id(all) == misplaced_id(all.skip(index as int)),
        decreases ids@.len() - index,
    {
        assert(all.skip(index as int)[0] == ids@[index as int]@);
        assert(all.skip(index as int).drop_first() =~= all.skip(index as int + 1));
        if starts_with(ids[index].as_str(), MANAGED_ID_PREFIX) {
            return Some(ids[index].clone());
        }
        index += 1;
    }
    None
}

/// The family of an id, the last where several have it.
pub open spec fn family_named(families: Seq<CandidateFamilyView>, id: Seq<char>) -> Option<
    CandidateFamilyView,
>
    decreases families.len(),
{
    if families.len() == 0 {
        None
    } else if families.last().id == id {
        Some(families.last())
    } else {
        family_named(families.drop_last(), id)
    }
}

fn find_family(families: &Vec<CandidateFamily>, id: &str) -> (found: Option<CandidateFamily>)
    ensures
        opt_view(found) == family_named(views(families@), id@),
{
    broadcast use group_views;

    let ghost all = views(families@);
    let mut end: usize = families.len();
    assert(all.take(end as int) =~= all);
    while end > 0
        invariant
            end <= families@.len(),
            all == views(families@),
            family_named(all, id@) == family_named(all.take(end as int), id@),
        decreases end,
    {
        assert(all.take(end as int).last() == families@[end - 1]@);
        assert(all.take(end as int).drop_last() =~= all.take(end as int - 1));
        if text_eq(families[end - 1].id.as_str(), id) {
            return Some(families[end - 1].clone());
        }
        end -= 1;
    }
    None
}

/// The families of ids, or the first id that names none.
pub open spec fn families_named(families: Seq<CandidateFamilyView>, ids: Seq<Seq<char>>) -> Result<
    Seq<CandidateFamilyView>,
    Seq<char>,
>
    decreases ids.len(),
{
    if ids.len() == 0 {
        Ok(Seq::empty())
    } else {
        match families_named(families, ids.drop_last()) {
            Err(missing) => Err(missing),
            Ok(found) => match family_named(families, ids.last()) {
                Some(family) => Ok(found.push(family)),
                None => Err(ids.last()),
            },
        }
    }
}

proof fn lemma_missing_stays(
    families: Seq<CandidateFamilyView>,
    ids: Seq<Seq<char>>,
    count: int,
)
    requires
        0 <= count <= ids.len(),
        families_named(families, ids.take(count)) is Err,
    ensures
        families_named(families, ids) == families_named(families, ids.take(count)),
    decreases ids.len(),
{
    if count == ids.len() {
        assert(ids.take(count) =~= ids);
    } else {
        assert(ids.drop_last().take(count) =~= ids.take(count));
        lemma_missing_stays(families, ids.drop_last(), count);
    }
}

fn find_families(families: &Vec<CandidateFamily>, ids: &Vec<String>) -> (outcome: Result<
    Vec<CandidateFamily>,
    String,
>)
    ensures
        match families_named(views(families@), views(ids@)) {
            Ok(found) => outcome matches Ok(list) && views(list@) == found,
            Err(missing) => outcome matches Err(id) && id@ == missing,
        },
{
    broadcast use group_views;

    let ghost all = views(ids@);
    let ghost known = views(families@);
    let mut found: Vec<CandidateFamily> = Vec::new();
    let mut index: usize = 0;
    assert(all.take(0).len() == 0);
    assert(views(found@) =~= Seq::empty());
    while index < ids.len()
        invariant
            index <= ids@.len(),
            all == views(ids@),
            known == views(families@),
            families_named(known, all.take(index as int)) == Ok::<
                Seq<CandidateFamilyView>,
                Seq<char>,
            >(views(found@)),
        decreases ids@.len() - index,
    {
        assert(all.take(index as int + 1).drop_last() =~= all.take(index as int));
        assert(all.take(index as int + 1).last() == ids@[index as int]@);
        match find_family(families, ids[index].as_str()) {
            Some(family) => {
                let ghost listed = views(found@);
                found.push(family);
                assert(views(found@) == listed.push(family@));
            },
            None => {
                proof {
                    lemma_missing_stays(known, all, index as int + 1);
                }
                return Err(ids[index].clone());
            },
        }
        index += 1;
    }
    assert(all.take(index as int) =~= all);
    Ok(found)
}

/// A Docker object with the id of the family that claims it.
pub struct ClaimView {
    pub kind: Seq<char>,
    pub id: Seq<char>,
    pub owner: Seq<char>,
}

struct Claim {
    kind: String,
    id: String,
    owner: String,
}

impl View for Claim {
    type V = ClaimView;

    closed spec fn view(&self) -> ClaimView {
        ClaimView { kind: self.kind@, id: self.id@, owner: self.owner@ }
    }
}

/// The claims of one family.
pub open spec fn family_claims(owner: Seq<char>, resources: Seq<CandidateResourceView>) -> Seq<
    ClaimView,
> {
    resources.map_values(
        |resource: CandidateResourceView|
            ClaimView { kind: resource.resource_kind, id: resource.id, owner },
    )
}

/// The claims of families.
pub open spec fn claims_of(families: Seq<CandidateFamilyView>) -> Seq<ClaimView>
    decreases families.len(),
{
    if families.len() == 0 {
        Seq::empty()
    } else {
        claims_of(families.drop_last()) + family_claims(
            families.last().id,
            families.last().resources,
        )
    }
}

/// Who claims an object.
pub open spec fn claimed_by(claims: Seq<ClaimView>, kind: Seq<char>, id: Seq<char>) -> Option<
    Seq<char>,
>
    decreases claims.len(),
{
    if claims.len() == 0 {
        None
    } else if claims.last().kind == kind && claims.last().id == id {
        Some(claims.last().owner)
    } else {
        claimed_by(claims.drop_last(), kind, id)
    }
}

/// The first claim to an object that is claimed already: who claimed it, and
/// who claims it again.
pub open spec fn first_conflict(claims: Seq<ClaimView>) -> Option<(Seq<char>, Seq<char>)>
    decreases claims.len(),
{
    if claims.len() == 0 {
        None
    } else {
        let rest = claims.drop_last();
        match first_conflict(rest) {
            Some(conflict) => Some(conflict),
            None => match claimed_by(rest, claims.last().kind, claims.last().id) {
                Some(owner) => Some((owner, claims.last().owner)),
                None => None,
            },
        }
    }
}

proof fn lemma_conflict_stays(claims: Seq<ClaimView>, count: int)
    requires
        0 <= count <= claims.len(),
        first_conflict(claims.take(count)) is Some,
    ensures
        first_conflict(claims) == first_conflict(claims.take(count)),
    decreases claims.len(),
{
    if count == claims.len() {
        assert(claims.take(count) =~= claims);
    } else {
        assert(claims.drop_last().take(count) =~= claims.take(count));
        lemma_conflict_stays(claims.drop_last(), count);
    }
}

proof fn lemma_claims_grow(families: Seq<CandidateFamilyView>, count: int)
    requires
        0 <= count <= families.len(),
    ensures
        claims_of(families.take(count)).is_prefix_of(claims_of(families)),
    decreases families.len(),
{
    if count == families.len() {
        assert(families.take(count) =~= families);
    } else {
        lemma_claims_grow(families.drop_last(), count);
        assert(families.drop_last().take(count) =~= families.take(count));
    }
}

fn find_claim(claims: &Vec<Claim>, kind: &str, id: &str) -> (owner: Option<String>)
    ensures
        opt_view(owner) == claimed_by(views(claims@), kind@, id@),
{
    broadcast use group_views;

    let ghost all = views(claims@);
    let mut end: usize = claims.len();
    assert(all.take(end as int) =~= all);
    while end > 0
        invariant
            end <= claims@.len(),
            all == views(claims@),
            claimed_by(all, kind@, id@) == claimed_by(all.take(end as int), kind@, id@),
        decreases end,
    {
        assert(all.take(end as int).last() == claims@[end - 1]@);
        assert(all.take(end as int).drop_last() =~= all.take(end as int - 1));
        if text_eq(claims[end - 1].kind.as_str(), kind) && text_eq(
            claims[end - 1].id.as_str(),
            id,
        ) {
            return Some(claims[end - 1].owner.clone());
        }
        end -= 1;
    }
    None
}

/// What overlapping families are told.
pub open spec fn overlap_text(conflict: (Seq<char>, Seq<char>)) -> Seq<char> {
    "candidates "@ + quoted(conflict.0) + " and "@ + quoted(conflict.1)
        + " overlap; select one ownership explanation"@
}

/// Refuses families that claim one Docker object twice.
pub fn reject_overlaps(candidates: &Vec<CandidateFamily>) -> (outcome: Result<
    (),
    ConfiguratorError,
>)
    ensures
        match first_conflict(claims_of(views(candidates@))) {
            None => outcome is Ok,
            Some(conflict) => outcome matches Err(ConfiguratorError::Invalid(message)) && message@
                == overlap_text(conflict),
        },
{
    broadcast use group_views;

    let ghost all = views(candidates@);
    let mut claims: Vec<Claim> = Vec::new();
    let mut outer: usize = 0;
    assert(views(claims@) =~= claims_of(all.take(0)));
    while outer < candidates.len()
        invariant
            outer <= candidates@.len(),
            all == views(candidates@),
            views(claims@) == claims_of(all.take(outer as int)),
            first_conflict(views(claims@)) is None,
        decreases candidates@.len() - outer,
    {
        let family = &candidates[outer];
        let resources = &family.resources;
        let ghost before = views(claims@);
        let ghost own = family_claims(family@.id, family@.resources);
        proof {
            assert(all.take(outer as int + 1).drop_last() =~= all.take(outer as int));
            assert(all.take(outer as int + 1).last() == family@);
            lemma_claims_grow(all, outer as int + 1);
        }
        let ghost next = claims_of(all.take(outer as int + 1));
        assert(next == before + own);
        let mut inner: usize = 0;
        assert(views(claims@) =~= next.take(before.len() as int));
        while inner < resources.len()
            invariant
                inner <= resources@.len(),
                family@.resources == views(resources@),
                own == family_claims(family@.id, family@.resources),
                next == before + own,
                next.is_prefix_of(claims_of(all)),
                all == views(candidates@),
                views(claims@) == next.take(before.len() + inner),
                first_conflict(views(claims@)) is None,
            decreases resources@.len() - inner,
        {
            let resource = &resources[inner];
            let ghost place = before.len() + inner;
            let claim = Claim {
                kind: resource.resource_kind.clone(),
                id: resource.id.clone(),
                owner: family.id.clone(),
            };
            proof {
                assert(claim@ == own[inner as int]);
                assert(claim@ == next[place as int]);
                assert(next.take(place + 1).drop_last() =~= next.take(place as int));
                assert(next.take(place + 1).last() == claim@);
                assert(next.take(place + 1) =~= next.take(place as int).push(claim@));
            }
            if let Some(owner) = find_claim(&claims, claim.kind.as_str(), claim.id.as_str()) {
                proof {
                    assert(claims_of(all).take(place + 1) =~= next.take(place + 1));
                    lemma_conflict_stays(claims_of(all), place + 1);
                }
                return Err(
                    ConfiguratorError::Invalid(
                        concat5(
                            "candidates ",
                            quote(owner.as_str()).as_str(),
                            " and ",
                            quote(family.id.as_str()).as_str(),
                            " overlap; select one ownership explanation",
                        ),
                    ),
                );
            }
            let ghost held = views(claims@);
            claims.push(claim);
            proof {
                let after = views(claims@);
                assert(after == held.push(claim@));
                assert(after.drop_last() =~= held);
                assert(after.last() == claim@);
            }
            inner += 1;
        }
        assert(next.take(before.len() + inner) =~= next);
        outer += 1;
    }
    assert(all.take(outer as int) =~= all);
    Ok(())
}

/// The families that a request chooses, with the rules for them.
pub struct ChoiceView {
    pub selected: Seq<CandidateFamilyView>,
    pub rules: RulesView,
}

/// What a request chooses, given the configuration written by hand.
pub open spec fn choice_of(request: RequestView, manual: ConfigView) -> Result<ChoiceView, Refusal> {
    let ids = ordered_once::<String>(request.candidate_ids);
    let misplaced = misplaced_id(sorted_rule_ids(manual.rules));
    if misplaced is Some {
        Err(
            Refusal::Invalid(
                "managed rule "@ + quoted(misplaced->0)
                    + " is outside the configurator region; move it back or change its id"@,
            ),
        )
    } else if ids.len() != request.candidate_ids.len() {
        Err(Refusal::Invalid("candidate IDs must not be repeated"@))
    } else {
        match families_named(request.survey.candidates, ids) {
            Err(missing) => Err(
                Refusal::Invalid(
                    "candidate "@ + quoted(missing) + " is not present in snapshot "@
                        + request.survey.snapshot_id,
                ),
            ),
            Ok(selected) => match first_conflict(claims_of(selected)) {
                Some(conflict) => Err(Refusal::Invalid(overlap_text(conflict))),
                None => match managed_rules(
                    manual.rules.build_cache is Some,
                    selected,
                    request.policy,
                ) {
                    Err(fault) => Err(Refusal::Invalid(fault)),
                    Ok(rules) => Ok(ChoiceView { selected, rules }),
                },
            },
        }
    }
}

/// The families that a request chooses, with the rules to be rendered.
pub struct Choice {
    pub selected: Vec<CandidateFamily>,
    pub rules: Rules,
}

impl View for Choice {
    type V = ChoiceView;

    open spec fn view(&self) -> ChoiceView {
        ChoiceView { selected: views(self.selected@), rules: self.rules@ }
    }
}

fn sorted_ids(ids: &Vec<String>) -> (sorted: Vec<String>)
    ensures
        views(sorted@) == ordered_once::<String>(views(ids@)),
{
    dedup(sort(clone_texts(ids)))
}

/// Chooses families and makes the rules for them.
pub fn proposed_rules<'a>(request: &ProposalRequest<'a>, manual: &Config) -> (outcome: Result<
    Choice,
    ConfiguratorError,
>)
    ensures
        match choice_of(request@, manual@) {
            Ok(choice) => outcome matches Ok(made) && made@ == choice,
            Err(refusal) => outcome matches Err(error) && refuses(error, refusal),
        },
{
    broadcast use group_views;

    let policy = chosen_policy(request);
    let own_ids = rule_ids(&manual.rules);
    if let Some(id) = find_misplaced(&own_ids) {
        return Err(
            ConfiguratorError::Invalid(
                concat3(
                    "managed rule ",
                    quote(id.as_str()).as_str(),
                    " is outside the configurator region; move it back or change its id",
                ),
            ),
        );
    }
    let ids = sorted_ids(request.candidate_ids);
    assert(ids@.len() == views(ids@).len());
    assert(request.candidate_ids@.len() == request@.candidate_ids.len());
    if ids.len() != request.candidate_ids.len() {
        return Err(ConfiguratorError::Invalid("candidate IDs must not be repeated".to_owned()));
    }
    let selected = match find_families(&request.survey.candidates, &ids) {
        Ok(selected) => selected,
        Err(missing) => {
            return Err(
                ConfiguratorError::Invalid(
                    concat4(
                        "candidate ",
                        quote(missing.as_str()).as_str(),
                        " is not present in snapshot ",
                        request.survey.snapshot_id.as_str(),
                    ),
                ),
            );
        },
    };
    match reject_overlaps(&selected) {
        Ok(_) => {},
        Err(error) => {
            return Err(error);
        },
    }
    let cache_taken = manual.rules.build_cache.is_some();
    match generated_rules(cache_taken, &selected, &policy) {
        Ok(rules) => Ok(Choice { selected, rules }),
        Err(error) => Err(error),
    }
}

/// The line of one item in an inventory's signature.
pub open spec fn inventory_row(item: ItemView) -> Seq<char> {
    kind_text(item.kind) + "|"@ + item.id + "|"@ + item.name + "|"@ + state_text(item.state) + "|"@
        + moment_text(item.created_at) + "|"@ + moment_text(item.state_since) + "|"@ + size_text(
        item.size,
    ) + "|"@ + flag_text(item.referenced) + "|"@ + flag_text(item.system) + "|"@ + joined(
        label_texts(item.labels),
        ","@,
    )
}

/// A moment in a signature.
pub open spec fn moment_text(moment: Option<i64>) -> Seq<char> {
    match moment {
        Some(value) => signed_decimal(value as int),
        None => "-"@,
    }
}

/// A size in a signature.
pub open spec fn size_text(size: Option<u64>) -> Seq<char> {
    match size {
        Some(value) => decimal(value as nat),
        None => "-"@,
    }
}

/// A flag in a signature.
pub open spec fn flag_text(flag: bool) -> Seq<char> {
    if flag {
        "true"@
    } else {
        "false"@
    }
}

/// Labels written out.
pub open spec fn label_texts(labels: Seq<(Seq<char>, Seq<char>)>) -> Seq<Seq<char>> {
    labels.map_values(|label: (Seq<char>, Seq<char>)| label.0 + "="@ + label.1)
}

/// The signature of an inventory: it does not hang on the order of the items.
pub open spec fn inventory_mark(inventory: Seq<ItemView>) -> Seq<char> {
    text_hash(
        joined(
            ranked::<String>(inventory.map_values(|item: ItemView| inventory_row(item))),
            "\n"@,
        ),
    )
}

fn write_moment(moment: Option<i64>) -> (text: String)
    ensures
        text@ == moment_text(moment),
{
    match moment {
        Some(value) => signed_text(value),
        None => "-".to_owned(),
    }
}

fn write_size(size: Option<u64>) -> (text: String)
    ensures
        text@ == size_text(size),
{
    match size {
        Some(value) => decimal_text(value),
        None => "-".to_owned(),
    }
}

fn write_flag(flag: bool) -> (text: &'static str)
    ensures
        text@ == flag_text(flag),
{
    if flag {
        "true"
    } else {
        "false"
    }
}

fn write_labels(labels: &Labels) -> (texts: Vec<String>)
    ensures
        views(texts@) == label_texts(labels@),
{
    broadcast use group_views;

    let mut texts: Vec<String> = Vec::new();
    let count: usize = labels.len();
    let ghost wanted = label_texts(labels@);
    let mut index: usize = 0;
    assert(views(texts@) =~= wanted.take(0));
    while index < count
        invariant
            index <= count,
            count == labels@.len(),
            wanted == label_texts(labels@),
            views(texts@) == wanted.take(index as int),
        decreases count - index,
    {
        let text = concat3(labels.key_at(index).as_str(), "=", labels.value_at(index).as_str());
        assert(wanted.take(index as int + 1) =~= wanted.take(index as int).push(text@));
        texts.push(text);
        index += 1;
    }
    assert(wanted.take(index as int) =~= wanted);
    texts
}

fn write_item(item: &InventoryItem) -> (row: String)
    ensures
        row@ == inventory_row(item@),
{
    let mut row = item.kind.as_text().to_owned();
    row.append("|");
    row.append(item.id.as_str());
    row.append("|");
    row.append(item.name.as_str());
    row.append("|");
    row.append(item.state.as_text().as_str());
    row.append("|");
    row.append(write_moment(item.created_at).as_str());
    row.append("|");
    row.append(write_moment(item.state_since).as_str());
    row.append("|");
    row.append(write_size(item.size).as_str());
    row.append("|");
    row.append(write_flag(item.referenced));
    row.append("|");
    row.append(write_flag(item.system));
    row.append("|");
    row.append(join(&write_labels(&item.labels), ",").as_str());
    row
}

/// The signature of an inventory.
pub fn inventory_signature(inventory: &Vec<InventoryItem>) -> (mark: String)
    ensures
        mark@ == inventory_mark(views(inventory@)),
{
    broadcast use group_views;

    let mut rows: Vec<String> = Vec::new();
    let ghost items = views(inventory@);
    let ghost wanted = items.map_values(|item: ItemView| inventory_row(item));
    let mut index: usize = 0;
    assert(views(rows@) =~= wanted.take(0));
    while index < inventory.len()
        invariant
            index <= inventory@.len(),
            items == views(inventory@),
            wanted == items.map_values(|item: ItemView| inventory_row(item)),
            views(rows@) == wanted.take(index as int),
        decreases inventory@.len() - index,
    {
        let row = write_item(&inventory[index]);
        assert(row@ == wanted[index as int]);
        assert(wanted.take(index as int + 1) =~= wanted.take(index as int).push(row@));
        rows.push(row);
        index += 1;
    }
    assert(wanted.take(index as int) =~= wanted);
    stable_config_hash(join(&sort(rows), "\n").as_str())
}

/// What the id of a proposal is made from.
pub open spec fn proposal_seed(
    request: RequestView,
    candidate_ids: Seq<Seq<char>>,
    result_hash: Seq<char>,
) -> Seq<char> {
    request.survey.snapshot_id + "\n"@ + inventory_mark(request.inventory) + "\n"@
        + request.target_path + "\n"@ + profile_text(request.profile) + "\n"@ + joined(
        candidate_ids,
        "\n"@,
    ) + "\n"@ + result_hash
}

/// The proposal that a request leads to, given what came of reading the manual
/// source, rendering the rules, and reading the resulting source.
pub open spec fn proposal_of(
    request: RequestView,
    manual_read: Result<ConfigView, Seq<char>>,
    rendered: Result<Seq<char>, Seq<char>>,
    result_read: Result<ConfigView, Seq<char>>,
) -> Result<ProposalView, Refusal> {
    match manual_part(request) {
        Err(refusal) => Err(refusal),
        Ok(source) => match manual_config_of(source, manual_read) {
            Err(refusal) => Err(refusal),
            Ok(manual) => match choice_of(request, manual) {
                Err(refusal) => Err(refusal),
                Ok(choice) => match rendered {
                    Err(words) => Err(Refusal::Config(words)),
                    Ok(generated) => {
                        let resulting = with_region(source, generated);
                        match document_fault(resulting) {
                            Some(fault) => Err(
                                Refusal::Invalid(
                                    "generated TOML cannot be edited safely: "@ + fault,
                                ),
                            ),
                            None => match valid_config(result_read) {
                                Err(refusal) => Err(refusal),
                                Ok(result) => completed(request, manual, choice, resulting, result),
                            },
                        }
                    },
                },
            },
        },
    }
}

/// The proposal once every part of it is there.
pub open spec fn completed(
    request: RequestView,
    manual: ConfigView,
    choice: ChoiceView,
    resulting: Seq<char>,
    result: ConfigView,
) -> Result<ProposalView, Refusal> {
    let ids = ordered_once::<String>(request.candidate_ids);
    let generated_ids = sorted_rule_ids(choice.rules);
    match preview_of(
        manual,
        result,
        request.inventory,
        request.now,
        request.context,
        choice.selected,
        generated_ids,
    ) {
        Err(fault) => Err(Refusal::Invalid(fault)),
        Ok(preview) => Ok(
            ProposalView {
                schema_version: CONFIGURATOR_SCHEMA_VERSION,
                proposal_id: "proposal-"@ + text_hash(
                    proposal_seed(request, ids, text_hash(resulting)),
                ),
                snapshot_id: request.survey.snapshot_id,
                inventory_signature: inventory_mark(request.inventory),
                target_path: request.target_path,
                source_existed: request.source_existed,
                base_source_hash: text_hash(request.base_source),
                result_source_hash: text_hash(resulting),
                profile: request.profile,
                policy: request.policy,
                candidate_ids: ids,
                generated_rule_ids: generated_ids,
                preview,
                warnings: chosen_warnings(
                    choice.selected,
                    request.policy,
                    request.inventory,
                    request.now,
                    request.context,
                ),
                resulting_source: resulting,
            },
        ),
    }
}

fn complete_proposal<'a>(
    request: &ProposalRequest<'a>,
    manual: &Config,
    choice: &Choice,
    resulting: String,
    result: &Config,
) -> (outcome: Result<ConfigProposal, ConfiguratorError>)
    ensures
        match completed(request@, manual@, choice@, resulting@, result@) {
            Ok(proposal) => outcome matches Ok(made) && made@ == proposal,
            Err(refusal) => outcome matches Err(error) && refuses(error, refusal),
        },
{
    let generated_rule_ids = rule_ids(&choice.rules);
    let protection = ProtectionState::empty();
    let observations = creation_record(request.inventory);
    let context = match request.context {
        Some(context) => context,
        None => PlanContext { protection: &protection, observations: &observations },
    };
    assert(context@ == request@.context);
    let preview = match proposal_preview(
        manual,
        result,
        request.inventory,
        request.now_epoch_seconds,
        &context,
        &choice.selected,
        &generated_rule_ids,
    ) {
        Ok(preview) => preview,
        Err(error) => {
            return Err(error);
        },
    };
    let policy = chosen_policy(request);
    let warnings = selected_candidate_warnings(
        &choice.selected,
        &policy,
        request.inventory,
        request.now_epoch_seconds,
        &context,
    );
    let mark = inventory_signature(request.inventory);
    let candidate_ids = sorted_ids(request.candidate_ids);
    let result_hash = stable_config_hash(resulting.as_str());
    let mut seed = request.survey.snapshot_id.clone();
    seed.append("\n");
    seed.append(mark.as_str());
    seed.append("\n");
    seed.append(request.target_path);
    seed.append("\n");
    seed.append(request.profile.as_text());
    seed.append("\n");
    seed.append(join(&candidate_ids, "\n").as_str());
    seed.append("\n");
    seed.append(result_hash.as_str());
    Ok(
        ConfigProposal {
            schema_version: CONFIGURATOR_SCHEMA_VERSION,
            proposal_id: concat2("proposal-", stable_config_hash(seed.as_str()).as_str()),
            snapshot_id: request.survey.snapshot_id.clone(),
            inventory_signature: mark,
            target_path: request.target_path.to_owned(),
            source_existed: request.source_existed,
            base_source_hash: stable_config_hash(request.base_source),
            result_source_hash: result_hash,
            profile: request.profile,
            policy,
            candidate_ids,
            generated_rule_ids,
            preview,
            warnings,
            resulting_source: resulting,
        },
    )
}

/// Makes a proposal, given what came of reading the manual source, rendering
/// the chosen rules, and reading the resulting source.
pub fn propose_configuration<'a>(
    request: &ProposalRequest<'a>,
    manual_read: Result<Config, ConfigError>,
    rendered: Result<String, ConfigError>,
    result_read: Result<Config, ConfigError>,
) -> (outcome: Result<ConfigProposal, ConfiguratorError>)
    ensures
        match proposal_of(
            request@,
            read_config(manual_read),
            read_text(rendered),
            read_config(result_read),
        ) {
            Ok(proposal) => outcome matches Ok(made) && made@ == proposal,
            Err(refusal) => outcome matches Err(error) && refuses(error, refusal),
        },
{
    let source = match manual_source(request) {
        Ok(source) => source,
        Err(error) => {
            return Err(error);
        },
    };
    let manual = match parse_config_source(source.as_str(), manual_read) {
        Ok(config) => config,
        Err(error) => {
            return Err(error);
        },
    };
    let choice = match proposed_rules(request, &manual) {
        Ok(choice) => choice,
        Err(error) => {
            return Err(error);
        },
    };
    let generated = match rendered {
        Ok(text) => text,
        Err(error) => {
            return Err(ConfiguratorError::Config(error));
        },
    };
    let resulting = match render_managed_source(source.as_str(), generated.as_str()) {
        Ok(text) => text,
        Err(message) => {
            return Err(ConfiguratorError::Invalid(message));
        },
    };
    let result = match check_config(result_read) {
        Ok(config) => config,
        Err(error) => {
            return Err(error);
        },
    };
    complete_proposal(request, &manual, &choice, resulting, &result)
}

/// Why a proposal may not be written, given the inventory and the source as
/// they are now and what came of reading the proposed source.
pub open spec fn write_refusal(
    proposal: ProposalView,
    inventory: Seq<ItemView>,
    current_source: Seq<char>,
    read: Result<ConfigView, Seq<char>>,
) -> Option<Refusal> {
    if proposal.schema_version != CONFIGURATOR_SCHEMA_VERSION {
        Some(
            Refusal::Invalid(
                "unsupported proposal schema_version "@ + decimal(proposal.schema_version as nat)
                    + "; expected "@ + decimal(CONFIGURATOR_SCHEMA_VERSION as nat),
            ),
        )
    } else if inventory_mark(inventory) != proposal.inventory_signature {
        Some(
            Refusal::Stale(
                "Docker inventory changed after proposal creation; refresh and review again"@,
            ),
        )
    } else if text_hash(current_source) != proposal.base_source_hash {
        Some(
            Refusal::Stale(
                "configuration changed after proposal creation: "@ + proposal.target_path,
            ),
        )
    } else if text_hash(proposal.resulting_source) != proposal.result_source_hash {
        Some(Refusal::Invalid("proposal payload does not match its result hash"@))
    } else {
        match valid_config(read) {
            Ok(_) => None,
            Err(refusal) => Some(refusal),
        }
    }
}

/// Checks a proposal against the inventory and the source as they are now.
pub fn accept_proposal(
    proposal: &ConfigProposal,
    current_inventory: &Vec<InventoryItem>,
    current_source: &str,
    read: Result<Config, ConfigError>,
) -> (outcome: Result<(), ConfiguratorError>)
    ensures
        match write_refusal(
            proposal@,
            views(current_inventory@),
            current_source@,
            read_config(read),
        ) {
            None => outcome is Ok,
            Some(refusal) => outcome matches Err(error) && refuses(error, refusal),
        },
{
    if proposal.schema_version != CONFIGURATOR_SCHEMA_VERSION {
        return Err(
            ConfiguratorError::Invalid(
                concat4(
                    "unsupported proposal schema_version ",
                    decimal_text(proposal.schema_version as u64).as_str(),
                    "; expected ",
                    decimal_text(CONFIGURATOR_SCHEMA_VERSION as u64).as_str(),
                ),
            ),
        );
    }
    let mark = inventory_signature(current_inventory);
    if !text_eq(mark.as_str(), proposal.inventory_signature.as_str()) {
        return Err(
            ConfiguratorError::Stale(
                "Docker inventory changed after proposal creation; refresh and review again".to_owned(),
            ),
        );
    }
    let hash = stable_config_hash(current_source);
    if !text_eq(hash.as_str(), proposal.base_source_hash.as_str()) {
        return Err(
            ConfiguratorError::Stale(
                concat2(
                    "configuration changed after proposal creation: ",
                    proposal.target_path.as_str(),
                ),
            ),
        );
    }
    let payload = stable_config_hash(proposal.resulting_source.as_str());
    if !text_eq(payload.as_str(), proposal.result_source_hash.as_str()) {
        return Err(
            ConfiguratorError::Invalid("proposal payload does not match its result hash".to_owned()),
        );
    }
    match check_config(read) {
        Ok(_) => Ok(()),
        Err(error) => Err(error),
    }
}

/// The files that a durable write touches beside its target.
#[derive(Debug, PartialEq, Eq)]
pub struct WriteFiles {
    pub lock: String,
    pub backup: Option<String>,
    pub temporary: String,
}

/// Plans a durable write, once the lock is held: a source that changed while
/// waiting is refused, and a source that holds anything is kept as a backup.
pub fn plan_write(
    filename: &str,
    current_source: &str,
    locked_source: &str,
    process: u32,
    nanoseconds: u64,
    nonce: u64,
) -> (outcome: Result<WriteFiles, ConfiguratorError>)
    ensures
        if locked_source@ != current_source@ {
            outcome matches Err(ConfiguratorError::Stale(message)) && message@
                == "configuration changed while waiting for its write lock"@
        } else {
            outcome matches Ok(files) && {
                &&& files.lock@ == "."@ + filename@ + ".lock"@
                &&& opt_view(files.backup) == if current_source@.len() == 0 {
                    None
                } else {
                    Some(filename@ + ".bak"@)
                }
                &&& files.temporary@ == "."@ + filename@ + ".tmp-"@ + decimal(process as nat) + "-"@
                    + decimal(nanoseconds as nat) + "-"@ + decimal(nonce as nat)
            }
        },
{
    if !text_eq(locked_source, current_source) {
        return Err(
            ConfiguratorError::Stale(
                "configuration changed while waiting for its write lock".to_owned(),
            ),
        );
    }
    let mut temporary = concat4(
        ".",
        filename,
        ".tmp-",
        decimal_text(process as u64).as_str(),
    );
    temporary.append("-");
    temporary.append(decimal_text(nanoseconds).as_str());
    temporary.append("-");
    temporary.append(decimal_text(nonce).as_str());
    Ok(
        WriteFiles {
            lock: lock_name(filename),
            backup: if is_empty_text(current_source) {
                None
            } else {
                Some(concat2(filename, ".bak"))
            },
            temporary,
        },
    )
}

/// The name of the lock beside a configuration file.
pub fn lock_name(filename: &str) -> (name: String)
    ensures
        name@ == "."@ + filename@ + ".lock"@,
{
    concat3(".", filename, ".lock")
}

/// What a write left behind.
#[derive(Debug, PartialEq, Eq)]
pub struct ConfigWriteResult {
    pub schema_version: u32,
    pub proposal_id: String,
    pub path: String,
    pub backup_path: Option<String>,
    pub source_hash: String,
}

/// The report on a proposal that was written.
pub fn write_result(proposal: &ConfigProposal, backup_path: Option<String>) -> (result:
    ConfigWriteResult)
    ensures
        result.schema_version == CONFIGURATOR_SCHEMA_VERSION,
        result.proposal_id@ == proposal@.proposal_id,
        result.path@ == proposal@.target_path,
        result.backup_path == backup_path,
        result.source_hash@ == proposal@.result_source_hash,
{
    ConfigWriteResult {
        schema_version: CONFIGURATOR_SCHEMA_VERSION,
        proposal_id: proposal.proposal_id.clone(),
        path: proposal.target_path.clone(),
        backup_path,
        source_hash: proposal.result_source_hash.clone(),
    }
}

/// Where a configuration is to be written: the path asked for, else the one
/// loaded, else below the configuration base, else below the home directory.
pub open spec fn target_path(
    explicit: Option<Seq<char>>,
    loaded: Option<Seq<char>>,
    config_home: Option<Seq<char>>,
    home: Option<Seq<char>>,
) -> Option<Seq<char>> {
    if explicit is Some {
        explicit
    } else if loaded is Some {
        loaded
    } else if config_home is Some {
        Some(below(config_home->0, "docker_maid/config.toml"@))
    } else if home is Some {
        Some(below(home->0, ".config/docker_maid/config.toml"@))
    } else {
        None
    }
}

/// Finds where a configuration is to be written.
pub fn configuration_target_path(
    explicit: &Option<String>,
    loaded: &Option<String>,
    config_home: &Option<String>,
    home: &Option<String>,
) -> (outcome: Result<String, ConfiguratorError>)
    ensures
        match target_path(
            opt_view(*explicit),
            opt_view(*loaded),
            opt_view(*config_home),
            opt_view(*home),
        ) {
            Some(path) => outcome matches Ok(made) && made@ == path,
            None => outcome matches Err(ConfiguratorError::Invalid(message)) && message@
                == "cannot select a configuration path: set XDG_CONFIG_HOME or HOME"@,
        },
{
    if let Some(path) = explicit {
        return Ok(path.clone());
    }
    if let Some(path) = loaded {
        return Ok(path.clone());
    }
    if let Some(root) = config_home {
        return Ok(join_path(root.as_str(), "docker_maid/config.toml"));
    }
    if let Some(root) = home {
        return Ok(join_path(root.as_str(), ".config/docker_maid/config.toml"));
    }
    Err(
        ConfiguratorError::Invalid(
            "cannot select a configuration path: set XDG_CONFIG_HOME or HOME".to_owned(),
        ),
    )
}

/// A proposal that was just made may be written, as long as the inventory and
/// the source are still those that it was made from.
pub proof fn a_fresh_proposal_is_accepted(
    request: RequestView,
    manual_read: Result<ConfigView, Seq<char>>,
    rendered: Result<Seq<char>, Seq<char>>,
    result_read: Result<ConfigView, Seq<char>>,
)
    requires
        proposal_of(request, manual_read, rendered, result_read) is Ok,
    ensures
        write_refusal(
            proposal_of(request, manual_read, rendered, result_read)->Ok_0,
            request.inventory,
            request.base_source,
            result_read,
        ) is None,
{
}

/// A proposal is refused once the inventory's or the source's hash differs
/// from the one that it was made from.
pub proof fn a_stale_proposal_is_refused(
    proposal: ProposalView,
    inventory: Seq<ItemView>,
    current_source: Seq<char>,
    read: Result<ConfigView, Seq<char>>,
)
    requires
        inventory_mark(inventory) != proposal.inventory_signature || text_hash(current_source)
            != proposal.base_source_hash,
    ensures
        write_refusal(proposal, inventory, current_source, read) is Some,
{
}

proof fn lemma_nothing_shadowed(
    families: Seq<CandidateFamilyView>,
    ids: Seq<Seq<char>>,
    decisions: Seq<DecisionView>,
    index: int,
)
    requires
        shadow_fault(families, ids, decisions) is None,
        0 <= index < families.len(),
    ensures
        fully_reached(decisions, ids, families[index]),
    decreases families.len(),
{
    if index > 0 {
        lemma_nothing_shadowed(families.drop_first(), ids, decisions, index - 1);
    }
}

proof fn lemma_claims_stand(families: Seq<CandidateFamilyView>, f: int, r: int) -> (place: int)
    requires
        0 <= f < families.len(),
        0 <= r < families[f].resources.len(),
    ensures
        0 <= place < claims_of(families).len(),
        claims_of(families)[place].kind == families[f].resources[r].resource_kind,
        claims_of(families)[place].id == families[f].resources[r].id,
        place >= claims_of(families.take(f)).len(),
        place < claims_of(families.take(f + 1)).len(),
    decreases families.len(),
{
    let rest = families.drop_last();
    if f < families.len() - 1 {
        let place = lemma_claims_stand(rest, f, r);
        assert(rest.take(f) =~= families.take(f));
        assert(rest.take(f + 1) =~= families.take(f + 1));
        place
    } else {
        assert(families.take(f) =~= rest);
        assert(families.take(f + 1) =~= families);
        claims_of(rest).len() + r
    }
}

proof fn lemma_claimed_by(claims: Seq<ClaimView>, index: int)
    requires
        0 <= index < claims.len(),
    ensures
        claimed_by(claims, claims[index].kind, claims[index].id) is Some,
    decreases claims.len(),
{
    if index < claims.len() - 1 {
        lemma_claimed_by(claims.drop_last(), index);
    }
}

proof fn lemma_claims_differ(claims: Seq<ClaimView>, first: int, second: int)
    requires
        first_conflict(claims) is None,
        0 <= first < second < claims.len(),
    ensures
        claims[first].kind != claims[second].kind || claims[first].id != claims[second].id,
    decreases claims.len(),
{
    if second < claims.len() - 1 {
        lemma_claims_differ(claims.drop_last(), first, second);
    } else {
        lemma_claimed_by(claims.drop_last(), first);
    }
}

proof fn lemma_claims_pile_up(families: Seq<CandidateFamilyView>, first: int, second: int)
    requires
        0 <= first <= second <= families.len(),
    ensures
        claims_of(families.take(first)).len() <= claims_of(families.take(second)).len(),
    decreases second - first,
{
    if first < second {
        assert(families.take(second).drop_last() =~= families.take(second - 1));
        lemma_claims_pile_up(families, first, second - 1);
    }
}

/// In the plan that a proposal leads to, rules that it generated decide on
/// every resource of every family that was chosen, the build cache aside.
pub proof fn a_proposal_reaches_what_was_chosen(
    request: RequestView,
    manual: ConfigView,
    choice: ChoiceView,
    resulting: Seq<char>,
    result: ConfigView,
    index: int,
)
    requires
        completed(request, manual, choice, resulting, result) is Ok,
        0 <= index < choice.selected.len(),
    ensures
        fully_reached(
            plan_for(result, request.inventory, request.now, request.context),
            completed(request, manual, choice, resulting, result)->Ok_0.generated_rule_ids,
            choice.selected[index],
        ),
{
    lemma_nothing_shadowed(
        choice.selected,
        sorted_rule_ids(choice.rules),
        plan_for(result, request.inventory, request.now, request.context),
        index,
    );
}

/// No two families of a choice hold the same Docker object.
pub proof fn chosen_families_do_not_overlap(
    request: RequestView,
    manual: ConfigView,
    first: int,
    second: int,
    r: int,
    other: int,
)
    requires
        choice_of(request, manual) is Ok,
        0 <= first < second < choice_of(request, manual)->Ok_0.selected.len(),
        0 <= r < choice_of(request, manual)->Ok_0.selected[first].resources.len(),
        0 <= other < choice_of(request, manual)->Ok_0.selected[second].resources.len(),
    ensures
        ({
            let selected = choice_of(request, manual)->Ok_0.selected;
            let mine = selected[first].resources[r];
            let theirs = selected[second].resources[other];
            mine.resource_kind != theirs.resource_kind || mine.id != theirs.id
        }),
{
    let selected = choice_of(request, manual)->Ok_0.selected;
    let a = lemma_claims_stand(selected, first, r);
    let b = lemma_claims_stand(selected, second, other);
    lemma_claims_pile_up(selected, first + 1, second);
    lemma_claims_differ(claims_of(selected), a, b);
}

proof fn lemma_manual_source(request: RequestView)
    requires
        manual_part(request) is Ok,
        stands_at_most_once(request.base_source, MANAGED_START@),
        stands_at_most_once(request.base_source, MANAGED_END@),
    ensures
        !occurs_in(trimmed_end(manual_part(request)->Ok_0), MANAGED_START@),
        !occurs_in(trimmed_end(manual_part(request)->Ok_0), MANAGED_END@),
{
    the_manual_text_holds_no_marker(request.base_source);
}

proof fn lemma_rewritten_source(
    request: RequestView,
    again: RequestView,
    generated: Seq<char>,
    read: Result<ConfigView, Seq<char>>,
)
    requires
        manual_part(request) is Ok,
        stands_at_most_once(request.base_source, MANAGED_START@),
        stands_at_most_once(request.base_source, MANAGED_END@),
        !occurs_in(trimmed(generated), MANAGED_END@),
        again.base_source == with_region(manual_part(request)->Ok_0, generated),
        again.policy == request.policy,
        again.candidate_ids == request.candidate_ids,
    ensures
        manual_part(again) is Ok,
        with_region(manual_part(again)->Ok_0, generated) == again.base_source,
        manual_config_of(manual_part(again)->Ok_0, read) == manual_config_of(
            manual_part(request)->Ok_0,
            read,
        ),
{
    lemma_manual_source(request);
    rewriting_replaces_only_the_region(manual_part(request)->Ok_0, generated, generated);
}

/// The source of a proposal holds one region of generated rules, behind all of
/// the manual text: the source before held each marker at most once, and the
/// rendered rules hold none.
#[verifier::spinoff_prover]
#[verifier::rlimit(40)]
pub proof fn a_proposal_holds_one_region(
    request: RequestView,
    manual_read: Result<ConfigView, Seq<char>>,
    generated: Seq<char>,
    result_read: Result<ConfigView, Seq<char>>,
)
    requires
        proposal_of(request, manual_read, Ok(generated), result_read) is Ok,
        stands_at_most_once(request.base_source, MANAGED_START@),
        stands_at_most_once(request.base_source, MANAGED_END@),
        !occurs_in(trimmed(generated), MANAGED_START@),
        !occurs_in(trimmed(generated), MANAGED_END@),
    ensures
        ({
            let manual = manual_part(request)->Ok_0;
            let source = proposal_of(
                request,
                manual_read,
                Ok(generated),
                result_read,
            )->Ok_0.resulting_source;
            &&& source == with_region(manual, generated)
            &&& trimmed_end(manual).is_prefix_of(source)
            &&& trimmed_end(manual).len() <= region_head(manual).len()
            &&& stands_only_at(source, MANAGED_START@, region_head(manual).len() as int)
            &&& stands_only_at(source, MANAGED_END@, source.len() - MANAGED_END@.len() - 1)
        }),
{
    lemma_manual_source(request);
    the_region_stands_once(manual_part(request)->Ok_0, generated);
}

/// A second proposal, made from what the first one wrote, gives the same source,
/// the same id and the same preview, whether or not the source existed before:
/// reading and rendering answer as they did, the source before held each marker
/// of the region at most once, and the rendered rules do not close the region.
#[verifier::spinoff_prover]
#[verifier::rlimit(40)]
pub proof fn proposing_again_changes_nothing(
    request: RequestView,
    source_existed: bool,
    manual_read: Result<ConfigView, Seq<char>>,
    generated: Seq<char>,
    result_read: Result<ConfigView, Seq<char>>,
)
    requires
        proposal_of(request, manual_read, Ok(generated), result_read) is Ok,
        stands_at_most_once(request.base_source, MANAGED_START@),
        stands_at_most_once(request.base_source, MANAGED_END@),
        !occurs_in(trimmed(generated), MANAGED_END@),
    ensures
        ({
            let first = proposal_of(request, manual_read, Ok(generated), result_read)->Ok_0;
            let again = RequestView {
                base_source: first.resulting_source,
                source_existed,
                ..request
            };
            proposal_of(again, manual_read, Ok(generated), result_read) == Ok::<_, Refusal>(
                ProposalView {
                    source_existed,
                    base_source_hash: first.result_source_hash,
                    ..first
                },
            )
        }),
{
    let first = proposal_of(request, manual_read, Ok(generated), result_read)->Ok_0;
    let again = RequestView { base_source: first.resulting_source, source_existed, ..request };
    let manual = manual_config_of(manual_part(request)->Ok_0, manual_read)->Ok_0;
    lemma_rewritten_source(request, again, generated, manual_read);
    assert(choice_of(again, manual) == choice_of(request, manual));
}

} // verus!
