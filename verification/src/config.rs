//! Configuration: its parts, where it is looked for, and what makes it valid.

use crate::duration::{duration_of, read_duration};
use crate::outside::{glob_error, glob_fault, quote, quoted, regex_error, regex_fault};
use crate::state::{below, join_path};
use crate::text::{
    any_blank, blank, clone_opt_text, clone_texts, concat2, concat3, concat4, contains_item,
    count_text, decimal, group_views, has_blank, is_blank, join, joined, opt_view, opt_text_eq,
    pieces, split, starts_with, text_eq, texts_eq, views,
};
use vstd::prelude::*;
use vstd::string::*;

verus! {

/// The annotated configuration that a new setup starts from.
pub const DEFAULT_CONFIG: &'static str = r#"# docker_maid configuration
# This starter is safe: it contains no active cleanup rule.
# Run `docker_maid tui` for daemon-backed discovery and a reviewed proposal.

# [defaults]
# interval = "5m"       # quiet-host backstop; Docker events also wake a pass

# [protect]
# names = ["^postgres-prod$"]
# labels = ["com.example.prod=true"]

# Rules need explicit ownership selectors. The configurator creates exact
# label or operator-approved name-prefix selectors and stable managed IDs.
# [[rules.containers]]
# id = "manual/example-container-rule"
# name = "example-containers"
# stopped_ttl = "24h"
# select.labels = ["com.example.owner=agent"]

# Volume, image, and network age floors measure continuous observed-unreferenced
# time, recorded under $XDG_STATE_HOME/docker_maid/observation.toml. The first
# pass that sees a resource unreferenced starts its clock at zero.
#
# [[rules.networks]]
# id = "manual/example-network-rule"
# name = "example-networks"
# orphan = true
# orphan_for = "2h"
# select.labels = ["com.example.owner=agent"]

# Build cache has no labels or names. It is always a separate, explicit,
# authorized-unscoped decision:
# [rules.build_cache]
# id = "manual/build-cache"
# older_than = "30d"
# max_bytes = 21474836480
# allow_unscoped = true

# [tui]
# refresh = "5m"
"#;

/// A key that configurations no longer have, with its migration.
pub open spec fn retired_keys() -> Seq<(Seq<char>, Seq<char>)> {
    seq![
        (
            "adopt"@,
            "this was a container rule key; a rule match already means the resource is owned, so it never changed a decision. Delete the line"@,
        ),
        (
            "report"@,
            "this table promised a report file that nothing ever wrote. It parsed and was then ignored, so enabling it changed nothing. Delete the table"@,
        ),
        (
            "log_level"@,
            "this was a `defaults` key that nothing ever read; this tool does not have a configurable log level. Delete the line"@,
        ),
        (
            "mouse"@,
            "this was a `tui` key that nothing ever read; the dashboard is driven by the keyboard. Delete the line"@,
        ),
    ]
}

/// A key with its migration.
#[derive(Debug, Clone, Copy)]
pub struct RetiredKey {
    pub key: &'static str,
    pub note: &'static str,
}

impl View for RetiredKey {
    type V = (Seq<char>, Seq<char>);

    open spec fn view(&self) -> (Seq<char>, Seq<char>) {
        (self.key@, self.note@)
    }
}

fn retired_key_list() -> (keys: Vec<RetiredKey>)
    ensures
        views(keys@) == retired_keys(),
{
    let keys = vec![
        RetiredKey {
            key: "adopt",
            note: "this was a container rule key; a rule match already means the resource is owned, so it never changed a decision. Delete the line",
        },
        RetiredKey {
            key: "report",
            note: "this table promised a report file that nothing ever wrote. It parsed and was then ignored, so enabling it changed nothing. Delete the table",
        },
        RetiredKey {
            key: "log_level",
            note: "this was a `defaults` key that nothing ever read; this tool does not have a configurable log level. Delete the line",
        },
        RetiredKey {
            key: "mouse",
            note: "this was a `tui` key that nothing ever read; the dashboard is driven by the keyboard. Delete the line",
        },
    ];
    assert(views(keys@) =~= retired_keys());
    keys
}

/// Every key that configurations no longer have.
pub fn retired_key_names() -> (names: Vec<&'static str>)
    ensures
        views(names@) == seq!["adopt"@, "report"@, "log_level"@, "mouse"@],
{
    let names = vec!["adopt", "report", "log_level", "mouse"];
    assert(views(names@) =~= seq!["adopt"@, "report"@, "log_level"@, "mouse"@]);
    names
}

/// Whether a line of a parse message begins by naming `key` as unknown. Source
/// lines that the message quotes stand behind a gutter and never do.
pub open spec fn names_unknown(rendered: Seq<char>, key: Seq<char>) -> bool {
    exists|i: int|
        0 <= i < pieces(rendered, '\n').len() && ("unknown field `"@ + key + "`"@).is_prefix_of(
            #[trigger] pieces(rendered, '\n')[i],
        )
}

/// The first retired key, from `index` on, that a parse message names.
pub open spec fn retired_hint_from(rendered: Seq<char>, index: int) -> Option<
    (Seq<char>, Seq<char>),
>
    decreases retired_keys().len() - index,
{
    if index < 0 || index >= retired_keys().len() {
        None
    } else if names_unknown(rendered, retired_keys()[index].0) {
        Some(retired_keys()[index])
    } else {
        retired_hint_from(rendered, index + 1)
    }
}

fn line_names_unknown(lines: &Vec<String>, key: &str, Ghost(rendered): Ghost<Seq<char>>) -> (found:
    bool)
    requires
        views(lines@) == pieces(rendered, '\n'),
    ensures
        found == names_unknown(rendered, key@),
{
    broadcast use group_views;

    let message = concat3("unknown field `", key, "`");
    let mut index: usize = 0;
    while index < lines.len()
        invariant
            index <= lines@.len(),
            views(lines@) == pieces(rendered, '\n'),
            message@ == "unknown field `"@ + key@ + "`"@,
            forall|i: int|
                0 <= i < index ==> !message@.is_prefix_of(#[trigger] pieces(rendered, '\n')[i]),
        decreases lines@.len() - index,
    {
        assert(pieces(rendered, '\n')[index as int] == lines@[index as int]@);
        if starts_with(lines[index].as_str(), message.as_str()) {
            return true;
        }
        index += 1;
    }
    false
}

/// The retired key that a parse message names, with its migration.
pub fn retired_key_hint(rendered: &str) -> (hint: Option<RetiredKey>)
    ensures
        opt_view(hint) == retired_hint_from(rendered@, 0),
{
    broadcast use group_views;

    let lines = split(rendered, '\n');
    let keys = retired_key_list();
    let mut index: usize = 0;
    while index < keys.len()
        invariant
            index <= keys@.len(),
            views(keys@) == retired_keys(),
            views(lines@) == pieces(rendered@, '\n'),
            retired_hint_from(rendered@, 0) == retired_hint_from(rendered@, index as int),
        decreases keys@.len() - index,
    {
        assert(retired_keys()[index as int] == keys@[index as int]@);
        if line_names_unknown(&lines, keys[index].key, Ghost(rendered@)) {
            return Some(keys[index]);
        }
        index += 1;
    }
    None
}

/// Why a configuration cannot be used.
#[derive(Debug, PartialEq, Eq)]
pub enum ConfigError {
    /// No configuration file exists where one is looked for.
    NotFound { searched: Vec<String> },
    /// A file cannot be read.
    Read { path: String, message: String },
    /// A file does not hold a configuration.
    Parse { path: String, message: String },
    /// A configuration cannot be written down.
    Serialize(String),
    /// A configuration breaks rules, each named.
    Validation(Vec<String>),
}

/// The words of a configuration error.
pub open spec fn config_error_text(error: ConfigError) -> Seq<char> {
    match error {
        ConfigError::NotFound { searched } => "no configuration file found; searched: "@ + joined(
            views(searched@),
            ", "@,
        ),
        ConfigError::Read { path, message } => "cannot read "@ + path@ + ": "@ + message@,
        ConfigError::Parse { path, message } => {
            let plain = "invalid configuration "@ + path@ + ": "@ + message@;
            match retired_hint_from(message@, 0) {
                Some(hint) => plain + "\nretired key `"@ + hint.0 + "`: "@ + hint.1,
                None => plain,
            }
        },
        ConfigError::Serialize(message) => "cannot serialize configuration: "@ + message@,
        ConfigError::Validation(errors) => "configuration validation failed: "@ + joined(
            views(errors@),
            "; "@,
        ),
    }
}

impl ConfigError {
    /// The words of this error.
    pub fn message(&self) -> (words: String)
        ensures
            words@ == config_error_text(*self),
    {
        match self {
            ConfigError::NotFound { searched } => concat2(
                "no configuration file found; searched: ",
                join(searched, ", ").as_str(),
            ),
            ConfigError::Read { path, message } => concat4(
                "cannot read ",
                path.as_str(),
                ": ",
                message.as_str(),
            ),
            ConfigError::Parse { path, message } => {
                let mut words = concat4(
                    "invalid configuration ",
                    path.as_str(),
                    ": ",
                    message.as_str(),
                );
                match retired_key_hint(message.as_str()) {
                    Some(hint) => {
                        words.append("\nretired key `");
                        words.append(hint.key);
                        words.append("`: ");
                        words.append(hint.note);
                    },
                    None => {},
                }
                words
            },
            ConfigError::Serialize(message) => concat2(
                "cannot serialize configuration: ",
                message.as_str(),
            ),
            ConfigError::Validation(errors) => concat2(
                "configuration validation failed: ",
                join(errors, "; ").as_str(),
            ),
        }
    }
}

/// How far a rule reaches: over what its selectors own, or beyond.
#[derive(Debug, Clone, Copy, PartialEq, Eq, Structural)]
pub enum RuleScope {
    Owned,
    All,
}

impl Default for RuleScope {
    fn default() -> (scope: Self)
        ensures
            scope == RuleScope::Owned,
    {
        RuleScope::Owned
    }
}

/// What a rule selects resources by.
#[derive(Debug, PartialEq, Eq)]
pub struct Selectors {
    pub labels: Vec<String>,
    pub names: Vec<String>,
    pub name_parts: Vec<String>,
}

/// What selectors say.
#[verifier::ext_equal]
pub struct SelectorsView {
    pub labels: Seq<Seq<char>>,
    pub names: Seq<Seq<char>>,
    pub name_parts: Seq<Seq<char>>,
}

impl View for Selectors {
    type V = SelectorsView;

    open spec fn view(&self) -> SelectorsView {
        SelectorsView {
            labels: views(self.labels@),
            names: views(self.names@),
            name_parts: views(self.name_parts@),
        }
    }
}

/// The default of `Selectors`.
pub open spec fn default_selectors() -> SelectorsView {
    SelectorsView {
        labels: Seq::empty(),
        names: Seq::empty(),
        name_parts: Seq::empty(),
    }
}

impl Default for Selectors {
    fn default() -> (value: Self)
        ensures
            value@ == default_selectors(),
    {
        let value = Selectors {
            labels: Vec::new(),
            names: Vec::new(),
            name_parts: Vec::new(),
        };
        assert(value@ =~= default_selectors());
        value
    }
}

impl Clone for Selectors {
    fn clone(&self) -> (copy: Self)
        ensures
            copy@ == self@,
    {
        Selectors {
            labels: clone_texts(&self.labels),
            names: clone_texts(&self.names),
            name_parts: clone_texts(&self.name_parts),
        }
    }
}

/// What every rule has.
#[derive(Debug, PartialEq, Eq)]
pub struct CommonRule {
    pub id: Option<String>,
    pub name: String,
    pub description: Option<String>,
    pub select: Selectors,
    pub scope: RuleScope,
    pub allow_unscoped: bool,
}

/// What the common part of a rule says.
#[verifier::ext_equal]
pub struct CommonRuleView {
    pub id: Option<Seq<char>>,
    pub name: Seq<char>,
    pub description: Option<Seq<char>>,
    pub select: SelectorsView,
    pub scope: RuleScope,
    pub allow_unscoped: bool,
}

impl View for CommonRule {
    type V = CommonRuleView;

    open spec fn view(&self) -> CommonRuleView {
        CommonRuleView {
            id: opt_view(self.id),
            name: self.name@,
            description: opt_view(self.description),
            select: self.select@,
            scope: self.scope,
            allow_unscoped: self.allow_unscoped,
        }
    }
}

/// The default of `CommonRule`.
pub open spec fn default_common_rule() -> CommonRuleView {
    CommonRuleView {
        id: None,
        name: Seq::empty(),
        description: None,
        select: default_selectors(),
        scope: RuleScope::Owned,
        allow_unscoped: false,
    }
}

impl Default for CommonRule {
    fn default() -> (value: Self)
        ensures
            value@ == default_common_rule(),
    {
        let value = CommonRule {
            id: None,
            name: String::new(),
            description: None,
            select: Selectors::default(),
            scope: RuleScope::Owned,
            allow_unscoped: false,
        };
        assert(value@ =~= default_common_rule());
        value
    }
}

impl Clone for CommonRule {
    fn clone(&self) -> (copy: Self)
        ensures
            copy@ == self@,
    {
        CommonRule {
            id: clone_opt_text(&self.id),
            name: self.name.clone(),
            description: clone_opt_text(&self.description),
            select: self.select.clone(),
            scope: self.scope,
            allow_unscoped: self.allow_unscoped,
        }
    }
}

/// A rule over containers. A match is itself the statement of ownership.
#[derive(Debug, PartialEq, Eq)]
pub struct ContainerRule {
    pub common: CommonRule,
    pub stopped_ttl: Option<String>,
    pub running_ttl: Option<String>,
}

/// What a container rule says.
#[verifier::ext_equal]
pub struct ContainerRuleView {
    pub common: CommonRuleView,
    pub stopped_ttl: Option<Seq<char>>,
    pub running_ttl: Option<Seq<char>>,
}

impl View for ContainerRule {
    type V = ContainerRuleView;

    open spec fn view(&self) -> ContainerRuleView {
        ContainerRuleView {
            common: self.common@,
            stopped_ttl: opt_view(self.stopped_ttl),
            running_ttl: opt_view(self.running_ttl),
        }
    }
}

/// The default of `ContainerRule`.
pub open spec fn default_container_rule() -> ContainerRuleView {
    ContainerRuleView {
        common: default_common_rule(),
        stopped_ttl: None,
        running_ttl: None,
    }
}

impl Default for ContainerRule {
    fn default() -> (value: Self)
        ensures
            value@ == default_container_rule(),
    {
        let value = ContainerRule {
            common: CommonRule::default(),
            stopped_ttl: None,
            running_ttl: None,
        };
        assert(value@ =~= default_container_rule());
        value
    }
}

impl Clone for ContainerRule {
    fn clone(&self) -> (copy: Self)
        ensures
            copy@ == self@,
    {
        ContainerRule {
            common: self.common.clone(),
            stopped_ttl: clone_opt_text(&self.stopped_ttl),
            running_ttl: clone_opt_text(&self.running_ttl),
        }
    }
}

/// A rule over images.
#[derive(Debug, PartialEq, Eq)]
pub struct ImageRule {
    pub common: CommonRule,
    pub dangling: bool,
    pub unused_for: Option<String>,
    pub image_tag_patterns: Vec<String>,
}

/// What an image rule says.
#[verifier::ext_equal]
pub struct ImageRuleView {
    pub common: CommonRuleView,
    pub dangling: bool,
    pub unused_for: Option<Seq<char>>,
    pub image_tag_patterns: Seq<Seq<char>>,
}

impl View for ImageRule {
    type V = ImageRuleView;

    open spec fn view(&self) -> ImageRuleView {
        ImageRuleView {
            common: self.common@,
            dangling: self.dangling,
            unused_for: opt_view(self.unused_for),
            image_tag_patterns: views(self.image_tag_patterns@),
        }
    }
}

/// The default of `ImageRule`.
pub open spec fn default_image_rule() -> ImageRuleView {
    ImageRuleView {
        common: default_common_rule(),
        dangling: false,
        unused_for: None,
        image_tag_patterns: Seq::empty(),
    }
}

impl Default for ImageRule {
    fn default() -> (value: Self)
        ensures
            value@ == default_image_rule(),
    {
        let value = ImageRule {
            common: CommonRule::default(),
            dangling: false,
            unused_for: None,
            image_tag_patterns: Vec::new(),
        };
        assert(value@ =~= default_image_rule());
        value
    }
}

impl Clone for ImageRule {
    fn clone(&self) -> (copy: Self)
        ensures
            copy@ == self@,
    {
        ImageRule {
            common: self.common.clone(),
            dangling: self.dangling,
            unused_for: clone_opt_text(&self.unused_for),
            image_tag_patterns: clone_texts(&self.image_tag_patterns),
        }
    }
}

/// A rule over volumes.
#[derive(Debug, PartialEq, Eq)]
pub struct VolumeRule {
    pub common: CommonRule,
    pub orphan_for: Option<String>,
}

/// What a volume rule says.
#[verifier::ext_equal]
pub struct VolumeRuleView {
    pub common: CommonRuleView,
    pub orphan_for: Option<Seq<char>>,
}

impl View for VolumeRule {
    type V = VolumeRuleView;

    open spec fn view(&self) -> VolumeRuleView {
        VolumeRuleView {
            common: self.common@,
            orphan_for: opt_view(self.orphan_for),
        }
    }
}

/// The default of `VolumeRule`.
pub open spec fn default_volume_rule() -> VolumeRuleView {
    VolumeRuleView {
        common: default_common_rule(),
        orphan_for: None,
    }
}

impl Default for VolumeRule {
    fn default() -> (value: Self)
        ensures
            value@ == default_volume_rule(),
    {
        let value = VolumeRule {
            common: CommonRule::default(),
            orphan_for: None,
        };
        assert(value@ =~= default_volume_rule());
        value
    }
}

impl Clone for VolumeRule {
    fn clone(&self) -> (copy: Self)
        ensures
            copy@ == self@,
    {
        VolumeRule {
            common: self.common.clone(),
            orphan_for: clone_opt_text(&self.orphan_for),
        }
    }
}

/// A rule over networks.
#[derive(Debug, PartialEq, Eq)]
pub struct NetworkRule {
    pub common: CommonRule,
    pub orphan: bool,
    pub orphan_for: Option<String>,
}

/// What a network rule says.
#[verifier::ext_equal]
pub struct NetworkRuleView {
    pub common: CommonRuleView,
    pub orphan: bool,
    pub orphan_for: Option<Seq<char>>,
}

impl View for NetworkRule {
    type V = NetworkRuleView;

    open spec fn view(&self) -> NetworkRuleView {
        NetworkRuleView {
            common: self.common@,
            orphan: self.orphan,
            orphan_for: opt_view(self.orphan_for),
        }
    }
}

/// The default of `NetworkRule`.
pub open spec fn default_network_rule() -> NetworkRuleView {
    NetworkRuleView {
        common: default_common_rule(),
        orphan: false,
        orphan_for: None,
    }
}

impl Default for NetworkRule {
    fn default() -> (value: Self)
        ensures
            value@ == default_network_rule(),
    {
        let value = NetworkRule {
            common: CommonRule::default(),
            orphan: false,
            orphan_for: None,
        };
        assert(value@ =~= default_network_rule());
        value
    }
}

impl Clone for NetworkRule {
    fn clone(&self) -> (copy: Self)
        ensures
            copy@ == self@,
    {
        NetworkRule {
            common: self.common.clone(),
            orphan: self.orphan,
            orphan_for: clone_opt_text(&self.orphan_for),
        }
    }
}

/// The rule over the build cache, which has neither labels nor names.
#[derive(Debug, PartialEq, Eq)]
pub struct BuildCacheRule {
    pub id: Option<String>,
    pub older_than: Option<String>,
    pub max_bytes: Option<u64>,
    pub allow_unscoped: bool,
}

/// What the build-cache rule says.
#[verifier::ext_equal]
pub struct BuildCacheRuleView {
    pub id: Option<Seq<char>>,
    pub older_than: Option<Seq<char>>,
    pub max_bytes: Option<u64>,
    pub allow_unscoped: bool,
}

impl View for BuildCacheRule {
    type V = BuildCacheRuleView;

    open spec fn view(&self) -> BuildCacheRuleView {
        BuildCacheRuleView {
            id: opt_view(self.id),
            older_than: opt_view(self.older_than),
            max_bytes: self.max_bytes,
            allow_unscoped: self.allow_unscoped,
        }
    }
}

/// The default of `BuildCacheRule`.
pub open spec fn default_build_cache_rule() -> BuildCacheRuleView {
    BuildCacheRuleView {
        id: None,
        older_than: None,
        max_bytes: None,
        allow_unscoped: false,
    }
}

impl Default for BuildCacheRule {
    fn default() -> (value: Self)
        ensures
            value@ == default_build_cache_rule(),
    {
        let value = BuildCacheRule {
            id: None,
            older_than: None,
            max_bytes: None,
            allow_unscoped: false,
        };
        assert(value@ =~= default_build_cache_rule());
        value
    }
}

impl Clone for BuildCacheRule {
    fn clone(&self) -> (copy: Self)
        ensures
            copy@ == self@,
    {
        BuildCacheRule {
            id: clone_opt_text(&self.id),
            older_than: clone_opt_text(&self.older_than),
            max_bytes: self.max_bytes,
            allow_unscoped: self.allow_unscoped,
        }
    }
}

fn clone_container_rules(rules: &Vec<ContainerRule>) -> (copy: Vec<ContainerRule>)
    ensures
        views(copy@) == views(rules@),
{
    broadcast use group_views;

    let mut copy: Vec<ContainerRule> = Vec::new();
    let mut index: usize = 0;
    assert(views(copy@) =~= views(rules@).take(0));
    while index < rules.len()
        invariant
            index <= rules@.len(),
            views(copy@) == views(rules@).take(index as int),
        decreases rules@.len() - index,
    {
        assert(views(rules@).take(index as int + 1) =~= views(rules@).take(index as int).push(
            rules@[index as int]@,
        ));
        copy.push(rules[index].clone());
        index += 1;
    }
    assert(views(rules@).take(index as int) =~= views(rules@));
    copy
}

fn clone_image_rules(rules: &Vec<ImageRule>) -> (copy: Vec<ImageRule>)
    ensures
        views(copy@) == views(rules@),
{
    broadcast use group_views;

    let mut copy: Vec<ImageRule> = Vec::new();
    let mut index: usize = 0;
    assert(views(copy@) =~= views(rules@).take(0));
    while index < rules.len()
        invariant
            index <= rules@.len(),
            views(copy@) == views(rules@).take(index as int),
        decreases rules@.len() - index,
    {
        assert(views(rules@).take(index as int + 1) =~= views(rules@).take(index as int).push(
            rules@[index as int]@,
        ));
        copy.push(rules[index].clone());
        index += 1;
    }
    assert(views(rules@).take(index as int) =~= views(rules@));
    copy
}

fn clone_volume_rules(rules: &Vec<VolumeRule>) -> (copy: Vec<VolumeRule>)
    ensures
        views(copy@) == views(rules@),
{
    broadcast use group_views;

    let mut copy: Vec<VolumeRule> = Vec::new();
    let mut index: usize = 0;
    assert(views(copy@) =~= views(rules@).take(0));
    while index < rules.len()
        invariant
            index <= rules@.len(),
            views(copy@) == views(rules@).take(index as int),
        decreases rules@.len() - index,
    {
        assert(views(rules@).take(index as int + 1) =~= views(rules@).take(index as int).push(
            rules@[index as int]@,
        ));
        copy.push(rules[index].clone());
        index += 1;
    }
    assert(views(rules@).take(index as int) =~= views(rules@));
    copy
}

fn clone_network_rules(rules: &Vec<NetworkRule>) -> (copy: Vec<NetworkRule>)
    ensures
        views(copy@) == views(rules@),
{
    broadcast use group_views;

    let mut copy: Vec<NetworkRule> = Vec::new();
    let mut index: usize = 0;
    assert(views(copy@) =~= views(rules@).take(0));
    while index < rules.len()
        invariant
            index <= rules@.len(),
            views(copy@) == views(rules@).take(index as int),
        decreases rules@.len() - index,
    {
        assert(views(rules@).take(index as int + 1) =~= views(rules@).take(index as int).push(
            rules@[index as int]@,
        ));
        copy.push(rules[index].clone());
        index += 1;
    }
    assert(views(rules@).take(index as int) =~= views(rules@));
    copy
}

/// Every rule of a configuration.
#[derive(Debug, PartialEq, Eq)]
pub struct Rules {
    pub containers: Vec<ContainerRule>,
    pub images: Vec<ImageRule>,
    pub volumes: Vec<VolumeRule>,
    pub networks: Vec<NetworkRule>,
    pub build_cache: Option<BuildCacheRule>,
}

/// What the rules say.
#[verifier::ext_equal]
pub struct RulesView {
    pub containers: Seq<ContainerRuleView>,
    pub images: Seq<ImageRuleView>,
    pub volumes: Seq<VolumeRuleView>,
    pub networks: Seq<NetworkRuleView>,
    pub build_cache: Option<BuildCacheRuleView>,
}

impl View for Rules {
    type V = RulesView;

    open spec fn view(&self) -> RulesView {
        RulesView {
            containers: views(self.containers@),
            images: views(self.images@),
            volumes: views(self.volumes@),
            networks: views(self.networks@),
            build_cache: opt_view(self.build_cache),
        }
    }
}

/// The default of `Rules`.
pub open spec fn default_rules() -> RulesView {
    RulesView {
        containers: Seq::empty(),
        images: Seq::empty(),
        volumes: Seq::empty(),
        networks: Seq::empty(),
        build_cache: None,
    }
}

impl Default for Rules {
    fn default() -> (value: Self)
        ensures
            value@ == default_rules(),
    {
        let value = Rules {
            containers: Vec::new(),
            images: Vec::new(),
            volumes: Vec::new(),
            networks: Vec::new(),
            build_cache: None,
        };
        assert(value@ =~= default_rules());
        value
    }
}

impl Clone for Rules {
    fn clone(&self) -> (copy: Self)
        ensures
            copy@ == self@,
    {
        Rules {
            containers: clone_container_rules(&self.containers),
            images: clone_image_rules(&self.images),
            volumes: clone_volume_rules(&self.volumes),
            networks: clone_network_rules(&self.networks),
            build_cache: match &self.build_cache {
                Some(inner) => Some(inner.clone()),
                None => None,
            },
        }
    }
}

/// Defaults of the daemon.
#[derive(Debug, PartialEq, Eq)]
pub struct Defaults {
    pub interval: Option<String>,
}

/// What the defaults say.
#[verifier::ext_equal]
pub struct DefaultsView {
    pub interval: Option<Seq<char>>,
}

impl View for Defaults {
    type V = DefaultsView;

    open spec fn view(&self) -> DefaultsView {
        DefaultsView {
            interval: opt_view(self.interval),
        }
    }
}

/// The default of `Defaults`.
pub open spec fn default_defaults() -> DefaultsView {
    DefaultsView {
        interval: None,
    }
}

impl Default for Defaults {
    fn default() -> (value: Self)
        ensures
            value@ == default_defaults(),
    {
        let value = Defaults {
            interval: None,
        };
        assert(value@ =~= default_defaults());
        value
    }
}

impl Clone for Defaults {
    fn clone(&self) -> (copy: Self)
        ensures
            copy@ == self@,
    {
        Defaults {
            interval: clone_opt_text(&self.interval),
        }
    }
}

/// What the configuration protects.
#[derive(Debug, PartialEq, Eq)]
pub struct Protection {
    pub names: Vec<String>,
    pub labels: Vec<String>,
}

/// What the protection says.
#[verifier::ext_equal]
pub struct ProtectionView {
    pub names: Seq<Seq<char>>,
    pub labels: Seq<Seq<char>>,
}

impl View for Protection {
    type V = ProtectionView;

    open spec fn view(&self) -> ProtectionView {
        ProtectionView {
            names: views(self.names@),
            labels: views(self.labels@),
        }
    }
}

/// The default of `Protection`.
pub open spec fn default_protection() -> ProtectionView {
    ProtectionView {
        names: Seq::empty(),
        labels: Seq::empty(),
    }
}

impl Default for Protection {
    fn default() -> (value: Self)
        ensures
            value@ == default_protection(),
    {
        let value = Protection {
            names: Vec::new(),
            labels: Vec::new(),
        };
        assert(value@ =~= default_protection());
        value
    }
}

impl Clone for Protection {
    fn clone(&self) -> (copy: Self)
        ensures
            copy@ == self@,
    {
        Protection {
            names: clone_texts(&self.names),
            labels: clone_texts(&self.labels),
        }
    }
}

/// Settings of the terminal interface.
#[derive(Debug, PartialEq, Eq)]
pub struct Tui {
    pub refresh: Option<String>,
}

/// What the interface settings say.
#[verifier::ext_equal]
pub struct TuiView {
    pub refresh: Option<Seq<char>>,
}

impl View for Tui {
    type V = TuiView;

    open spec fn view(&self) -> TuiView {
        TuiView {
            refresh: opt_view(self.refresh),
        }
    }
}

/// The default of `Tui`.
pub open spec fn default_tui() -> TuiView {
    TuiView {
        refresh: None,
    }
}

impl Default for Tui {
    fn default() -> (value: Self)
        ensures
            value@ == default_tui(),
    {
        let value = Tui {
            refresh: None,
        };
        assert(value@ =~= default_tui());
        value
    }
}

impl Clone for Tui {
    fn clone(&self) -> (copy: Self)
        ensures
            copy@ == self@,
    {
        Tui {
            refresh: clone_opt_text(&self.refresh),
        }
    }
}

/// A configuration.
#[derive(Debug, PartialEq, Eq)]
pub struct Config {
    pub defaults: Defaults,
    pub protect: Protection,
    pub rules: Rules,
    pub tui: Tui,
}

/// What a configuration says.
#[verifier::ext_equal]
pub struct ConfigView {
    pub defaults: DefaultsView,
    pub protect: ProtectionView,
    pub rules: RulesView,
    pub tui: TuiView,
}

impl View for Config {
    type V = ConfigView;

    open spec fn view(&self) -> ConfigView {
        ConfigView {
            defaults: self.defaults@,
            protect: self.protect@,
            rules: self.rules@,
            tui: self.tui@,
        }
    }
}

/// The default of `Config`.
pub open spec fn default_config() -> ConfigView {
    ConfigView {
        defaults: default_defaults(),
        protect: default_protection(),
        rules: default_rules(),
        tui: default_tui(),
    }
}

impl Default for Config {
    fn default() -> (value: Self)
        ensures
            value@ == default_config(),
    {
        let value = Config {
            defaults: Defaults::default(),
            protect: Protection::default(),
            rules: Rules::default(),
            tui: Tui::default(),
        };
        assert(value@ =~= default_config());
        value
    }
}

impl Clone for Config {
    fn clone(&self) -> (copy: Self)
        ensures
            copy@ == self@,
    {
        Config {
            defaults: self.defaults.clone(),
            protect: self.protect.clone(),
            rules: self.rules.clone(),
            tui: self.tui.clone(),
        }
    }
}

/// Whether selectors select nothing.
pub open spec fn selects_nothing(select: SelectorsView) -> bool {
    select.labels.len() == 0 && select.names.len() == 0 && select.name_parts.len() == 0
}

/// Whether some selector is blank.
pub open spec fn selects_blank(select: SelectorsView) -> bool {
    has_blank(select.labels) || has_blank(select.names) || has_blank(select.name_parts)
}

impl Selectors {
    /// Whether there is no selector.
    pub fn is_empty(&self) -> (empty: bool)
        ensures
            empty == selects_nothing(self@),
    {
        broadcast use group_views;

        self.labels.len() == 0 && self.names.len() == 0 && self.name_parts.len() == 0
    }

    /// Whether some selector is blank.
    pub fn has_blank(&self) -> (found: bool)
        ensures
            found == selects_blank(self@),
    {
        any_blank(&self.labels) || any_blank(&self.names) || any_blank(&self.name_parts)
    }
}

impl Defaults {
    /// Whether nothing is set.
    pub fn is_empty(&self) -> (empty: bool)
        ensures
            empty == (self@ == default_defaults()),
    {
        self.interval.is_none()
    }
}

impl Protection {
    /// Whether nothing is protected.
    pub fn is_empty(&self) -> (empty: bool)
        ensures
            empty == (self@ == default_protection()),
    {
        broadcast use group_views;

        let empty = self.names.len() == 0 && self.labels.len() == 0;
        assert(self@.names.len() == self.names@.len());
        assert(self@.labels.len() == self.labels@.len());
        if empty {
            assert(self@ =~= default_protection());
        }
        empty
    }
}

impl Tui {
    /// Whether nothing is set.
    pub fn is_empty(&self) -> (empty: bool)
        ensures
            empty == (self@ == default_tui()),
    {
        self.refresh.is_none()
    }
}

impl Rules {
    /// Whether there is no rule.
    pub fn is_empty(&self) -> (empty: bool)
        ensures
            empty == (self@ == default_rules()),
    {
        broadcast use group_views;

        let empty = self.containers.len() == 0 && self.images.len() == 0 && self.volumes.len() == 0
            && self.networks.len() == 0 && self.build_cache.is_none();
        assert(self@.containers.len() == self.containers@.len());
        assert(self@.images.len() == self.images@.len());
        assert(self@.volumes.len() == self.volumes@.len());
        assert(self@.networks.len() == self.networks@.len());
        if empty {
            assert(self@ =~= default_rules());
        }
        empty
    }
}

/// `field[index]` followed by `words`.
pub open spec fn at_index(field: Seq<char>, index: int, words: Seq<char>) -> Seq<char> {
    field + "["@ + decimal(index as nat) + words
}

/// What is wrong with one pattern that must be a regular expression.
pub open spec fn regex_complaint(field: Seq<char>, index: int, value: Seq<char>) -> Option<
    Seq<char>,
> {
    if is_blank(value) {
        Some(at_index(field, index, "] must not be blank"@))
    } else if regex_fault(value) is Some {
        Some(at_index(field, index, "] is not a valid regex: "@) + regex_fault(value).unwrap())
    } else {
        None
    }
}

/// What is wrong with one pattern that must be a glob.
pub open spec fn glob_complaint(field: Seq<char>, index: int, value: Seq<char>) -> Option<
    Seq<char>,
> {
    if is_blank(value) {
        Some(at_index(field, index, "] must not be blank"@))
    } else if glob_fault(value) is Some {
        Some(at_index(field, index, "] is not a valid glob: "@) + glob_fault(value).unwrap())
    } else {
        None
    }
}

/// A complaint as a list of at most one.
pub open spec fn listed(complaint: Option<Seq<char>>) -> Seq<Seq<char>> {
    match complaint {
        Some(words) => seq![words],
        None => Seq::empty(),
    }
}

/// What is wrong with patterns that must be regular expressions.
pub open spec fn regex_complaints(field: Seq<char>, values: Seq<Seq<char>>) -> Seq<Seq<char>>
    decreases values.len(),
{
    if values.len() == 0 {
        Seq::empty()
    } else {
        regex_complaints(field, values.drop_last()) + listed(
            regex_complaint(field, values.len() - 1, values.last()),
        )
    }
}

/// What is wrong with patterns that must be globs.
pub open spec fn glob_complaints(field: Seq<char>, values: Seq<Seq<char>>) -> Seq<Seq<char>>
    decreases values.len(),
{
    if values.len() == 0 {
        Seq::empty()
    } else {
        glob_complaints(field, values.drop_last()) + listed(
            glob_complaint(field, values.len() - 1, values.last()),
        )
    }
}

/// What is wrong with an optional duration.
pub open spec fn duration_complaint(field: Seq<char>, value: Option<Seq<char>>) -> Option<Seq<char>> {
    match value {
        None => None,
        Some(text) => match duration_of(text) {
            Ok(span) => if span.0 == 0 && span.1 == 0 {
                Some(field + " must be greater than zero"@)
            } else {
                None
            },
            Err(message) => Some(field + " is not a valid duration: "@ + message),
        },
    }
}

/// What is wrong with the common part of a rule.
pub open spec fn common_complaints(field: Seq<char>, rule: CommonRuleView) -> Seq<Seq<char>> {
    listed(
        if is_blank(rule.name) {
            Some(field + ".name must not be blank"@)
        } else {
            None
        },
    ) + listed(
        if selects_nothing(rule.select) {
            Some(field + ".select must contain at least one selector"@)
        } else if selects_blank(rule.select) {
            Some(field + ".select must not contain blank selectors"@)
        } else {
            None
        },
    ) + regex_complaints(field + ".select.names"@, rule.select.names) + glob_complaints(
        field + ".select.labels"@,
        rule.select.labels,
    ) + listed(
        if rule.scope == RuleScope::All && !rule.allow_unscoped {
            Some(field + ".allow_unscoped must be true when scope = \"all\""@)
        } else if rule.scope == RuleScope::Owned && rule.allow_unscoped {
            Some(field + ".scope must be \"all\" when allow_unscoped = true"@)
        } else {
            None
        },
    )
}

/// What is wrong with the id of a rule, given the ids of the rules before it.
pub open spec fn id_complaint(
    field: Seq<char>,
    id: Option<Seq<char>>,
    earlier: Seq<Seq<char>>,
) -> Option<Seq<char>> {
    match id {
        None => None,
        Some(text) => if is_blank(text) {
            Some(field + ".id must not be blank"@)
        } else if earlier.contains(text) {
            Some(field + ".id duplicates rule id "@ + quoted(text))
        } else {
            None
        },
    }
}

/// An id as a list, where it is one.
pub open spec fn listed_id(id: Option<Seq<char>>) -> Seq<Seq<char>> {
    match id {
        Some(text) => if is_blank(text) {
            Seq::empty()
        } else {
            seq![text]
        },
        None => Seq::empty(),
    }
}

/// The ids of rules, in their order.
pub open spec fn ids_of(rules: Seq<CommonRuleView>) -> Seq<Seq<char>>
    decreases rules.len(),
{
    if rules.len() == 0 {
        Seq::empty()
    } else {
        ids_of(rules.drop_last()) + listed_id(rules.last().id)
    }
}

/// The common parts of container rules.
pub open spec fn container_commons(rules: Seq<ContainerRuleView>) -> Seq<CommonRuleView> {
    rules.map_values(|rule: ContainerRuleView| rule.common)
}

/// The common parts of image rules.
pub open spec fn image_commons(rules: Seq<ImageRuleView>) -> Seq<CommonRuleView> {
    rules.map_values(|rule: ImageRuleView| rule.common)
}

/// The common parts of volume rules.
pub open spec fn volume_commons(rules: Seq<VolumeRuleView>) -> Seq<CommonRuleView> {
    rules.map_values(|rule: VolumeRuleView| rule.common)
}

/// The common parts of network rules.
pub open spec fn network_commons(rules: Seq<NetworkRuleView>) -> Seq<CommonRuleView> {
    rules.map_values(|rule: NetworkRuleView| rule.common)
}

/// `kind[index]`, the field of a rule.
pub open spec fn rule_field(kind: Seq<char>, index: int) -> Seq<char> {
    kind + "["@ + decimal(index as nat) + "]"@
}

/// What is wrong with one container rule.
pub open spec fn container_complaints(
    index: int,
    rule: ContainerRuleView,
    earlier: Seq<Seq<char>>,
) -> Seq<Seq<char>> {
    let field = rule_field("rules.containers"@, index);
    common_complaints(field, rule.common) + listed(id_complaint(field, rule.common.id, earlier))
        + listed(duration_complaint(field + ".stopped_ttl"@, rule.stopped_ttl))
        + listed(duration_complaint(field + ".running_ttl"@, rule.running_ttl))
}

/// What is wrong with the container rules, given the ids of the rules before them.
pub open spec fn containers_complaints(rules: Seq<ContainerRuleView>, earlier: Seq<Seq<char>>) -> Seq<
    Seq<char>,
>
    decreases rules.len(),
{
    if rules.len() == 0 {
        Seq::empty()
    } else {
        containers_complaints(rules.drop_last(), earlier) + container_complaints(
            rules.len() - 1,
            rules.last(),
            earlier + ids_of(container_commons(rules.drop_last())),
        )
    }
}

/// What is wrong with one image rule.
pub open spec fn image_complaints(
    index: int,
    rule: ImageRuleView,
    earlier: Seq<Seq<char>>,
) -> Seq<Seq<char>> {
    let field = rule_field("rules.images"@, index);
    common_complaints(field, rule.common) + listed(id_complaint(field, rule.common.id, earlier))
        + glob_complaints(field + ".image_tag_patterns"@, rule.image_tag_patterns)
        + listed(duration_complaint(field + ".unused_for"@, rule.unused_for))
}

/// What is wrong with the image rules, given the ids of the rules before them.
pub open spec fn images_complaints(rules: Seq<ImageRuleView>, earlier: Seq<Seq<char>>) -> Seq<
    Seq<char>,
>
    decreases rules.len(),
{
    if rules.len() == 0 {
        Seq::empty()
    } else {
        images_complaints(rules.drop_last(), earlier) + image_complaints(
            rules.len() - 1,
            rules.last(),
            earlier + ids_of(image_commons(rules.drop_last())),
        )
    }
}

/// What is wrong with one volume rule.
pub open spec fn volume_complaints(
    index: int,
    rule: VolumeRuleView,
    earlier: Seq<Seq<char>>,
) -> Seq<Seq<char>> {
    let field = rule_field("rules.volumes"@, index);
    common_complaints(field, rule.common) + listed(id_complaint(field, rule.common.id, earlier))
        + listed(duration_complaint(field + ".orphan_for"@, rule.orphan_for))
}

/// What is wrong with the volume rules, given the ids of the rules before them.
pub open spec fn volumes_complaints(rules: Seq<VolumeRuleView>, earlier: Seq<Seq<char>>) -> Seq<
    Seq<char>,
>
    decreases rules.len(),
{
    if rules.len() == 0 {
        Seq::empty()
    } else {
        volumes_complaints(rules.drop_last(), earlier) + volume_complaints(
            rules.len() - 1,
            rules.last(),
            earlier + ids_of(volume_commons(rules.drop_last())),
        )
    }
}

/// What is wrong with one network rule.
pub open spec fn network_complaints(
    index: int,
    rule: NetworkRuleView,
    earlier: Seq<Seq<char>>,
) -> Seq<Seq<char>> {
    let field = rule_field("rules.networks"@, index);
    common_complaints(field, rule.common) + listed(id_complaint(field, rule.common.id, earlier))
        + listed(duration_complaint(field + ".orphan_for"@, rule.orphan_for))
}

/// What is wrong with the network rules, given the ids of the rules before them.
pub open spec fn networks_complaints(rules: Seq<NetworkRuleView>, earlier: Seq<Seq<char>>) -> Seq<
    Seq<char>,
>
    decreases rules.len(),
{
    if rules.len() == 0 {
        Seq::empty()
    } else {
        networks_complaints(rules.drop_last(), earlier) + network_complaints(
            rules.len() - 1,
            rules.last(),
            earlier + ids_of(network_commons(rules.drop_last())),
        )
    }
}

/// What is wrong with the build-cache rule, given the ids of the other rules.
pub open spec fn cache_complaints(rule: Option<BuildCacheRuleView>, earlier: Seq<Seq<char>>) -> Seq<
    Seq<char>,
> {
    match rule {
        None => Seq::empty(),
        Some(cache) => listed(id_complaint("rules.build_cache"@, cache.id, earlier)) + listed(
            if !cache.allow_unscoped {
                Some(
                    "rules.build_cache.allow_unscoped must be true because Docker build-cache records have no ownership metadata"@,
                )
            } else {
                None
            },
        ) + listed(duration_complaint("rules.build_cache.older_than"@, cache.older_than)) + listed(
            if cache.older_than is None && cache.max_bytes is None {
                Some("rules.build_cache must set older_than, max_bytes, or both"@)
            } else {
                None
            },
        ),
    }
}

/// Everything that is wrong with a configuration, in the order of its parts.
pub open spec fn complaints(config: ConfigView) -> Seq<Seq<char>> {
    let containers = ids_of(container_commons(config.rules.containers));
    let images = containers + ids_of(image_commons(config.rules.images));
    let volumes = images + ids_of(volume_commons(config.rules.volumes));
    let networks = volumes + ids_of(network_commons(config.rules.networks));
    regex_complaints("protect.names"@, config.protect.names) + glob_complaints(
        "protect.labels"@,
        config.protect.labels,
    ) + listed(duration_complaint("defaults.interval"@, config.defaults.interval)) + listed(
        duration_complaint("tui.refresh"@, config.tui.refresh),
    ) + containers_complaints(config.rules.containers, Seq::empty()) + images_complaints(
        config.rules.images,
        containers,
    ) + volumes_complaints(config.rules.volumes, images) + networks_complaints(
        config.rules.networks,
        volumes,
    ) + cache_complaints(config.rules.build_cache, networks)
}

proof fn lemma_views_add(items: Seq<String>, item: String)
    ensures
        views(items.push(item)) == views(items) + seq![item@],
{
    assert(views(items.push(item)) =~= views(items) + seq![item@]);
}

fn complain(errors: &mut Vec<String>, words: String)
    ensures
        views(final(errors)@) == views(old(errors)@) + seq![words@],
{
    proof {
        lemma_views_add(errors@, words);
    }
    errors.push(words);
}

fn complain_if(errors: &mut Vec<String>, condition: bool, words: String)
    ensures
        views(final(errors)@) == views(old(errors)@) + listed(
            if condition {
                Some(words@)
            } else {
                None
            },
        ),
{
    if condition {
        complain(errors, words);
    } else {
        assert(views(errors@) =~= views(errors@) + Seq::<Seq<char>>::empty());
    }
}

fn index_words(field: &str, index: usize, words: &str) -> (text: String)
    ensures
        text@ == at_index(field@, index as int, words@),
{
    concat4(field, "[", count_text(index).as_str(), words)
}

fn validate_regexes(field: &str, values: &Vec<String>, errors: &mut Vec<String>)
    ensures
        views(final(errors)@) == views(old(errors)@) + regex_complaints(field@, views(values@)),
{
    broadcast use group_views;

    let ghost all = views(values@);
    let ghost start = views(errors@);
    let mut index: usize = 0;
    assert(start + regex_complaints(field@, all.take(0)) =~= start);
    while index < values.len()
        invariant
            index <= values@.len(),
            all == views(values@),
            views(errors@) == start + regex_complaints(field@, all.take(index as int)),
        decreases values@.len() - index,
    {
        let value = values[index].as_str();
        let ghost before = views(errors@);
        if blank(value) {
            complain(errors, index_words(field, index, "] must not be blank"));
        } else {
            match regex_error(value) {
                Some(message) => {
                    let mut words = index_words(field, index, "] is not a valid regex: ");
                    words.append(message.as_str());
                    complain(errors, words);
                },
                None => {},
            }
        }
        proof {
            assert(all.take(index as int + 1).drop_last() =~= all.take(index as int));
            assert(all.take(index as int + 1).last() == value@);
            assert(views(errors@) =~= before + listed(
                regex_complaint(field@, index as int, value@),
            ));
            assert(views(errors@) =~= start + regex_complaints(
                field@,
                all.take(index as int + 1),
            ));
        }
        index += 1;
    }
    assert(all.take(index as int) =~= all);
}

fn validate_globs(field: &str, values: &Vec<String>, errors: &mut Vec<String>)
    ensures
        views(final(errors)@) == views(old(errors)@) + glob_complaints(field@, views(values@)),
{
    broadcast use group_views;

    let ghost all = views(values@);
    let ghost start = views(errors@);
    let mut index: usize = 0;
    assert(start + glob_complaints(field@, all.take(0)) =~= start);
    while index < values.len()
        invariant
            index <= values@.len(),
            all == views(values@),
            views(errors@) == start + glob_complaints(field@, all.take(index as int)),
        decreases values@.len() - index,
    {
        let value = values[index].as_str();
        let ghost before = views(errors@);
        if blank(value) {
            complain(errors, index_words(field, index, "] must not be blank"));
        } else {
            match glob_error(value) {
                Some(message) => {
                    let mut words = index_words(field, index, "] is not a valid glob: ");
                    words.append(message.as_str());
                    complain(errors, words);
                },
                None => {},
            }
        }
        proof {
            assert(all.take(index as int + 1).drop_last() =~= all.take(index as int));
            assert(all.take(index as int + 1).last() == value@);
            assert(views(errors@) =~= before + listed(
                glob_complaint(field@, index as int, value@),
            ));
            assert(views(errors@) =~= start + glob_complaints(
                field@,
                all.take(index as int + 1),
            ));
        }
        index += 1;
    }
    assert(all.take(index as int) =~= all);
}

fn validate_duration(field: &str, value: &Option<String>, errors: &mut Vec<String>)
    ensures
        views(final(errors)@) == views(old(errors)@) + listed(
            duration_complaint(field@, opt_view(*value)),
        ),
{
    match value {
        Some(text) => match read_duration(text.as_str()) {
            Ok((seconds, nanos)) => {
                complain_if(
                    errors,
                    seconds == 0 && nanos == 0,
                    concat2(field, " must be greater than zero"),
                );
            },
            Err(message) => {
                complain(errors, concat3(field, " is not a valid duration: ", message.as_str()));
            },
        },
        None => {
            assert(views(errors@) =~= views(errors@) + Seq::<Seq<char>>::empty());
        },
    }
}

/// Checks the common part of a rule, adding what is wrong with it to `errors`.
pub fn validate_common_rule(field: &str, rule: &CommonRule, errors: &mut Vec<String>)
    ensures
        views(final(errors)@) == views(old(errors)@) + common_complaints(field@, rule@),
{
    let ghost start = views(errors@);
    complain_if(errors, blank(rule.name.as_str()), concat2(field, ".name must not be blank"));
    let ghost a = listed(
        if is_blank(rule@.name) {
            Some(field@ + ".name must not be blank"@)
        } else {
            None
        },
    );
    if rule.select.is_empty() {
        complain(errors, concat2(field, ".select must contain at least one selector"));
    } else {
        complain_if(
            errors,
            rule.select.has_blank(),
            concat2(field, ".select must not contain blank selectors"),
        );
    }
    let ghost b = listed(
        if selects_nothing(rule@.select) {
            Some(field@ + ".select must contain at least one selector"@)
        } else if selects_blank(rule@.select) {
            Some(field@ + ".select must not contain blank selectors"@)
        } else {
            None
        },
    );
    assert(views(errors@) =~= start + (a + b));
    validate_regexes(concat2(field, ".select.names").as_str(), &rule.select.names, errors);
    validate_globs(concat2(field, ".select.labels").as_str(), &rule.select.labels, errors);
    let ghost c = regex_complaints(field@ + ".select.names"@, rule@.select.names);
    let ghost d = glob_complaints(field@ + ".select.labels"@, rule@.select.labels);
    assert(views(errors@) =~= start + (a + b + c + d));
    match (rule.scope, rule.allow_unscoped) {
        (RuleScope::All, false) => complain(
            errors,
            concat2(field, ".allow_unscoped must be true when scope = \"all\""),
        ),
        (RuleScope::Owned, true) => complain(
            errors,
            concat2(field, ".scope must be \"all\" when allow_unscoped = true"),
        ),
        _ => {
            assert(views(errors@) =~= views(errors@) + Seq::<Seq<char>>::empty());
        },
    }
    assert(views(errors@) =~= start + common_complaints(field@, rule@));
}

/// Checks the id of a rule against the ids before it, and adds it to them.
pub fn validate_rule_id(
    field: &str,
    id: &Option<String>,
    ids: &mut Vec<String>,
    errors: &mut Vec<String>,
)
    ensures
        views(final(errors)@) == views(old(errors)@) + listed(
            id_complaint(field@, opt_view(*id), views(old(ids)@)),
        ),
        views(final(ids)@) == views(old(ids)@) + listed_id(opt_view(*id)),
{
    let ghost start = views(ids@);
    match id {
        Some(text) => {
            if blank(text.as_str()) {
                complain(errors, concat2(field, ".id must not be blank"));
                assert(views(ids@) =~= start + listed_id(opt_view(*id)));
            } else {
                let repeated = contains_item(ids, text.as_str());
                complain_if(
                    errors,
                    repeated,
                    concat3(field, ".id duplicates rule id ", quote(text.as_str()).as_str()),
                );
                complain(ids, text.clone());
            }
        },
        None => {
            assert(views(errors@) =~= views(errors@) + Seq::<Seq<char>>::empty());
            assert(views(ids@) =~= views(ids@) + Seq::<Seq<char>>::empty());
        },
    }
}

/// Checks the build-cache rule.
pub fn validate_build_cache(
    build_cache: &Option<BuildCacheRule>,
    rule_ids: &mut Vec<String>,
    errors: &mut Vec<String>,
)
    ensures
        views(final(errors)@) == views(old(errors)@) + cache_complaints(
            opt_view(*build_cache),
            views(old(rule_ids)@),
        ),
{
    let ghost start = views(errors@);
    match build_cache {
        Some(cache) => {
            validate_rule_id("rules.build_cache", &cache.id, rule_ids, errors);
            complain_if(
                errors,
                !cache.allow_unscoped,
                "rules.build_cache.allow_unscoped must be true because Docker build-cache records have no ownership metadata".to_owned(),
            );
            validate_duration("rules.build_cache.older_than", &cache.older_than, errors);
            complain_if(
                errors,
                cache.older_than.is_none() && cache.max_bytes.is_none(),
                "rules.build_cache must set older_than, max_bytes, or both".to_owned(),
            );
            assert(views(errors@) =~= start + cache_complaints(
                opt_view(*build_cache),
                views(old(rule_ids)@),
            ));
        },
        None => {
            assert(views(errors@) =~= start + Seq::<Seq<char>>::empty());
        },
    }
}

fn validate_container(index: usize, rule: &ContainerRule, ids: &mut Vec<String>, errors: &mut Vec<String>)
    ensures
        views(final(errors)@) == views(old(errors)@) + container_complaints(
            index as int,
            rule@,
            views(old(ids)@),
        ),
        views(final(ids)@) == views(old(ids)@) + listed_id(rule@.common.id),
{
    let ghost start = views(errors@);
    let ghost earlier = views(ids@);
    let field = concat4("rules.containers", "[", count_text(index).as_str(), "]");
    validate_common_rule(field.as_str(), &rule.common, errors);
    validate_rule_id(field.as_str(), &rule.common.id, ids, errors);
    validate_duration(concat2(field.as_str(), ".stopped_ttl").as_str(), &rule.stopped_ttl, errors);
    validate_duration(concat2(field.as_str(), ".running_ttl").as_str(), &rule.running_ttl, errors);
    assert(views(errors@) =~= start + container_complaints(index as int, rule@, earlier));
}

fn validate_containers(rules: &Vec<ContainerRule>, ids: &mut Vec<String>, errors: &mut Vec<String>)
    ensures
        views(final(errors)@) == views(old(errors)@) + containers_complaints(
            views(rules@),
            views(old(ids)@),
        ),
        views(final(ids)@) == views(old(ids)@) + ids_of(container_commons(views(rules@))),
{
    broadcast use group_views;

    let ghost all = views(rules@);
    let ghost start = views(errors@);
    let ghost earlier = views(ids@);
    let mut index: usize = 0;
    assert(start + containers_complaints(all.take(0), earlier) =~= start);
    assert(earlier + ids_of(container_commons(all.take(0))) =~= earlier);
    while index < rules.len()
        invariant
            index <= rules@.len(),
            all == views(rules@),
            views(errors@) == start + containers_complaints(all.take(index as int), earlier),
            views(ids@) == earlier + ids_of(container_commons(all.take(index as int))),
        decreases rules@.len() - index,
    {
        let ghost before = views(errors@);
        let ghost known = views(ids@);
        validate_container(index, &rules[index], ids, errors);
        proof {
            let next = all.take(index as int + 1);
            assert(next.drop_last() =~= all.take(index as int));
            assert(next.last() == rules@[index as int]@);
            assert(container_commons(next).drop_last() =~= container_commons(all.take(index as int)));
            assert(views(errors@) =~= start + containers_complaints(next, earlier));
            assert(views(ids@) =~= earlier + ids_of(container_commons(next)));
        }
        index += 1;
    }
    assert(all.take(index as int) =~= all);
}

fn validate_image(index: usize, rule: &ImageRule, ids: &mut Vec<String>, errors: &mut Vec<String>)
    ensures
        views(final(errors)@) == views(old(errors)@) + image_complaints(
            index as int,
            rule@,
            views(old(ids)@),
        ),
        views(final(ids)@) == views(old(ids)@) + listed_id(rule@.common.id),
{
    let ghost start = views(errors@);
    let ghost earlier = views(ids@);
    let field = concat4("rules.images", "[", count_text(index).as_str(), "]");
    validate_common_rule(field.as_str(), &rule.common, errors);
    validate_rule_id(field.as_str(), &rule.common.id, ids, errors);
    validate_globs(concat2(field.as_str(), ".image_tag_patterns").as_str(), &rule.image_tag_patterns, errors);
    validate_duration(concat2(field.as_str(), ".unused_for").as_str(), &rule.unused_for, errors);
    assert(views(errors@) =~= start + image_complaints(index as int, rule@, earlier));
}

fn validate_images(rules: &Vec<ImageRule>, ids: &mut Vec<String>, errors: &mut Vec<String>)
    ensures
        views(final(errors)@) == views(old(errors)@) + images_complaints(
            views(rules@),
            views(old(ids)@),
        ),
        views(final(ids)@) == views(old(ids)@) + ids_of(image_commons(views(rules@))),
{
    broadcast use group_views;

    let ghost all = views(rules@);
    let ghost start = views(errors@);
    let ghost earlier = views(ids@);
    let mut index: usize = 0;
    assert(start + images_complaints(all.take(0), earlier) =~= start);
    assert(earlier + ids_of(image_commons(all.take(0))) =~= earlier);
    while index < rules.len()
        invariant
            index <= rules@.len(),
            all == views(rules@),
            views(errors@) == start + images_complaints(all.take(index as int), earlier),
            views(ids@) == earlier + ids_of(image_commons(all.take(index as int))),
        decreases rules@.len() - index,
    {
        let ghost before = views(errors@);
        let ghost known = views(ids@);
        validate_image(index, &rules[index], ids, errors);
        proof {
            let next = all.take(index as int + 1);
            assert(next.drop_last() =~= all.take(index as int));
            assert(next.last() == rules@[index as int]@);
            assert(image_commons(next).drop_last() =~= image_commons(all.take(index as int)));
            assert(views(errors@) =~= start + images_complaints(next, earlier));
            assert(views(ids@) =~= earlier + ids_of(image_commons(next)));
        }
        index += 1;
    }
    assert(all.take(index as int) =~= all);
}

fn validate_volume(index: usize, rule: &VolumeRule, ids: &mut Vec<String>, errors: &mut Vec<String>)
    ensures
        views(final(errors)@) == views(old(errors)@) + volume_complaints(
            index as int,
            rule@,
            views(old(ids)@),
        ),
        views(final(ids)@) == views(old(ids)@) + listed_id(rule@.common.id),
{
    let ghost start = views(errors@);
    let ghost earlier = views(ids@);
    let field = concat4("rules.volumes", "[", count_text(index).as_str(), "]");
    validate_common_rule(field.as_str(), &rule.common, errors);
    validate_rule_id(field.as_str(), &rule.common.id, ids, errors);
    validate_duration(concat2(field.as_str(), ".orphan_for").as_str(), &rule.orphan_for, errors);
    assert(views(errors@) =~= start + volume_complaints(index as int, rule@, earlier));
}

fn validate_volumes(rules: &Vec<VolumeRule>, ids: &mut Vec<String>, errors: &mut Vec<String>)
    ensures
        views(final(errors)@) == views(old(errors)@) + volumes_complaints(
            views(rules@),
            views(old(ids)@),
        ),
        views(final(ids)@) == views(old(ids)@) + ids_of(volume_commons(views(rules@))),
{
    broadcast use group_views;

    let ghost all = views(rules@);
    let ghost start = views(errors@);
    let ghost earlier = views(ids@);
    let mut index: usize = 0;
    assert(start + volumes_complaints(all.take(0), earlier) =~= start);
    assert(earlier + ids_of(volume_commons(all.take(0))) =~= earlier);
    while index < rules.len()
        invariant
            index <= rules@.len(),
            all == views(rules@),
            views(errors@) == start + volumes_complaints(all.take(index as int), earlier),
            views(ids@) == earlier + ids_of(volume_commons(all.take(index as int))),
        decreases rules@.len() - index,
    {
        let ghost before = views(errors@);
        let ghost known = views(ids@);
        validate_volume(index, &rules[index], ids, errors);
        proof {
            let next = all.take(index as int + 1);
            assert(next.drop_last() =~= all.take(index as int));
            assert(next.last() == rules@[index as int]@);
            assert(volume_commons(next).drop_last() =~= volume_commons(all.take(index as int)));
            assert(views(errors@) =~= start + volumes_complaints(next, earlier));
            assert(views(ids@) =~= earlier + ids_of(volume_commons(next)));
        }
        index += 1;
    }
    assert(all.take(index as int) =~= all);
}

fn validate_network(index: usize, rule: &NetworkRule, ids: &mut Vec<String>, errors: &mut Vec<String>)
    ensures
        views(final(errors)@) == views(old(errors)@) + network_complaints(
            index as int,
            rule@,
            views(old(ids)@),
        ),
        views(final(ids)@) == views(old(ids)@) + listed_id(rule@.common.id),
{
    let ghost start = views(errors@);
    let ghost earlier = views(ids@);
    let field = concat4("rules.networks", "[", count_text(index).as_str(), "]");
    validate_common_rule(field.as_str(), &rule.common, errors);
    validate_rule_id(field.as_str(), &rule.common.id, ids, errors);
    validate_duration(concat2(field.as_str(), ".orphan_for").as_str(), &rule.orphan_for, errors);
    assert(views(errors@) =~= start + network_complaints(index as int, rule@, earlier));
}

fn validate_networks(rules: &Vec<NetworkRule>, ids: &mut Vec<String>, errors: &mut Vec<String>)
    ensures
        views(final(errors)@) == views(old(errors)@) + networks_complaints(
            views(rules@),
            views(old(ids)@),
        ),
        views(final(ids)@) == views(old(ids)@) + ids_of(network_commons(views(rules@))),
{
    broadcast use group_views;

    let ghost all = views(rules@);
    let ghost start = views(errors@);
    let ghost earlier = views(ids@);
    let mut index: usize = 0;
    assert(start + networks_complaints(all.take(0), earlier) =~= start);
    assert(earlier + ids_of(network_commons(all.take(0))) =~= earlier);
    while index < rules.len()
        invariant
            index <= rules@.len(),
            all == views(rules@),
            views(errors@) == start + networks_complaints(all.take(index as int), earlier),
            views(ids@) == earlier + ids_of(network_commons(all.take(index as int))),
        decreases rules@.len() - index,
    {
        let ghost before = views(errors@);
        let ghost known = views(ids@);
        validate_network(index, &rules[index], ids, errors);
        proof {
            let next = all.take(index as int + 1);
            assert(next.drop_last() =~= all.take(index as int));
            assert(next.last() == rules@[index as int]@);
            assert(network_commons(next).drop_last() =~= network_commons(all.take(index as int)));
            assert(views(errors@) =~= start + networks_complaints(next, earlier));
            assert(views(ids@) =~= earlier + ids_of(network_commons(next)));
        }
        index += 1;
    }
    assert(all.take(index as int) =~= all);
}

impl Config {
    /// Checks every part of the configuration and names everything that is
    /// wrong with it.
    pub fn validate(&self) -> (outcome: Result<(), ConfigError>)
        ensures
            match outcome {
                Ok(_) => complaints(self@).len() == 0,
                Err(ConfigError::Validation(errors)) => {
                    &&& complaints(self@).len() > 0
                    &&& views(errors@) == complaints(self@)
                },
                Err(_) => false,
            },
    {
        broadcast use group_views;

        let mut errors: Vec<String> = Vec::new();
        let mut rule_ids: Vec<String> = Vec::new();
        assert(views(errors@) =~= Seq::<Seq<char>>::empty());
        assert(views(rule_ids@) =~= Seq::<Seq<char>>::empty());
        validate_regexes("protect.names", &self.protect.names, &mut errors);
        validate_globs("protect.labels", &self.protect.labels, &mut errors);
        validate_duration("defaults.interval", &self.defaults.interval, &mut errors);
        validate_duration("tui.refresh", &self.tui.refresh, &mut errors);
        validate_containers(&self.rules.containers, &mut rule_ids, &mut errors);
        proof {
            assert(Seq::<Seq<char>>::empty() + ids_of(container_commons(self@.rules.containers))
                =~= ids_of(container_commons(self@.rules.containers)));
        }
        validate_images(&self.rules.images, &mut rule_ids, &mut errors);
        validate_volumes(&self.rules.volumes, &mut rule_ids, &mut errors);
        validate_networks(&self.rules.networks, &mut rule_ids, &mut errors);
        validate_build_cache(&self.rules.build_cache, &mut rule_ids, &mut errors);
        assert(views(errors@) =~= complaints(self@));
        if errors.len() == 0 {
            Ok(())
        } else {
            Err(ConfigError::Validation(errors))
        }
    }
}

/// A configuration with the file that it came from.
#[derive(Debug, PartialEq, Eq)]
pub struct LoadedConfig {
    pub path: String,
    pub config: Config,
    pub source: String,
}

/// What a loaded configuration says.
#[verifier::ext_equal]
pub struct LoadedView {
    pub path: Seq<char>,
    pub config: ConfigView,
    pub source: Seq<char>,
}

impl View for LoadedConfig {
    type V = LoadedView;

    open spec fn view(&self) -> LoadedView {
        LoadedView { path: self.path@, config: self.config@, source: self.source@ }
    }
}

/// The configuration that a file holds, once it is valid.
pub fn accept_config(path: String, config: Config, source: String) -> (outcome: Result<
    LoadedConfig,
    ConfigError,
>)
    ensures
        match outcome {
            Ok(loaded) => {
                &&& complaints(config@).len() == 0
                &&& loaded == (LoadedConfig { path, config, source })
            },
            Err(ConfigError::Validation(errors)) => {
                &&& complaints(config@).len() > 0
                &&& views(errors@) == complaints(config@)
            },
            Err(_) => false,
        },
{
    match config.validate() {
        Ok(_) => Ok(LoadedConfig { path, config, source }),
        Err(error) => Err(error),
    }
}

/// Where a configuration is looked for: below the current directory, then below
/// the configuration base.
pub open spec fn searched_paths(current_dir: Seq<char>, config_home: Option<Seq<char>>) -> Seq<
    Seq<char>,
> {
    match config_home {
        Some(home) => seq![
            below(current_dir, "docker_maid.toml"@),
            below(home, "docker_maid/config.toml"@),
        ],
        None => seq![below(current_dir, "docker_maid.toml"@)],
    }
}

/// The places where a configuration is looked for, in their order.
pub fn config_search_paths(current_dir: &str, config_home: &Option<String>) -> (paths: Vec<String>)
    ensures
        views(paths@) == searched_paths(current_dir@, opt_view(*config_home)),
{
    let mut paths: Vec<String> = Vec::new();
    paths.push(join_path(current_dir, "docker_maid.toml"));
    match config_home {
        Some(home) => paths.push(join_path(home.as_str(), "docker_maid/config.toml")),
        None => {},
    }
    assert(views(paths@) =~= searched_paths(current_dir@, opt_view(*config_home)));
    paths
}

/// The first path, from `index` on, that is a file.
pub open spec fn first_present(paths: Seq<Seq<char>>, present: Seq<bool>, index: int) -> Option<
    Seq<char>,
>
    decreases paths.len() - index,
{
    if index < 0 || index >= paths.len() {
        None
    } else if index < present.len() && present[index] {
        Some(paths[index])
    } else {
        first_present(paths, present, index + 1)
    }
}

/// Selects a configuration path: the explicit one, whether it exists or not, or
/// the first of the places looked at that is a file. `present` says which of
/// [`config_search_paths`] are files.
pub fn resolve_config_path(
    explicit: &Option<String>,
    current_dir: &str,
    config_home: &Option<String>,
    present: &Vec<bool>,
) -> (outcome: Result<String, ConfigError>)
    ensures
        ({
            let searched = searched_paths(current_dir@, opt_view(*config_home));
            match outcome {
                Ok(path) => match *explicit {
                    Some(chosen) => path@ == chosen@,
                    None => first_present(searched, present@, 0) == Some(path@),
                },
                Err(ConfigError::NotFound { searched: paths }) => {
                    &&& *explicit is None
                    &&& first_present(searched, present@, 0) is None
                    &&& views(paths@) == searched
                },
                Err(_) => false,
            }
        }),
{
    broadcast use group_views;

    match explicit {
        Some(path) => {
            return Ok(path.clone());
        },
        None => {},
    }
    let searched = config_search_paths(current_dir, config_home);
    let ghost all = views(searched@);
    let mut index: usize = 0;
    while index < searched.len()
        invariant
            index <= searched@.len(),
            all == views(searched@),
            all == searched_paths(current_dir@, opt_view(*config_home)),
            *explicit is None,
            first_present(all, present@, 0) == first_present(all, present@, index as int),
        decreases searched@.len() - index,
    {
        if index < present.len() && present[index] {
            return Ok(searched[index].clone());
        }
        index += 1;
    }
    Err(ConfigError::NotFound { searched })
}

fn same_limit(left: Option<u64>, right: Option<u64>) -> (same: bool)
    ensures
        same == (left == right),
{
    match (left, right) {
        (Some(a), Some(b)) => a == b,
        (None, None) => true,
        _ => false,
    }
}

impl Selectors {
    /// Whether two values say the same.
    pub fn same(&self, other: &Self) -> (equal: bool)
        ensures
            equal == (self@ == other@),
    {
        texts_eq(&self.labels, &other.labels) && texts_eq(&self.names, &other.names) && texts_eq(&self.name_parts, &other.name_parts)
    }
}

impl CommonRule {
    /// Whether two values say the same.
    pub fn same(&self, other: &Self) -> (equal: bool)
        ensures
            equal == (self@ == other@),
    {
        opt_text_eq(&self.id, &other.id) && text_eq(self.name.as_str(), other.name.as_str()) && opt_text_eq(&self.description, &other.description) && self.select.same(&other.select) && self.scope == other.scope && self.allow_unscoped == other.allow_unscoped
    }
}

impl ContainerRule {
    /// Whether two values say the same.
    pub fn same(&self, other: &Self) -> (equal: bool)
        ensures
            equal == (self@ == other@),
    {
        self.common.same(&other.common) && opt_text_eq(&self.stopped_ttl, &other.stopped_ttl) && opt_text_eq(&self.running_ttl, &other.running_ttl)
    }
}

impl ImageRule {
    /// Whether two values say the same.
    pub fn same(&self, other: &Self) -> (equal: bool)
        ensures
            equal == (self@ == other@),
    {
        self.common.same(&other.common) && self.dangling == other.dangling && opt_text_eq(&self.unused_for, &other.unused_for) && texts_eq(&self.image_tag_patterns, &other.image_tag_patterns)
    }
}

impl VolumeRule {
    /// Whether two values say the same.
    pub fn same(&self, other: &Self) -> (equal: bool)
        ensures
            equal == (self@ == other@),
    {
        self.common.same(&other.common) && opt_text_eq(&self.orphan_for, &other.orphan_for)
    }
}

impl NetworkRule {
    /// Whether two values say the same.
    pub fn same(&self, other: &Self) -> (equal: bool)
        ensures
            equal == (self@ == other@),
    {
        self.common.same(&other.common) && self.orphan == other.orphan && opt_text_eq(&self.orphan_for, &other.orphan_for)
    }
}

impl BuildCacheRule {
    /// Whether two values say the same.
    pub fn same(&self, other: &Self) -> (equal: bool)
        ensures
            equal == (self@ == other@),
    {
        opt_text_eq(&self.id, &other.id) && opt_text_eq(&self.older_than, &other.older_than) && same_limit(self.max_bytes, other.max_bytes) && self.allow_unscoped == other.allow_unscoped
    }
}

fn same_containers(left: &Vec<ContainerRule>, right: &Vec<ContainerRule>) -> (same: bool)
    ensures
        same == (views(left@) == views(right@)),
{
    broadcast use group_views;

    if left.len() != right.len() {
        assert(views(left@).len() != views(right@).len());
        return false;
    }
    let mut index: usize = 0;
    while index < left.len()
        invariant
            index <= left@.len(),
            left@.len() == right@.len(),
            forall|i: int| 0 <= i < index ==> left@[i]@ == right@[i]@,
        decreases left@.len() - index,
    {
        if !left[index].same(&right[index]) {
            assert(views(left@)[index as int] != views(right@)[index as int]);
            return false;
        }
        index += 1;
    }
    assert(views(left@) =~= views(right@));
    true
}

fn same_images(left: &Vec<ImageRule>, right: &Vec<ImageRule>) -> (same: bool)
    ensures
        same == (views(left@) == views(right@)),
{
    broadcast use group_views;

    if left.len() != right.len() {
        assert(views(left@).len() != views(right@).len());
        return false;
    }
    let mut index: usize = 0;
    while index < left.len()
        invariant
            index <= left@.len(),
            left@.len() == right@.len(),
            forall|i: int| 0 <= i < index ==> left@[i]@ == right@[i]@,
        decreases left@.len() - index,
    {
        if !left[index].same(&right[index]) {
            assert(views(left@)[index as int] != views(right@)[index as int]);
            return false;
        }
        index += 1;
    }
    assert(views(left@) =~= views(right@));
    true
}

fn same_volumes(left: &Vec<VolumeRule>, right: &Vec<VolumeRule>) -> (same: bool)
    ensures
        same == (views(left@) == views(right@)),
{
    broadcast use group_views;

    if left.len() != right.len() {
        assert(views(left@).len() != views(right@).len());
        return false;
    }
    let mut index: usize = 0;
    while index < left.len()
        invariant
            index <= left@.len(),
            left@.len() == right@.len(),
            forall|i: int| 0 <= i < index ==> left@[i]@ == right@[i]@,
        decreases left@.len() - index,
    {
        if !left[index].same(&right[index]) {
            assert(views(left@)[index as int] != views(right@)[index as int]);
            return false;
        }
        index += 1;
    }
    assert(views(left@) =~= views(right@));
    true
}

fn same_networks(left: &Vec<NetworkRule>, right: &Vec<NetworkRule>) -> (same: bool)
    ensures
        same == (views(left@) == views(right@)),
{
    broadcast use group_views;

    if left.len() != right.len() {
        assert(views(left@).len() != views(right@).len());
        return false;
    }
    let mut index: usize = 0;
    while index < left.len()
        invariant
            index <= left@.len(),
            left@.len() == right@.len(),
            forall|i: int| 0 <= i < index ==> left@[i]@ == right@[i]@,
        decreases left@.len() - index,
    {
        if !left[index].same(&right[index]) {
            assert(views(left@)[index as int] != views(right@)[index as int]);
            return false;
        }
        index += 1;
    }
    assert(views(left@) =~= views(right@));
    true
}

fn same_cache(left: &Option<BuildCacheRule>, right: &Option<BuildCacheRule>) -> (same: bool)
    ensures
        same == (opt_view(*left) == opt_view(*right)),
{
    match (left, right) {
        (Some(a), Some(b)) => a.same(b),
        (None, None) => true,
        _ => false,
    }
}

impl Rules {
    /// Whether two values say the same.
    pub fn same(&self, other: &Self) -> (equal: bool)
        ensures
            equal == (self@ == other@),
    {
        same_containers(&self.containers, &other.containers) && same_images(&self.images, &other.images) && same_volumes(&self.volumes, &other.volumes) && same_networks(&self.networks, &other.networks) && same_cache(&self.build_cache, &other.build_cache)
    }
}

impl Defaults {
    /// Whether two values say the same.
    pub fn same(&self, other: &Self) -> (equal: bool)
        ensures
            equal == (self@ == other@),
    {
        opt_text_eq(&self.interval, &other.interval)
    }
}

impl Protection {
    /// Whether two values say the same.
    pub fn same(&self, other: &Self) -> (equal: bool)
        ensures
            equal == (self@ == other@),
    {
        texts_eq(&self.names, &other.names) && texts_eq(&self.labels, &other.labels)
    }
}

impl Tui {
    /// Whether two values say the same.
    pub fn same(&self, other: &Self) -> (equal: bool)
        ensures
            equal == (self@ == other@),
    {
        opt_text_eq(&self.refresh, &other.refresh)
    }
}

impl Config {
    /// Whether two values say the same.
    pub fn same(&self, other: &Self) -> (equal: bool)
        ensures
            equal == (self@ == other@),
    {
        self.defaults.same(&other.defaults) && self.protect.same(&other.protect) && self.rules.same(&other.rules) && self.tui.same(&other.tui)
    }
}

} // verus!
