//! How long generated rules keep what is no longer used.

use crate::candidate::ConfiguratorError;
use crate::duration::{duration_of, read_duration};
use crate::outside::{quote, quoted};
use crate::text::{concat2, concat3, text_eq};
use vstd::prelude::*;

verus! {

/// A ready choice of retention times.
#[derive(Debug, Clone, Copy, PartialEq, Eq, Structural)]
pub enum PolicyProfile {
    SharedHost,
    Workstation,
    EphemeralCi,
}

/// The heading of a profile.
pub open spec fn profile_title(profile: PolicyProfile) -> Seq<char> {
    match profile {
        PolicyProfile::SharedHost => "Shared Host"@,
        PolicyProfile::Workstation => "Workstation"@,
        PolicyProfile::EphemeralCi => "Ephemeral CI"@,
    }
}

/// The word by which a profile is chosen.
pub open spec fn profile_text(profile: PolicyProfile) -> Seq<char> {
    match profile {
        PolicyProfile::SharedHost => "shared-host"@,
        PolicyProfile::Workstation => "workstation"@,
        PolicyProfile::EphemeralCi => "ephemeral-ci"@,
    }
}

/// The retention that generated rules get.
#[derive(Debug, PartialEq, Eq)]
pub struct PolicySettings {
    pub stopped_container_ttl: String,
    pub image_ttl: String,
    pub volume_ttl: String,
    pub build_cache_ttl: String,
    pub build_cache_max_bytes: u64,
}

/// What settings say.
#[verifier::ext_equal]
pub struct SettingsView {
    pub stopped_container_ttl: Seq<char>,
    pub image_ttl: Seq<char>,
    pub volume_ttl: Seq<char>,
    pub build_cache_ttl: Seq<char>,
    pub build_cache_max_bytes: u64,
}

impl View for PolicySettings {
    type V = SettingsView;

    open spec fn view(&self) -> SettingsView {
        SettingsView {
            stopped_container_ttl: self.stopped_container_ttl@,
            image_ttl: self.image_ttl@,
            volume_ttl: self.volume_ttl@,
            build_cache_ttl: self.build_cache_ttl@,
            build_cache_max_bytes: self.build_cache_max_bytes,
        }
    }
}

impl Clone for PolicySettings {
    fn clone(&self) -> (copy: Self)
        ensures
            copy@ == self@,
    {
        PolicySettings {
            stopped_container_ttl: self.stopped_container_ttl.clone(),
            image_ttl: self.image_ttl.clone(),
            volume_ttl: self.volume_ttl.clone(),
            build_cache_ttl: self.build_cache_ttl.clone(),
            build_cache_max_bytes: self.build_cache_max_bytes,
        }
    }
}

/// The settings of a profile.
pub open spec fn profile_settings(profile: PolicyProfile) -> SettingsView {
    match profile {
        PolicyProfile::SharedHost => SettingsView {
            stopped_container_ttl: "24h"@,
            image_ttl: "7d"@,
            volume_ttl: "14d"@,
            build_cache_ttl: "30d"@,
            build_cache_max_bytes: 21474836480,
        },
        PolicyProfile::Workstation => SettingsView {
            stopped_container_ttl: "2h"@,
            image_ttl: "24h"@,
            volume_ttl: "48h"@,
            build_cache_ttl: "7d"@,
            build_cache_max_bytes: 10737418240,
        },
        PolicyProfile::EphemeralCi => SettingsView {
            stopped_container_ttl: "15m"@,
            image_ttl: "1h"@,
            volume_ttl: "6h"@,
            build_cache_ttl: "24h"@,
            build_cache_max_bytes: 5368709120,
        },
    }
}

impl PolicyProfile {
    /// Every profile, in the order in which they are offered.
    pub fn all() -> (profiles: [PolicyProfile; 3])
        ensures
            profiles@ == seq![
                PolicyProfile::SharedHost,
                PolicyProfile::Workstation,
                PolicyProfile::EphemeralCi,
            ],
    {
        let profiles = [
            PolicyProfile::SharedHost,
            PolicyProfile::Workstation,
            PolicyProfile::EphemeralCi,
        ];
        assert(profiles@ =~= seq![
            PolicyProfile::SharedHost,
            PolicyProfile::Workstation,
            PolicyProfile::EphemeralCi,
        ]);
        profiles
    }

    /// The heading of the profile.
    pub fn title(self) -> (words: &'static str)
        ensures
            words@ == profile_title(self),
    {
        match self {
            PolicyProfile::SharedHost => "Shared Host",
            PolicyProfile::Workstation => "Workstation",
            PolicyProfile::EphemeralCi => "Ephemeral CI",
        }
    }

    /// The word by which the profile is chosen.
    pub fn as_text(self) -> (word: &'static str)
        ensures
            word@ == profile_text(self),
    {
        match self {
            PolicyProfile::SharedHost => "shared-host",
            PolicyProfile::Workstation => "workstation",
            PolicyProfile::EphemeralCi => "ephemeral-ci",
        }
    }

    /// The profile that a word chooses.
    pub fn from_text(word: &str) -> (outcome: Result<PolicyProfile, String>)
        ensures
            match outcome {
                Ok(profile) => profile_text(profile) == word@,
                Err(message) => (forall|profile: PolicyProfile| #[trigger]
                    profile_text(profile) != word@) && message@ == "unknown profile "@ + quoted(
                    word@,
                ) + "; expected shared-host, workstation, or ephemeral-ci"@,
            },
    {
        if text_eq(word, "shared-host") {
            Ok(PolicyProfile::SharedHost)
        } else if text_eq(word, "workstation") {
            Ok(PolicyProfile::Workstation)
        } else if text_eq(word, "ephemeral-ci") {
            Ok(PolicyProfile::EphemeralCi)
        } else {
            Err(
                concat3(
                    "unknown profile ",
                    quote(word).as_str(),
                    "; expected shared-host, workstation, or ephemeral-ci",
                ),
            )
        }
    }

    /// The settings of the profile.
    pub fn settings(self) -> (settings: PolicySettings)
        ensures
            settings@ == profile_settings(self),
    {
        match self {
            PolicyProfile::SharedHost => PolicySettings {
                stopped_container_ttl: "24h".to_owned(),
                image_ttl: "7d".to_owned(),
                volume_ttl: "14d".to_owned(),
                build_cache_ttl: "30d".to_owned(),
                build_cache_max_bytes: 20 * 1024 * 1024 * 1024,
            },
            PolicyProfile::Workstation => PolicySettings {
                stopped_container_ttl: "2h".to_owned(),
                image_ttl: "24h".to_owned(),
                volume_ttl: "48h".to_owned(),
                build_cache_ttl: "7d".to_owned(),
                build_cache_max_bytes: 10 * 1024 * 1024 * 1024,
            },
            PolicyProfile::EphemeralCi => PolicySettings {
                stopped_container_ttl: "15m".to_owned(),
                image_ttl: "1h".to_owned(),
                volume_ttl: "6h".to_owned(),
                build_cache_ttl: "24h".to_owned(),
                build_cache_max_bytes: 5 * 1024 * 1024 * 1024,
            },
        }
    }
}

/// What is wrong with one retention time.
pub open spec fn retention_fault(field: Seq<char>, value: Seq<char>) -> Option<Seq<char>> {
    match duration_of(value) {
        Err(message) => Some(field + " is invalid: "@ + message),
        Ok(span) => if span == (0u64, 0u32) {
            Some(field + " must be greater than zero"@)
        } else {
            None
        },
    }
}

/// The first thing that is wrong with settings.
pub open spec fn settings_fault(settings: SettingsView) -> Option<Seq<char>> {
    let container = retention_fault("stopped container TTL"@, settings.stopped_container_ttl);
    let image = retention_fault("image TTL"@, settings.image_ttl);
    let volume = retention_fault("volume TTL"@, settings.volume_ttl);
    let cache = retention_fault("build-cache TTL"@, settings.build_cache_ttl);
    if container is Some {
        container
    } else if image is Some {
        image
    } else if volume is Some {
        volume
    } else if cache is Some {
        cache
    } else if settings.build_cache_max_bytes == 0 {
        Some("build-cache byte budget must be greater than zero"@)
    } else {
        None
    }
}

fn check_retention(field: &str, value: &str) -> (fault: Option<String>)
    ensures
        match fault {
            Some(message) => retention_fault(field@, value@) == Some(message@),
            None => retention_fault(field@, value@) is None,
        },
{
    match read_duration(value) {
        Err(message) => Some(concat3(field, " is invalid: ", message.as_str())),
        Ok(span) => if span.0 == 0 && span.1 == 0 {
            Some(concat2(field, " must be greater than zero"))
        } else {
            None
        },
    }
}

impl PolicySettings {
    /// Checks every setting; the first that is wrong is named.
    pub fn validate(&self) -> (outcome: Result<(), ConfiguratorError>)
        ensures
            match outcome {
                Ok(_) => settings_fault(self@) is None,
                Err(error) => error matches ConfiguratorError::Invalid(message) && settings_fault(
                    self@,
                ) == Some(message@),
            },
    {
        let fault = check_retention("stopped container TTL", self.stopped_container_ttl.as_str());
        if let Some(message) = fault {
            return Err(ConfiguratorError::Invalid(message));
        }
        let fault = check_retention("image TTL", self.image_ttl.as_str());
        if let Some(message) = fault {
            return Err(ConfiguratorError::Invalid(message));
        }
        let fault = check_retention("volume TTL", self.volume_ttl.as_str());
        if let Some(message) = fault {
            return Err(ConfiguratorError::Invalid(message));
        }
        let fault = check_retention("build-cache TTL", self.build_cache_ttl.as_str());
        if let Some(message) = fault {
            return Err(ConfiguratorError::Invalid(message));
        }
        if self.build_cache_max_bytes == 0 {
            return Err(
                ConfiguratorError::Invalid(
                    "build-cache byte budget must be greater than zero".to_owned(),
                ),
            );
        }
        Ok(())
    }
}

/// The word of a profile chooses that profile and no other.
pub proof fn profile_words_are_distinct(left: PolicyProfile, right: PolicyProfile)
    requires
        profile_text(left) == profile_text(right),
    ensures
        left == right,
{
    reveal_strlit("shared-host");
    reveal_strlit("workstation");
    reveal_strlit("ephemeral-ci");
    assert("shared-host"@[0] == 's');
    assert("workstation"@[0] == 'w');
    assert("ephemeral-ci"@[0] == 'e');
}

} // verus!
