//! Adopting what Docker holds: the survey of families, the policy for them,
//! and the proposal that writes rules.

pub use crate::candidate::{
    candidate_display_indices, CandidateFamily, CandidateResource, CandidateSelector,
    ConfiguratorError, ConfiguratorSurvey, SurveySummary, CONFIGURATOR_SCHEMA_VERSION,
};
pub use crate::generate::MANAGED_ID_PREFIX;
pub use crate::preview::{refresh_candidate_warnings, refresh_warnings_in, ProposalPreview};
pub use crate::profile::{PolicyProfile, PolicySettings};
pub use crate::proposal::{
    accept_proposal, configuration_target_path, inventory_signature, manual_source,
    propose_configuration, proposed_rules, ConfigProposal, ConfigWriteResult, ProposalRequest,
};
pub use crate::survey::{add_name_prefix_candidate, survey_inventory};
