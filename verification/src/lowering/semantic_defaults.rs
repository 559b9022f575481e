//! The semantic defaults seed of a language profile: plain data, read by
//! the elaboration and emission phases.
use vstd::prelude::*;

use crate::strmap::StrMap;

verus! {

/// The semantic defaults of a language profile, by construct.
#[derive(Debug, Clone, Default)]
pub struct SemanticDefaultsSeed {
    pub schema_version: u32,
    pub reference_usage_semantics: ReferenceUsageSemanticsSeed,
    pub definition_context: DefinitionContextDefaultSeed,
    pub usage_context: UsageContextDefaultSeed,
    pub usage_type_defaults: StrMap<UsageTypeDefaultSeed>,
    pub usage_subset_defaults: StrMap<UsageSubsetDefaultSeed>,
    pub usage_family_defaults: StrMap<UsageFamilyDefaultSeed>,
    pub usage_property_defaults: StrMap<Vec<UsagePropertyDefaultSeed>>,
    pub usage_actions: StrMap<Vec<UsageActionSeed>>,
    pub usage_specialization_policies: StrMap<UsageSpecializationPolicySeed>,
    pub usage_resolution_policies: StrMap<UsageResolutionPolicySeed>,
    pub usage_traversal_policies: StrMap<UsageTraversalPolicySeed>,
    pub usage_id_policies: StrMap<UsageIdPolicySeed>,
    pub definition_companion_policies: StrMap<DefinitionCompanionPolicySeed>,
}

/// Defaults that depend on a definition's context.
#[derive(Debug, Clone, Default)]
pub struct DefinitionContextDefaultSeed {
    pub abstract_constructs: Vec<String>,
}

/// Constructs whose usages are treated specially by context.
#[derive(Debug, Clone, Default)]
pub struct UsageContextDefaultSeed {
    pub non_variable_owner_constructs: Vec<String>,
    pub no_type_context_owner_constructs: Vec<String>,
    pub non_owned_member_constructs: Vec<String>,
    pub direction_modifiers: Vec<String>,
}

/// Property values a usage gets when its owner, kind and modifiers match.
#[derive(Debug, Clone, Default)]
pub struct UsagePropertyDefaultSeed {
    pub owner_construct: Option<String>,
    pub kir_kind: Option<String>,
    pub present_modifiers: Vec<String>,
    pub absent_modifiers: Vec<String>,
    pub property_refs: StrMap<Vec<String>>,
    pub property_values: StrMap<String>,
}

/// A semantic action attached to usages of a construct.
#[derive(Debug, Clone, Default)]
pub struct UsageActionSeed {
    pub action: String,
    pub requires_metadata_properties: bool,
    pub requires_previous_state: bool,
    pub target: Option<String>,
}

/// How a construct's usages take their specialization references.
#[derive(Debug, Clone, Default)]
pub struct UsageSpecializationPolicySeed {
    pub specialization_refs_policy: Option<String>,
    pub materialized_refs_policy: Option<String>,
}

/// How a construct's usages resolve their reference targets.
#[derive(Debug, Clone, Default)]
pub struct UsageResolutionPolicySeed {
    pub reference_target_policy: Option<String>,
    pub connection_end_specialization_policy: Option<String>,
    pub connection_end_parent_construct: Option<String>,
}

/// Whether traversal of a construct's usages records the previous state.
#[derive(Debug, Clone, Default)]
pub struct UsageTraversalPolicySeed {
    pub records_previous_state: bool,
}

/// How the ids of a construct's usages are formed.
#[derive(Debug, Clone, Default)]
pub struct UsageIdPolicySeed {
    pub append_source_location_if_missing_start_col: bool,
}

/// The companion construct generated beside a definition, if any.
#[derive(Debug, Clone, Default)]
pub struct DefinitionCompanionPolicySeed {
    pub generated_companion_construct: Option<String>,
}

/// The semantics of reference usages.
#[derive(Debug, Clone, Default)]
pub struct ReferenceUsageSemanticsSeed {
    pub constructs: Vec<String>,
    pub modifier_rules: Vec<ReferenceModifierSemanticsSeed>,
    pub typed_data_value: ReferenceTypedSemanticsSeed,
    pub typed_object: ReferenceTypedSemanticsSeed,
}

/// What a modifier implies for a reference usage.
#[derive(Debug, Clone, Default)]
pub struct ReferenceModifierSemanticsSeed {
    pub modifier: String,
    pub synthetic_declared_name: bool,
    pub default_type_ref: Option<String>,
    pub semantic_specializations: Option<Vec<String>>,
    pub subsetted_feature_refs: Vec<String>,
    pub specialized_feature_refs: Vec<String>,
    pub redefined_feature_refs: Vec<String>,
    pub direction: Option<String>,
    pub direction_from_modifier: Option<String>,
}

/// What a reference usage typed by a data value or object implies.
#[derive(Debug, Clone, Default)]
pub struct ReferenceTypedSemanticsSeed {
    pub subsetted_feature_refs: Vec<String>,
    pub direction_from_modifiers: Vec<String>,
}

/// The default type of a construct's usages, overall and by owner.
#[derive(Debug, Clone, Default)]
pub struct UsageTypeDefaultSeed {
    pub type_ref: Option<String>,
    pub owner_type_refs: StrMap<String>,
}

/// The features a construct's usages subset by default.
#[derive(Debug, Clone, Default)]
pub struct UsageSubsetDefaultSeed {
    pub subsetted_feature_refs: Vec<String>,
    pub suppress_default_for_modifiers: Vec<String>,
    pub append_semantic_specializations_when_no_defaults: bool,
    pub owner_subsetted_feature_refs: StrMap<Vec<String>>,
    pub modifier_owner_subsetted_feature_refs: StrMap<StrMap<Vec<String>>>,
    pub specialized_feature_subset: Option<SpecializedFeatureSubsetDefaultSeed>,
}

/// When and what a usage with specialized features also subsets.
#[derive(Debug, Clone, Default)]
pub struct SpecializedFeatureSubsetDefaultSeed {
    pub require_feature_ref: bool,
    pub require_multiplicity: bool,
    pub include_specialized_features: bool,
    pub require_no_explicit_type_for_append_refs: bool,
    pub append_refs: Vec<String>,
    pub owner_append_refs: StrMap<Vec<String>>,
}

/// The defaults of a family of usages.
#[derive(Debug, Clone, Default)]
pub struct UsageFamilyDefaultSeed {
    pub type_ref: String,
    pub subsetted_feature_refs: Vec<String>,
    pub owner_subsetted_feature_refs: StrMap<Vec<String>>,
    pub is_variable: bool,
}

} // verus!
