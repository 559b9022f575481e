//! Declarative lowering rules: the shape of the rule seed, and which of
//! its hooks and collect expressions the runtime supports.
use vstd::prelude::*;

use crate::strmap::StrMap;
use crate::text::str_eq;

verus! {

/// The elaboration rules that have a runtime hook.
pub open spec fn runtime_elaboration_rule(id: Seq<char>) -> bool {
    ||| id == "comment-annotation-target"@
    ||| id == "conjugated-port-definition-name"@
    ||| id == "connection-end-direction"@
    ||| id == "implicit-ref-redefines-target"@
    ||| id == "satisfy-name-as-reference-target"@
    ||| id == "verify-name-as-reference-target"@
}

/// The collect expressions the runtime can evaluate.
pub open spec fn runtime_collect_expression(e: Seq<char>) -> bool {
    ||| e == "definition"@
    ||| e == "import"@
    ||| e == "package"@
    ||| e == "usage"@
    ||| e == "true"@
    ||| e == "$ast.allocation_source"@
    ||| e == "$ast.allocation_target"@
    ||| e == "$ast.body_members[usage]"@
    ||| e == "$ast.docs"@
    ||| e == "$ast.expression"@
    ||| e == "$ast.members"@
    ||| e == "$ast.members[modifier=end]"@
    ||| e == "$ast.members[usage]"@
    ||| e == "$ast.modifiers + end"@
    ||| e == "$ast.modifiers contains abstract"@
    ||| e == "$ast.multiplicity"@
    ||| e == "$ast.name"@
    ||| e == "$ast.path"@
    ||| e == "$ast.redefines"@
    ||| e == "$ast.reference_target"@
    ||| e == "$ast.reference_target or $ast.name"@
    ||| e == "$ast.specializes"@
    ||| e == "$ast.specializes or semantic_default"@
    ||| e == "$ast.subsets"@
    ||| e == "$ast.ty"@
    ||| e == "$scope.owner"@
    ||| e == "$scope.package"@
    ||| e == "$scope.package_or_definition"@
    ||| e == "~$ast.name"@
}

/// Whether elaboration rule `rule_id` has a runtime hook.
pub fn has_runtime_elaboration_hook(rule_id: &str) -> (r: bool)
    ensures
        r == runtime_elaboration_rule(rule_id@),
{
    str_eq(rule_id, "comment-annotation-target")
        || str_eq(rule_id, "conjugated-port-definition-name")
        || str_eq(rule_id, "connection-end-direction")
        || str_eq(rule_id, "implicit-ref-redefines-target")
        || str_eq(rule_id, "satisfy-name-as-reference-target")
        || str_eq(rule_id, "verify-name-as-reference-target")
}

/// Whether the runtime can evaluate collect expression `expression`.
pub fn has_runtime_collect_expression(expression: &str) -> (r: bool)
    ensures
        r == runtime_collect_expression(expression@),
{
    str_eq(expression, "definition")
        || str_eq(expression, "import")
        || str_eq(expression, "package")
        || str_eq(expression, "usage")
        || str_eq(expression, "true")
        || str_eq(expression, "$ast.allocation_source")
        || str_eq(expression, "$ast.allocation_target")
        || str_eq(expression, "$ast.body_members[usage]")
        || str_eq(expression, "$ast.docs")
        || str_eq(expression, "$ast.expression")
        || str_eq(expression, "$ast.members")
        || str_eq(expression, "$ast.members[modifier=end]")
        || str_eq(expression, "$ast.members[usage]")
        || str_eq(expression, "$ast.modifiers + end")
        || str_eq(expression, "$ast.modifiers contains abstract")
        || str_eq(expression, "$ast.multiplicity")
        || str_eq(expression, "$ast.name")
        || str_eq(expression, "$ast.path")
        || str_eq(expression, "$ast.redefines")
        || str_eq(expression, "$ast.reference_target")
        || str_eq(expression, "$ast.reference_target or $ast.name")
        || str_eq(expression, "$ast.specializes")
        || str_eq(expression, "$ast.specializes or semantic_default")
        || str_eq(expression, "$ast.subsets")
        || str_eq(expression, "$ast.ty")
        || str_eq(expression, "$scope.owner")
        || str_eq(expression, "$scope.package")
        || str_eq(expression, "$scope.package_or_definition")
        || str_eq(expression, "~$ast.name")
}

/// A lowering rule seed: its schema version, where its facts came from,
/// and its rules.
#[derive(Debug, Clone, Default)]
pub struct LoweringRuleSeed {
    pub schema_version: u32,
    pub source: StrMap<serde_json::Value>,
    pub rules: Vec<LoweringRule>,
}

/// How one construct is recognised, collected, elaborated and emitted.
#[derive(Debug, Clone)]
pub struct LoweringRule {
    pub construct: String,
    pub metaclass: String,
    pub status: Option<String>,
    pub ast: LoweringAstPattern,
    pub collect: LoweringCollectRule,
    pub elaborate: Vec<LoweringElaborationRule>,
    pub emit: LoweringEmitRule,
    pub pilot_sources: LoweringPilotSources,
}

/// The AST node, and keyword if any, a rule applies to.
#[derive(Debug, Clone, Default)]
pub struct LoweringAstPattern {
    pub node: String,
    pub keyword: Option<String>,
}

/// The collect expressions of a rule: its element kind, name and owner,
/// and further fields by name.
#[derive(Debug, Clone, Default)]
pub struct LoweringCollectRule {
    pub element: String,
    pub name: String,
    pub owner: String,
    pub fields: StrMap<String>,
}

/// An elaboration step of a rule.
#[derive(Debug, Clone, Default)]
pub struct LoweringElaborationRule {
    pub id: String,
    pub when: Option<String>,
    pub set: StrMap<String>,
    pub note: Option<String>,
}

/// How a rule's element is emitted: its id template and properties.
#[derive(Debug, Clone, Default)]
pub struct LoweringEmitRule {
    pub id_template: String,
    pub properties: StrMap<String>,
}

/// Where the facts of a rule were observed.
#[derive(Debug, Clone, Default)]
pub struct LoweringPilotSources {
    pub grammar_rules: Vec<String>,
    pub ecore_class: Option<String>,
    pub transform_observations: Vec<String>,
}

} // verus!
