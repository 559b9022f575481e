//! The mapping bundle of a language profile: its construct, keyword,
//! specialization and emission tables, built from the seeds, and the
//! queries resolution and emission make of them.
use vstd::prelude::*;

use crate::kerml::ast::strings_view;
use crate::kerml::token::Diagnostic;
use crate::lowering::emit::{
    EmissionRule, KirEmissionSeed, MetamodelConstructEntry, PilotConstructSeed, last_construct,
    pascal, pascal_case,
};
use crate::lowering::rules::{LoweringRule, LoweringRuleSeed};
use crate::lowering::elaborate::{
    ReferenceUsageSemantics, SemanticsView, UsageFamilyDefaults, all_type_refs, usage_all_type_refs,
};
use crate::lowering::emit::{all_data_value_like_refs, data_value_like};
use crate::lowering::ir::{ResolvedDefinition, ResolvedUsage};
use crate::lowering::semantic_defaults::{
    SemanticDefaultsSeed, UsageActionSeed, UsagePropertyDefaultSeed, UsageSubsetDefaultSeed,
};
use crate::lowering::usage_semantics::{
    action_applies, applied_modifier_semantics, apply_reference_modifier_semantics, copy_strings,
    default_value, extend_strings, first_present, has_modifier, property_default_applies,
    reference_direction_from_modifiers, resolve_semantic_default_value, strings_contain,
    usage_action_applies, usage_has_modifier, usage_property_default_applies,
};
use crate::strmap::{StrMap, has_key, lookup, str_lookup};
use crate::text::{concat2, concat3, ends_with, is_prefix, is_suffix, starts_with, str_eq};

verus! {

/// The tables of a mapping bundle.
pub struct MappingView {
    pub construct_to_metaclass: Seq<(Seq<char>, String)>,
    pub package_default_specializations: Seq<(Seq<char>, String)>,
    pub definition_keyword_constructs: Seq<(Seq<char>, String)>,
    pub definition_default_specializations: Seq<(Seq<char>, String)>,
    pub definition_semantic_specializations: Seq<(Seq<char>, Vec<String>)>,
    pub stdlib_aliases: Seq<(Seq<char>, String)>,
    pub usage_keyword_constructs: Seq<(Seq<char>, String)>,
    pub usage_default_specializations: Seq<(Seq<char>, String)>,
    pub usage_semantic_specializations: Seq<(Seq<char>, Vec<String>)>,
    pub usage_semantic_specialization_overrides: Seq<(Seq<char>, StrMap<Vec<String>>)>,
    pub emission: Seq<(Seq<char>, EmissionRule)>,
    pub rules: Option<Seq<LoweringRule>>,
    pub semantic_defaults: SemanticDefaultsSeed,
}

/// The mappings of a language profile.
pub struct MappingBundle {
    construct_to_metaclass: StrMap<String>,
    package_default_specializations: StrMap<String>,
    definition_keyword_constructs: StrMap<String>,
    definition_default_specializations: StrMap<String>,
    definition_semantic_specializations: StrMap<Vec<String>>,
    stdlib_aliases: StrMap<String>,
    usage_keyword_constructs: StrMap<String>,
    usage_default_specializations: StrMap<String>,
    usage_semantic_specializations: StrMap<Vec<String>>,
    usage_semantic_specialization_overrides: StrMap<StrMap<Vec<String>>>,
    kir_emission: KirEmissionSeed,
    lowering_rules: Option<LoweringRuleSeed>,
    semantic_defaults: SemanticDefaultsSeed,
}

impl View for MappingBundle {
    type V = MappingView;

    closed spec fn view(&self) -> MappingView {
        MappingView {
            construct_to_metaclass: self.construct_to_metaclass@,
            package_default_specializations: self.package_default_specializations@,
            definition_keyword_constructs: self.definition_keyword_constructs@,
            definition_default_specializations: self.definition_default_specializations@,
            definition_semantic_specializations: self.definition_semantic_specializations@,
            stdlib_aliases: self.stdlib_aliases@,
            usage_keyword_constructs: self.usage_keyword_constructs@,
            usage_default_specializations: self.usage_default_specializations@,
            usage_semantic_specializations: self.usage_semantic_specializations@,
            usage_semantic_specialization_overrides: self.usage_semantic_specialization_overrides@,
            emission: self.kir_emission.metaclasses@,
            rules: match self.lowering_rules {
                Some(seed) => Some(seed.rules@),
                None => None,
            },
            semantic_defaults: self.semantic_defaults,
        }
    }
}

// ------------------------------------------------------------ what the tables say

/// The metaclass of the last construct entry for `k`.
pub open spec fn last_metaclass(es: Seq<MetamodelConstructEntry>, k: Seq<char>) -> Option<Seq<char>> {
    match last_construct(es, k) {
        Some(e) => Some(e.metaclass@),
        None => None,
    }
}

/// The metaclass a construct lowers to: its mapping, else the KerML
/// metaclass its name suffix implies.
pub open spec fn metaclass_of(v: MappingView, construct: Seq<char>) -> Option<Seq<char>> {
    match str_lookup(v.construct_to_metaclass, construct) {
        Some(m) => Some(m),
        None => if is_suffix("Usage"@, construct) {
            Some("KerML::Feature"@)
        } else if is_suffix("Definition"@, construct) {
            Some("KerML::Classifier"@)
        } else {
            None
        },
    }
}

/// The first rule for construct `c`.
pub open spec fn first_rule_for_construct(rules: Seq<LoweringRule>, c: Seq<char>) -> Option<LoweringRule>
    decreases rules.len(),
{
    if rules.len() == 0 {
        None
    } else if rules[0].construct@ == c {
        Some(rules[0])
    } else {
        first_rule_for_construct(rules.drop_first(), c)
    }
}

/// Rule `r` applies to AST node `node` with keyword `keyword`.
pub open spec fn rule_matches_ast(r: LoweringRule, node: Seq<char>, keyword: Seq<char>) -> bool {
    &&& r.ast.node@ == node
    &&& r.ast.keyword matches Some(k)
    &&& r.ast.keyword->Some_0@ == keyword
}

/// The first rule for AST node `node` with keyword `keyword`.
pub open spec fn first_rule_for_ast(rules: Seq<LoweringRule>, node: Seq<char>, keyword: Seq<char>) -> Option<
    LoweringRule,
>
    decreases rules.len(),
{
    if rules.len() == 0 {
        None
    } else if rule_matches_ast(rules[0], node, keyword) {
        Some(rules[0])
    } else {
        first_rule_for_ast(rules.drop_first(), node, keyword)
    }
}

/// The rule of the bundle for AST node `node` with keyword `keyword`.
pub open spec fn ast_rule(v: MappingView, node: Seq<char>, keyword: Seq<char>) -> Option<LoweringRule> {
    match v.rules {
        Some(rs) => first_rule_for_ast(rs, node, keyword),
        None => None,
    }
}

/// The construct a keyword introduces: the construct of the rule for it,
/// else the registered one, else the keyword in Pascal case followed by
/// `suffix`.
pub open spec fn keyword_construct(
    rule: Option<LoweringRule>,
    registered: Seq<(Seq<char>, String)>,
    keyword: Seq<char>,
    suffix: Seq<char>,
) -> Seq<char> {
    match rule {
        Some(r) => r.construct@,
        None => match str_lookup(registered, keyword) {
            Some(c) => c,
            None => pascal(keyword) + suffix,
        },
    }
}

/// The construct a definition keyword introduces.
pub open spec fn definition_construct(v: MappingView, keyword: Seq<char>) -> Seq<char> {
    keyword_construct(
        ast_rule(v, "GenericDefinitionDecl"@, keyword),
        v.definition_keyword_constructs,
        keyword,
        "Definition"@,
    )
}

/// The construct a usage keyword introduces.
pub open spec fn usage_construct(v: MappingView, keyword: Seq<char>) -> Seq<char> {
    keyword_construct(
        ast_rule(v, "GenericUsageDecl"@, keyword),
        v.usage_keyword_constructs,
        keyword,
        "Usage"@,
    )
}

/// The strings of an optional list, or none.
pub open spec fn opt_strings(o: Option<Vec<String>>) -> Seq<Seq<char>> {
    match o {
        Some(v) => strings_view(v@),
        None => Seq::empty(),
    }
}

/// The override targets of the first modifier that has one.
pub open spec fn first_override(
    overrides: Seq<(Seq<char>, Vec<String>)>,
    modifiers: Seq<Seq<char>>,
) -> Option<Vec<String>>
    decreases modifiers.len(),
{
    if modifiers.len() == 0 {
        None
    } else {
        match lookup(overrides, modifiers[0]) {
            Some(t) => Some(t),
            None => first_override(overrides, modifiers.drop_first()),
        }
    }
}

/// The semantic specializations of a usage of `construct` with
/// `modifiers`: a modifier's override, else the construct's default.
pub open spec fn usage_specializations(
    v: MappingView,
    construct: Seq<char>,
    modifiers: Seq<Seq<char>>,
) -> Seq<Seq<char>> {
    match lookup(v.usage_semantic_specialization_overrides, construct) {
        Some(o) => match first_override(o@, modifiers) {
            Some(t) => strings_view(t@),
            None => opt_strings(lookup(v.usage_semantic_specializations, construct)),
        },
        None => opt_strings(lookup(v.usage_semantic_specializations, construct)),
    }
}

// ------------------------------------------------------------ semantic defaults

/// The subsetted features of a usage family for owner `owner`: the
/// owner's, else the family's.
pub open spec fn family_subsets(d: crate::lowering::semantic_defaults::UsageFamilyDefaultSeed, owner: Seq<char>) -> Seq<Seq<char>> {
    match lookup(d.owner_subsetted_feature_refs@, owner) {
        Some(v) => strings_view(v@),
        None => strings_view(d.subsetted_feature_refs@),
    }
}

/// The default type of a usage: the one for its owner construct, else the
/// construct's, placeholders filled in.
pub open spec fn type_default(sd: SemanticDefaultsSeed, usage: ResolvedUsage) -> Option<Seq<char>> {
    match lookup(sd.usage_type_defaults@, usage.construct@) {
        None => None,
        Some(d) => match str_lookup(d.owner_type_refs@, usage.owner_construct@) {
            Some(v) => Some(default_value(v, usage)),
            None => match d.type_ref {
                Some(t) => Some(default_value(t@, usage)),
                None => None,
            },
        },
    }
}

/// Some of `xs` is a modifier of the usage.
pub open spec fn any_present(xs: Seq<Seq<char>>, usage: ResolvedUsage) -> bool {
    exists|i: int| 0 <= i < xs.len() && has_modifier(usage, #[trigger] xs[i])
}

/// The subset references the first modifier that has them for the owner
/// gives.
pub open spec fn modifier_owner_subsets(
    by_modifier: Seq<(Seq<char>, crate::strmap::StrMap<Vec<String>>)>,
    modifiers: Seq<Seq<char>>,
    owner: Seq<char>,
) -> Option<Seq<Seq<char>>>
    decreases modifiers.len(),
{
    if modifiers.len() == 0 {
        None
    } else {
        match lookup(by_modifier, modifiers[0]) {
            Some(owners) => match lookup(owners@, owner) {
                Some(refs) => Some(strings_view(refs@)),
                None => modifier_owner_subsets(by_modifier, modifiers.drop_first(), owner),
            },
            None => modifier_owner_subsets(by_modifier, modifiers.drop_first(), owner),
        }
    }
}

/// The default subsetted features of a usage: none if a suppressing
/// modifier is present, else those a modifier gives for the owner, else
/// the owner's, else the construct's.
pub open spec fn subset_default(sd: SemanticDefaultsSeed, usage: ResolvedUsage) -> Seq<Seq<char>> {
    match lookup(sd.usage_subset_defaults@, usage.construct@) {
        None => Seq::empty(),
        Some(d) => if any_present(strings_view(d.suppress_default_for_modifiers@), usage) {
            Seq::empty()
        } else {
            match modifier_owner_subsets(
                d.modifier_owner_subsetted_feature_refs@,
                strings_view(usage.modifiers@),
                usage.owner_construct@,
            ) {
                Some(refs) => refs,
                None => match lookup(d.owner_subsetted_feature_refs@, usage.owner_construct@) {
                    Some(v) => strings_view(v@),
                    None => strings_view(d.subsetted_feature_refs@),
                },
            }
        },
    }
}

/// Some specialized feature of the usage is a feature id.
pub open spec fn has_feature_ref(usage: ResolvedUsage) -> bool {
    exists|i: int|
        0 <= i < usage.specialized_features@.len() && is_prefix(
            "feature."@,
            #[trigger] usage.specialized_features@[i]@,
        )
}

/// The subset references a usage with specialized features gets by
/// default, if its construct's policy gives it any.
pub open spec fn specialized_subset_default(sd: SemanticDefaultsSeed, usage: ResolvedUsage) -> Option<
    Seq<Seq<char>>,
> {
    match lookup(sd.usage_subset_defaults@, usage.construct@) {
        None => None,
        Some(d) => match d.specialized_feature_subset {
            None => None,
            Some(sf) => if usage.specialized_features@.len() == 0 {
                None
            } else if sf.require_feature_ref && !has_feature_ref(usage) {
                None
            } else if sf.require_multiplicity && usage.multiplicity is None {
                None
            } else {
                let base = if sf.include_specialized_features {
                    strings_view(usage.specialized_features@)
                } else {
                    Seq::empty()
                };
                if sf.require_no_explicit_type_for_append_refs && usage.has_explicit_type {
                    Some(base)
                } else {
                    Some(
                        base + match lookup(sf.owner_append_refs@, usage.owner_construct@) {
                            Some(v) => strings_view(v@),
                            None => strings_view(sf.append_refs@),
                        },
                    )
                }
            },
        },
    }
}

/// The first modifier rule whose modifier the usage carries.
pub open spec fn first_modifier_rule(
    rules: Seq<crate::lowering::semantic_defaults::ReferenceModifierSemanticsSeed>,
    usage: ResolvedUsage,
) -> Option<crate::lowering::semantic_defaults::ReferenceModifierSemanticsSeed>
    decreases rules.len(),
{
    if rules.len() == 0 {
        None
    } else if has_modifier(usage, rules[0].modifier@) {
        Some(rules[0])
    } else {
        first_modifier_rule(rules.drop_first(), usage)
    }
}

/// The starting semantics of a reference usage: its types, also as its
/// semantic specializations.
pub open spec fn base_semantics(usage: ResolvedUsage) -> SemanticsView {
    SemanticsView {
        type_refs: all_type_refs(usage),
        semantic_specializations: all_type_refs(usage),
        subsetted_feature_refs: Seq::empty(),
        specialized_feature_refs: Seq::empty(),
        redefined_feature_refs: Seq::empty(),
        direction: None,
    }
}

/// Every type reference names a data value, and there is one.
pub open spec fn all_data_values(refs: Seq<Seq<char>>) -> bool {
    refs.len() > 0 && forall|i: int| 0 <= i < refs.len() ==> data_value_like(#[trigger] refs[i])
}

/// The semantics of a reference usage, if its construct has reference
/// semantics: from the first modifier rule it matches, else by whether its
/// types are data values or objects.
pub open spec fn reference_semantics(sd: SemanticDefaultsSeed, usage: ResolvedUsage) -> Option<
    SemanticsView,
> {
    let seed = sd.reference_usage_semantics;
    let base = base_semantics(usage);
    if !strings_view(seed.constructs@).contains(usage.construct@) {
        None
    } else if seed.modifier_rules@.len() == 0 && seed.typed_data_value.subsetted_feature_refs@.len()
        == 0 && seed.typed_object.subsetted_feature_refs@.len() == 0 {
        None
    } else {
        match first_modifier_rule(seed.modifier_rules@, usage) {
            Some(rule) => Some(applied_modifier_semantics(rule, usage, base)),
            None => if all_data_values(base.type_refs) {
                Some(
                    SemanticsView {
                        subsetted_feature_refs: strings_view(
                            seed.typed_data_value.subsetted_feature_refs@,
                        ),
                        ..base
                    },
                )
            } else if base.type_refs.len() > 0 {
                Some(
                    SemanticsView {
                        subsetted_feature_refs: strings_view(seed.typed_object.subsetted_feature_refs@),
                        direction: first_present(
                            strings_view(seed.typed_object.direction_from_modifiers@),
                            usage,
                        ),
                        ..base
                    },
                )
            } else {
                None
            },
        }
    }
}

/// The view of an optional string slice.
pub open spec fn opt_slice(o: Option<&str>) -> Option<Seq<char>> {
    match o {
        Some(s) => Some(s@),
        None => None,
    }
}

/// The view of an optional string.
pub open spec fn opt_string_view(o: Option<String>) -> Option<Seq<char>> {
    match o {
        Some(s) => Some(s@),
        None => None,
    }
}

/// The entries of `ds` that apply to the usage, in order.
pub open spec fn applying_defaults(ds: Seq<UsagePropertyDefaultSeed>, usage: ResolvedUsage) -> Seq<
    UsagePropertyDefaultSeed,
>
    decreases ds.len(),
{
    if ds.len() == 0 {
        Seq::empty()
    } else {
        applying_defaults(ds.drop_last(), usage) + if property_default_applies(ds.last(), usage) {
            seq![ds.last()]
        } else {
            Seq::empty()
        }
    }
}

/// The actions of `acts` that apply to the usage, in order.
pub open spec fn applying_actions(acts: Seq<UsageActionSeed>, usage: ResolvedUsage) -> Seq<UsageActionSeed>
    decreases acts.len(),
{
    if acts.len() == 0 {
        Seq::empty()
    } else {
        applying_actions(acts.drop_last(), usage) + if action_applies(acts.last(), usage) {
            seq![acts.last()]
        } else {
            Seq::empty()
        }
    }
}

/// The view of an optional string slice.
pub open spec fn opt_str_view(o: Option<&str>) -> Option<Seq<char>> {
    match o {
        Some(s) => Some(s@),
        None => None,
    }
}

/// The value of `k` in a map of strings, as a slice.
fn get_str<'a>(m: &'a StrMap<String>, k: &str) -> (r: Option<&'a str>)
    ensures
        opt_str_view(r) == str_lookup(m@, k@),
{
    match m.get(k) {
        Some(v) => Some(v.as_str()),
        None => None,
    }
}

/// Older library names and the names that replaced them.
pub open spec fn compat_alias_pairs() -> Seq<(Seq<char>, Seq<char>)> {
    seq![
        ("Items::Item"@, "sysml.Item"@),
        ("Base::DataValue"@, "sysml.DataValue"@),
        ("Parts::Part"@, "sysml.Part"@),
        ("Ports::Port"@, "sysml.Port"@),
        ("Interfaces::Interface"@, "sysml.Interface"@),
        ("ISQSpaceTime::breadth"@, "ISQSpaceTime::width"@),
        ("breadth"@, "ISQSpaceTime::width"@),
    ]
}

impl MappingBundle {
    /// The bundle built from a profile's seeds: its tables are the seeds'
    /// maps, and the construct table maps each construct to the metaclass
    /// of its last entry.
    pub fn from_seeds(
        construct_seed: PilotConstructSeed,
        kir_emission: KirEmissionSeed,
        lowering_rules: Option<LoweringRuleSeed>,
        semantic_defaults: SemanticDefaultsSeed,
    ) -> (r: Result<Self, Diagnostic>)
        ensures
            r matches Ok(b) && {
                &&& forall|q: Seq<char>| #[trigger]
                    str_lookup(b@.construct_to_metaclass, q) == last_metaclass(
                        construct_seed.constructs@,
                        q,
                    )
                &&& b@.package_default_specializations
                    == construct_seed.default_specialization_anchors.packages@
                &&& b@.definition_keyword_constructs == construct_seed.keyword_registry.definitions@
                &&& b@.definition_default_specializations
                    == construct_seed.default_specialization_anchors.definitions@
                &&& b@.definition_semantic_specializations
                    == construct_seed.semantic_specialization_defaults.definitions@
                &&& b@.stdlib_aliases == construct_seed.stdlib_aliases.ids@
                &&& b@.usage_keyword_constructs == construct_seed.keyword_registry.usages@
                &&& b@.usage_default_specializations
                    == construct_seed.default_specialization_anchors.usages@
                &&& b@.usage_semantic_specializations
                    == construct_seed.semantic_specialization_defaults.usages@
                &&& b@.usage_semantic_specialization_overrides
                    == construct_seed.usage_semantic_specialization_overrides.usages@
                &&& b@.emission == kir_emission.metaclasses@
                &&& b@.rules == match lowering_rules {
                    Some(seed) => Some(seed.rules@),
                    None => None,
                }
                &&& b@.semantic_defaults == semantic_defaults
            },
    {
        let ghost entries = construct_seed.constructs@;
        let mut construct_to_metaclass: StrMap<String> = StrMap::new();
        let n = construct_seed.constructs.len();
        let mut i: usize = 0;
        while i < n
            invariant
                n == entries.len(),
                entries == construct_seed.constructs@,
                i <= n,
                forall|q: Seq<char>| #[trigger]
                    str_lookup(construct_to_metaclass@, q) == last_metaclass(
                        entries.take(i as int),
                        q,
                    ),
            decreases n - i,
        {
            let e = &construct_seed.constructs[i];
            let ghost before = construct_to_metaclass@;
            let ghost mv = e.metaclass@;
            construct_to_metaclass.insert(e.construct.clone(), e.metaclass.clone());
            proof {
                assert(entries.take(i + 1).drop_last() =~= entries.take(i as int));
                assert(entries.take(i + 1).last() == entries[i as int]);
                assert forall|q: Seq<char>| #[trigger]
                    str_lookup(construct_to_metaclass@, q) == last_metaclass(
                        entries.take(i + 1),
                        q,
                    ) by {
                    assert(str_lookup(before, q) == last_metaclass(entries.take(i as int), q));
                }
            }
            i = i + 1;
        }
        assert(entries.take(n as int) =~= entries);
        Ok(MappingBundle {
            construct_to_metaclass,
            package_default_specializations: construct_seed.default_specialization_anchors.packages,
            definition_keyword_constructs: construct_seed.keyword_registry.definitions,
            definition_default_specializations: construct_seed.default_specialization_anchors.definitions,
            definition_semantic_specializations: construct_seed.semantic_specialization_defaults.definitions,
            stdlib_aliases: construct_seed.stdlib_aliases.ids,
            usage_keyword_constructs: construct_seed.keyword_registry.usages,
            usage_default_specializations: construct_seed.default_specialization_anchors.usages,
            usage_semantic_specializations: construct_seed.semantic_specialization_defaults.usages,
            usage_semantic_specialization_overrides: construct_seed.usage_semantic_specialization_overrides.usages,
            kir_emission,
            lowering_rules,
            semantic_defaults,
        })
    }

    /// The metaclass `construct` lowers to, or an error naming it.
    pub fn metaclass_for(&self, construct: &str) -> (r: Result<&str, Diagnostic>)
        ensures
            match r {
                Ok(m) => metaclass_of(self@, construct@) == Some(m@),
                Err(d) => metaclass_of(self@, construct@) is None && d.message@
                    == "missing construct mapping `"@ + construct@ + "`"@ && d.span is None,
            },
    {
        match self.construct_to_metaclass.get(construct) {
            Some(m) => {
                return Ok(m.as_str());
            },
            None => {},
        }
        if ends_with(construct, "Usage") {
            return Ok("KerML::Feature");
        }
        if ends_with(construct, "Definition") {
            return Ok("KerML::Classifier");
        }
        let message = concat3("missing construct mapping `", construct, "`");
        Err(Diagnostic::new(message.as_str(), None))
    }

    /// The emission rule of `metaclass`, or an error naming it.
    pub fn emission_for(&self, metaclass: &str) -> (r: Result<&EmissionRule, Diagnostic>)
        ensures
            match r {
                Ok(e) => lookup(self@.emission, metaclass@) == Some(*e),
                Err(d) => lookup(self@.emission, metaclass@) is None && d.message@
                    == "missing emission mapping `"@ + metaclass@ + "`"@ && d.span is None,
            },
    {
        match self.kir_emission.metaclasses.get(metaclass) {
            Some(e) => Ok(e),
            None => {
                let message = concat3("missing emission mapping `", metaclass, "`");
                Err(Diagnostic::new(message.as_str(), None))
            },
        }
    }

    /// The first lowering rule for `construct`.
    pub fn lowering_rule_for_construct(&self, construct: &str) -> (r: Option<&LoweringRule>)
        ensures
            match r {
                Some(rule) => self@.rules matches Some(rs) && first_rule_for_construct(
                    rs,
                    construct@,
                ) == Some(*rule),
                None => self@.rules matches Some(rs) ==> first_rule_for_construct(
                    rs,
                    construct@,
                ) is None,
            },
    {
        match &self.lowering_rules {
            None => None,
            Some(seed) => {
                let ghost rs = seed.rules@;
                let mut i: usize = 0;
                assert(rs.skip(0) =~= rs);
                while i < seed.rules.len()
                    invariant
                        rs == seed.rules@,
                        self@.rules == Some(rs),
                        i <= rs.len(),
                        first_rule_for_construct(rs, construct@) == first_rule_for_construct(
                            rs.skip(i as int),
                            construct@,
                        ),
                    decreases rs.len() - i,
                {
                    proof {
                        assert(rs.skip(i as int)[0] == rs[i as int]);
                        assert(rs.skip(i as int).drop_first() =~= rs.skip(i + 1));
                    }
                    if str_eq(seed.rules[i].construct.as_str(), construct) {
                        return Some(&seed.rules[i]);
                    }
                    i = i + 1;
                }
                None
            },
        }
    }

    /// The first lowering rule for AST node `node` with keyword `keyword`.
    pub fn lowering_rule_for_ast(&self, node: &str, keyword: &str) -> (r: Option<&LoweringRule>)
        ensures
            match r {
                Some(rule) => ast_rule(self@, node@, keyword@) == Some(*rule),
                None => ast_rule(self@, node@, keyword@) is None,
            },
    {
        match &self.lowering_rules {
            None => None,
            Some(seed) => {
                let ghost rs = seed.rules@;
                let mut i: usize = 0;
                assert(rs.skip(0) =~= rs);
                while i < seed.rules.len()
                    invariant
                        rs == seed.rules@,
                        self@.rules == Some(rs),
                        i <= rs.len(),
                        first_rule_for_ast(rs, node@, keyword@) == first_rule_for_ast(
                            rs.skip(i as int),
                            node@,
                            keyword@,
                        ),
                    decreases rs.len() - i,
                {
                    proof {
                        assert(rs.skip(i as int)[0] == rs[i as int]);
                        assert(rs.skip(i as int).drop_first() =~= rs.skip(i + 1));
                    }
                    let rule = &seed.rules[i];
                    let keyword_matches = match &rule.ast.keyword {
                        Some(k) => str_eq(k.as_str(), keyword),
                        None => false,
                    };
                    if str_eq(rule.ast.node.as_str(), node) && keyword_matches {
                        return Some(rule);
                    }
                    i = i + 1;
                }
                None
            },
        }
    }

    /// The construct a definition keyword introduces.
    pub fn definition_construct_for(&self, keyword: &str) -> (r: String)
        ensures
            r@ == definition_construct(self@, keyword@),
    {
        match self.lowering_rule_for_ast("GenericDefinitionDecl", keyword) {
            Some(rule) => {
                return rule.construct.clone();
            },
            None => {},
        }
        match self.definition_keyword_constructs.get(keyword) {
            Some(c) => c.clone(),
            None => {
                let p = pascal_case(keyword);
                concat2(p.as_str(), "Definition")
            },
        }
    }

    /// The construct a usage keyword introduces.
    pub fn usage_construct_for(&self, keyword: &str) -> (r: String)
        ensures
            r@ == usage_construct(self@, keyword@),
    {
        match self.lowering_rule_for_ast("GenericUsageDecl", keyword) {
            Some(rule) => {
                return rule.construct.clone();
            },
            None => {},
        }
        match self.usage_keyword_constructs.get(keyword) {
            Some(c) => c.clone(),
            None => {
                let p = pascal_case(keyword);
                concat2(p.as_str(), "Usage")
            },
        }
    }

    /// The default specialization of definition construct `construct`.
    pub fn default_specialization_for_definition(&self, construct: &str) -> (r: Option<&str>)
        ensures
            opt_str_view(r) == str_lookup(self@.definition_default_specializations, construct@),
    {
        get_str(&self.definition_default_specializations, construct)
    }

    /// The default specialization of package construct `construct`.
    pub fn default_specialization_for_package(&self, construct: &str) -> (r: Option<&str>)
        ensures
            opt_str_view(r) == str_lookup(self@.package_default_specializations, construct@),
    {
        get_str(&self.package_default_specializations, construct)
    }

    /// The default specialization of usage construct `construct`.
    pub fn default_specialization_for_usage(&self, construct: &str) -> (r: Option<&str>)
        ensures
            opt_str_view(r) == str_lookup(self@.usage_default_specializations, construct@),
    {
        get_str(&self.usage_default_specializations, construct)
    }

    /// The semantic specializations of definition construct `construct`.
    pub fn semantic_specializations_for_definition(&self, construct: &str) -> (r: Vec<String>)
        ensures
            strings_view(r@) == opt_strings(
                lookup(self@.definition_semantic_specializations, construct@),
            ),
    {
        match self.definition_semantic_specializations.get(construct) {
            Some(v) => copy_strings(v),
            None => {
                let r: Vec<String> = Vec::new();
                assert(strings_view(r@) =~= Seq::<Seq<char>>::empty());
                r
            },
        }
    }

    /// The semantic specializations of a usage of `construct` with
    /// `modifiers`: the override of the first modifier that has one, else
    /// the construct's default.
    pub fn semantic_specializations_for_usage(&self, construct: &str, modifiers: &[String]) -> (r:
        Vec<String>)
        ensures
            strings_view(r@) == usage_specializations(self@, construct@, strings_view(modifiers@)),
    {
        match self.usage_semantic_specialization_overrides.get(construct) {
            Some(overrides) => {
                let ghost ms = strings_view(modifiers@);
                let mut i: usize = 0;
                assert(ms.skip(0) =~= ms);
                while i < modifiers.len()
                    invariant
                        ms == strings_view(modifiers@),
                        lookup(self@.usage_semantic_specialization_overrides, construct@) == Some(
                            *overrides,
                        ),
                        i <= ms.len(),
                        first_override(overrides@, ms) == first_override(
                            overrides@,
                            ms.skip(i as int),
                        ),
                    decreases ms.len() - i,
                {
                    proof {
                        assert(ms.skip(i as int)[0] == modifiers@[i as int]@);
                        assert(ms.skip(i as int).drop_first() =~= ms.skip(i + 1));
                    }
                    match overrides.get(modifiers[i].as_str()) {
                        Some(targets) => {
                            return copy_strings(targets);
                        },
                        None => {},
                    }
                    i = i + 1;
                }
            },
            None => {},
        }
        match self.usage_semantic_specializations.get(construct) {
            Some(v) => copy_strings(v),
            None => {
                let r: Vec<String> = Vec::new();
                assert(strings_view(r@) =~= Seq::<Seq<char>>::empty());
                r
            },
        }
    }

    /// The library aliases of the profile.
    pub fn stdlib_aliases(&self) -> (r: &StrMap<String>)
        ensures
            r@ == self@.stdlib_aliases,
    {
        &self.stdlib_aliases
    }

    /// Older library names and the names that replaced them.
    pub fn compatibility_library_aliases(&self) -> (r: &'static [(&'static str, &'static str)])
        ensures
            r@.map_values(|p: (&'static str, &'static str)| (p.0@, p.1@)) == compat_alias_pairs(),
    {
        &[
            ("Items::Item", "sysml.Item"),
            ("Base::DataValue", "sysml.DataValue"),
            ("Parts::Part", "sysml.Part"),
            ("Ports::Port", "sysml.Port"),
            ("Interfaces::Interface", "sysml.Interface"),
            ("ISQSpaceTime::breadth", "ISQSpaceTime::width"),
            ("breadth", "ISQSpaceTime::width"),
        ]
    }
}


impl MappingBundle {
    /// The defaults of the usage family of `construct` for owner construct
    /// `owner_construct`.
    pub fn usage_family_default(&self, construct: &str, owner_construct: &str) -> (r: Option<
        UsageFamilyDefaults,
    >)
        ensures
            match lookup(self@.semantic_defaults.usage_family_defaults@, construct@) {
                None => r is None,
                Some(d) => r matches Some(f) && f.type_ref@ == d.type_ref@ && strings_view(
                    f.subsetted_feature_refs@,
                ) == family_subsets(d, owner_construct@) && f.is_variable == d.is_variable,
            },
    {
        let d = match self.semantic_defaults.usage_family_defaults.get(construct) {
            Some(d) => d,
            None => {
                return None;
            },
        };
        let subsetted_feature_refs = match d.owner_subsetted_feature_refs.get(owner_construct) {
            Some(v) => copy_strings(v),
            None => copy_strings(&d.subsetted_feature_refs),
        };
        Some(
            UsageFamilyDefaults {
                type_ref: d.type_ref.clone(),
                subsetted_feature_refs,
                is_variable: d.is_variable,
            },
        )
    }

    /// The default type of `usage`.
    pub fn usage_type_default(&self, usage: &ResolvedUsage) -> (r: Option<String>)
        ensures
            opt_string_view(r) == type_default(self@.semantic_defaults, *usage),
    {
        let d = match self.semantic_defaults.usage_type_defaults.get(usage.construct.as_str()) {
            Some(d) => d,
            None => {
                return None;
            },
        };
        match d.owner_type_refs.get(usage.owner_construct.as_str()) {
            Some(v) => {
                return Some(resolve_semantic_default_value(v.as_str(), usage));
            },
            None => {},
        }
        match &d.type_ref {
            Some(t) => Some(resolve_semantic_default_value(t.as_str(), usage)),
            None => None,
        }
    }

    /// The default subsetted features of `usage`.
    pub fn usage_subset_default(&self, usage: &ResolvedUsage) -> (r: Vec<String>)
        ensures
            strings_view(r@) == subset_default(self@.semantic_defaults, *usage),
    {
        let d = match self.semantic_defaults.usage_subset_defaults.get(usage.construct.as_str()) {
            Some(d) => d,
            None => {
                let r: Vec<String> = Vec::new();
                assert(strings_view(r@) =~= Seq::<Seq<char>>::empty());
                return r;
            },
        };
        let mut i: usize = 0;
        while i < d.suppress_default_for_modifiers.len()
            invariant
                i <= d.suppress_default_for_modifiers@.len(),
                lookup(self@.semantic_defaults.usage_subset_defaults@, usage.construct@) == Some(*d),
                forall|j: int|
                    0 <= j < i ==> !has_modifier(
                        *usage,
                        #[trigger] strings_view(d.suppress_default_for_modifiers@)[j],
                    ),
            decreases d.suppress_default_for_modifiers@.len() - i,
        {
            if usage_has_modifier(usage, d.suppress_default_for_modifiers[i].as_str()) {
                let r: Vec<String> = Vec::new();
                proof {
                    assert(has_modifier(*usage, strings_view(d.suppress_default_for_modifiers@)[i as int]));
                    assert(strings_view(r@) =~= Seq::<Seq<char>>::empty());
                }
                return r;
            }
            i = i + 1;
        }
        let ghost ms = strings_view(usage.modifiers@);
        let mut k: usize = 0;
        assert(ms.skip(0) =~= ms);
        while k < usage.modifiers.len()
            invariant
                ms == strings_view(usage.modifiers@),
                k <= ms.len(),
                lookup(self@.semantic_defaults.usage_subset_defaults@, usage.construct@) == Some(*d),
                !any_present(strings_view(d.suppress_default_for_modifiers@), *usage),
                modifier_owner_subsets(
                    d.modifier_owner_subsetted_feature_refs@,
                    ms,
                    usage.owner_construct@,
                ) == modifier_owner_subsets(
                    d.modifier_owner_subsetted_feature_refs@,
                    ms.skip(k as int),
                    usage.owner_construct@,
                ),
            decreases ms.len() - k,
        {
            proof {
                assert(ms.skip(k as int)[0] == usage.modifiers@[k as int]@);
                assert(ms.skip(k as int).drop_first() =~= ms.skip(k + 1));
            }
            match d.modifier_owner_subsetted_feature_refs.get(usage.modifiers[k].as_str()) {
                Some(owners) => match owners.get(usage.owner_construct.as_str()) {
                    Some(refs) => {
                        return copy_strings(refs);
                    },
                    None => {},
                },
                None => {},
            }
            k = k + 1;
        }
        match d.owner_subsetted_feature_refs.get(usage.owner_construct.as_str()) {
            Some(v) => copy_strings(v),
            None => copy_strings(&d.subsetted_feature_refs),
        }
    }

    /// The default subset references of a usage with specialized features.
    pub fn specialized_feature_subset_default(&self, usage: &ResolvedUsage) -> (r: Option<Vec<String>>)
        ensures
            match r {
                Some(v) => specialized_subset_default(self@.semantic_defaults, *usage) == Some(
                    strings_view(v@),
                ),
                None => specialized_subset_default(self@.semantic_defaults, *usage) is None,
            },
    {
        let d = match self.semantic_defaults.usage_subset_defaults.get(usage.construct.as_str()) {
            Some(d) => d,
            None => {
                return None;
            },
        };
        let sf = match &d.specialized_feature_subset {
            Some(sf) => sf,
            None => {
                return None;
            },
        };
        if usage.specialized_features.len() == 0 {
            return None;
        }
        if sf.require_feature_ref {
            let mut found = false;
            let mut i: usize = 0;
            while i < usage.specialized_features.len()
                invariant
                    i <= usage.specialized_features@.len(),
                    found <==> exists|j: int|
                        0 <= j < i && is_prefix(
                            "feature."@,
                            #[trigger] usage.specialized_features@[j]@,
                        ),
                decreases usage.specialized_features@.len() - i,
            {
                if starts_with(usage.specialized_features[i].as_str(), "feature.") {
                    found = true;
                }
                i = i + 1;
            }
            if !found {
                return None;
            }
        }
        if sf.require_multiplicity && usage.multiplicity.is_none() {
            return None;
        }
        let mut refs: Vec<String> = Vec::new();
        if sf.include_specialized_features {
            extend_strings(&mut refs, usage.specialized_features.as_slice());
        }
        assert(strings_view(refs@) =~= if sf.include_specialized_features {
            strings_view(usage.specialized_features@)
        } else {
            Seq::empty()
        });
        if sf.require_no_explicit_type_for_append_refs && usage.has_explicit_type {
            return Some(refs);
        }
        match sf.owner_append_refs.get(usage.owner_construct.as_str()) {
            Some(v) => extend_strings(&mut refs, v.as_slice()),
            None => extend_strings(&mut refs, sf.append_refs.as_slice()),
        }
        Some(refs)
    }

    /// Whether a usage with no default subsets takes its semantic
    /// specializations as subsets.
    pub fn usage_appends_semantic_specializations_to_subset_defaults(&self, usage: &ResolvedUsage) -> (r:
        bool)
        ensures
            r == (lookup(self@.semantic_defaults.usage_subset_defaults@, usage.construct@) matches Some(
                d,
            ) && d.append_semantic_specializations_when_no_defaults),
    {
        match self.semantic_defaults.usage_subset_defaults.get(usage.construct.as_str()) {
            Some(d) => d.append_semantic_specializations_when_no_defaults,
            None => false,
        }
    }

    /// The reference semantics of `usage`, if its construct has them.
    pub fn reference_usage_semantics(&self, usage: &ResolvedUsage) -> (r: Option<
        ReferenceUsageSemantics,
    >)
        ensures
            match r {
                Some(s) => reference_semantics(self@.semantic_defaults, *usage) == Some(s@),
                None => reference_semantics(self@.semantic_defaults, *usage) is None,
            },
    {
        let seed = &self.semantic_defaults.reference_usage_semantics;
        if !strings_contain(seed.constructs.as_slice(), usage.construct.as_str()) {
            return None;
        }
        let type_refs = usage_all_type_refs(usage);
        let mut semantics = ReferenceUsageSemantics {
            type_refs: copy_strings(&type_refs),
            semantic_specializations: type_refs,
            subsetted_feature_refs: Vec::new(),
            specialized_feature_refs: Vec::new(),
            redefined_feature_refs: Vec::new(),
            direction: None,
        };
        proof {
            assert(strings_view(semantics.subsetted_feature_refs@) =~= Seq::<Seq<char>>::empty());
            assert(strings_view(semantics.specialized_feature_refs@) =~= Seq::<Seq<char>>::empty());
            assert(strings_view(semantics.redefined_feature_refs@) =~= Seq::<Seq<char>>::empty());
            assert(semantics@ == base_semantics(*usage));
        }
        if seed.modifier_rules.len() == 0 && seed.typed_data_value.subsetted_feature_refs.len() == 0
            && seed.typed_object.subsetted_feature_refs.len() == 0 {
            return None;
        }
        let ghost rules = seed.modifier_rules@;
        let mut i: usize = 0;
        assert(rules.skip(0) =~= rules);
        while i < seed.modifier_rules.len()
            invariant
                rules == seed.modifier_rules@,
                *seed == self@.semantic_defaults.reference_usage_semantics,
                i <= rules.len(),
                semantics@ == base_semantics(*usage),
                first_modifier_rule(rules, *usage) == first_modifier_rule(rules.skip(i as int), *usage),
                reference_semantics(self@.semantic_defaults, *usage) == match first_modifier_rule(
                    rules,
                    *usage,
                ) {
                    Some(rule) => Some(applied_modifier_semantics(rule, *usage, base_semantics(*usage))),
                    None => if all_data_values(base_semantics(*usage).type_refs) {
                        Some(
                            SemanticsView {
                                subsetted_feature_refs: strings_view(
                                    seed.typed_data_value.subsetted_feature_refs@,
                                ),
                                ..base_semantics(*usage)
                            },
                        )
                    } else if base_semantics(*usage).type_refs.len() > 0 {
                        Some(
                            SemanticsView {
                                subsetted_feature_refs: strings_view(
                                    seed.typed_object.subsetted_feature_refs@,
                                ),
                                direction: first_present(
                                    strings_view(seed.typed_object.direction_from_modifiers@),
                                    *usage,
                                ),
                                ..base_semantics(*usage)
                            },
                        )
                    } else {
                        None
                    },
                },
            decreases rules.len() - i,
        {
            proof {
                assert(rules.skip(i as int)[0] == rules[i as int]);
                assert(rules.skip(i as int).drop_first() =~= rules.skip(i + 1));
            }
            let rule = &seed.modifier_rules[i];
            if usage_has_modifier(usage, rule.modifier.as_str()) {
                apply_reference_modifier_semantics(rule, usage, &mut semantics);
                return Some(semantics);
            }
            i = i + 1;
        }
        let all_dv = all_data_value_like_refs(semantics.type_refs.as_slice());
        proof {
            let tv = strings_view(semantics.type_refs@);
            assert(all_dv == all_data_values(tv)) by {
                if all_dv {
                    assert forall|i: int| 0 <= i < tv.len() implies data_value_like(#[trigger] tv[i]) by {
                        assert(data_value_like(semantics.type_refs@[i]@));
                    }
                }
                if all_data_values(tv) {
                    assert forall|i: int| 0 <= i < semantics.type_refs@.len() implies data_value_like(
                        #[trigger] semantics.type_refs@[i]@,
                    ) by {
                        assert(data_value_like(tv[i]));
                    }
                }
            }
        }
        if semantics.type_refs.len() > 0 && all_dv {
            semantics.subsetted_feature_refs = copy_strings(&seed.typed_data_value.subsetted_feature_refs);
            assert(semantics@ =~= SemanticsView {
                subsetted_feature_refs: strings_view(seed.typed_data_value.subsetted_feature_refs@),
                ..base_semantics(*usage)
            });
            return Some(semantics);
        }
        if semantics.type_refs.len() > 0 {
            semantics.subsetted_feature_refs = copy_strings(&seed.typed_object.subsetted_feature_refs);
            semantics.direction = reference_direction_from_modifiers(
                usage,
                seed.typed_object.direction_from_modifiers.as_slice(),
            );
            assert(semantics@ =~= SemanticsView {
                subsetted_feature_refs: strings_view(seed.typed_object.subsetted_feature_refs@),
                direction: first_present(
                    strings_view(seed.typed_object.direction_from_modifiers@),
                    *usage,
                ),
                ..base_semantics(*usage)
            });
            return Some(semantics);
        }
        None
    }

    /// Whether a reference usage is given a synthetic declared name by one of
    /// its modifiers.
    pub fn reference_usage_has_synthetic_declared_name(&self, usage: &ResolvedUsage) -> (r: bool)
        ensures
            r == (strings_view(self@.semantic_defaults.reference_usage_semantics.constructs@).contains(
                usage.construct@,
            ) && exists|i: int|
                0 <= i < self@.semantic_defaults.reference_usage_semantics.modifier_rules@.len()
                    && (#[trigger] self@.semantic_defaults.reference_usage_semantics.modifier_rules@[i]).synthetic_declared_name
                    && has_modifier(
                    *usage,
                    self@.semantic_defaults.reference_usage_semantics.modifier_rules@[i].modifier@,
                )),
    {
        let seed = &self.semantic_defaults.reference_usage_semantics;
        if !strings_contain(seed.constructs.as_slice(), usage.construct.as_str()) {
            return false;
        }
        let mut i: usize = 0;
        while i < seed.modifier_rules.len()
            invariant
                i <= seed.modifier_rules@.len(),
                *seed == self@.semantic_defaults.reference_usage_semantics,
                strings_view(seed.constructs@).contains(usage.construct@),
                forall|j: int|
                    0 <= j < i ==> !((#[trigger] seed.modifier_rules@[j]).synthetic_declared_name
                        && has_modifier(*usage, seed.modifier_rules@[j].modifier@)),
            decreases seed.modifier_rules@.len() - i,
        {
            let rule = &seed.modifier_rules[i];
            if rule.synthetic_declared_name && usage_has_modifier(usage, rule.modifier.as_str()) {
                return true;
            }
            i = i + 1;
        }
        false
    }

    /// Whether `usage` is variable: its owner is not one whose usages are
    /// fixed.
    pub fn usage_is_variable(&self, usage: &ResolvedUsage) -> (r: bool)
        ensures
            r == !strings_view(
                self@.semantic_defaults.usage_context.non_variable_owner_constructs@,
            ).contains(usage.owner_construct@),
    {
        !strings_contain(
            self.semantic_defaults.usage_context.non_variable_owner_constructs.as_slice(),
            usage.owner_construct.as_str(),
        )
    }

    /// Whether `usage` counts as an owned member of its owner.
    pub fn usage_counts_as_owned_member(&self, usage: &ResolvedUsage) -> (r: bool)
        ensures
            r == !strings_view(self@.semantic_defaults.usage_context.non_owned_member_constructs@).contains(
                usage.construct@,
            ),
    {
        !strings_contain(
            self.semantic_defaults.usage_context.non_owned_member_constructs.as_slice(),
            usage.construct.as_str(),
        )
    }

    /// Whether `usage` is featured by its owner's type.
    pub fn usage_has_type_context(&self, usage: &ResolvedUsage) -> (r: bool)
        ensures
            r == !strings_view(
                self@.semantic_defaults.usage_context.no_type_context_owner_constructs@,
            ).contains(usage.owner_construct@),
    {
        !strings_contain(
            self.semantic_defaults.usage_context.no_type_context_owner_constructs.as_slice(),
            usage.owner_construct.as_str(),
        )
    }

    /// Whether `definition` is abstract, declared so or by its construct.
    pub fn definition_is_abstract(&self, definition: &ResolvedDefinition) -> (r: bool)
        ensures
            r == (definition.is_abstract || strings_view(
                self@.semantic_defaults.definition_context.abstract_constructs@,
            ).contains(definition.construct@)),
    {
        definition.is_abstract || strings_contain(
            self.semantic_defaults.definition_context.abstract_constructs.as_slice(),
            definition.construct.as_str(),
        )
    }

    /// The first direction modifier the usage carries.
    pub fn usage_direction_from_modifiers(&self, usage: &ResolvedUsage) -> (r: Option<&str>)
        ensures
            opt_slice(r) == first_present(
                strings_view(self@.semantic_defaults.usage_context.direction_modifiers@),
                *usage,
            ),
    {
        let ds = &self.semantic_defaults.usage_context.direction_modifiers;
        let ghost dv = strings_view(ds@);
        let mut i: usize = 0;
        assert(dv.skip(0) =~= dv);
        while i < ds.len()
            invariant
                dv == strings_view(ds@),
                *ds == self@.semantic_defaults.usage_context.direction_modifiers,
                i <= dv.len(),
                first_present(dv, *usage) == first_present(dv.skip(i as int), *usage),
            decreases dv.len() - i,
        {
            proof {
                assert(dv.skip(i as int)[0] == ds@[i as int]@);
                assert(dv.skip(i as int).drop_first() =~= dv.skip(i + 1));
            }
            if usage_has_modifier(usage, ds[i].as_str()) {
                return Some(ds[i].as_str());
            }
            i = i + 1;
        }
        None
    }

    /// The property defaults of the usage's construct that apply to it, in
    /// order.
    pub fn usage_property_defaults(&self, usage: &ResolvedUsage) -> (r: Vec<&UsagePropertyDefaultSeed>)
        ensures
            r@.map_values(|d: &UsagePropertyDefaultSeed| *d) == match lookup(
                self@.semantic_defaults.usage_property_defaults@,
                usage.construct@,
            ) {
                Some(ds) => applying_defaults(ds@, *usage),
                None => Seq::empty(),
            },
    {
        let mut r: Vec<&UsagePropertyDefaultSeed> = Vec::new();
        match self.semantic_defaults.usage_property_defaults.get(usage.construct.as_str()) {
            Some(ds) => {
                let mut i: usize = 0;
                while i < ds.len()
                    invariant
                        i <= ds@.len(),
                        r@.map_values(|d: &UsagePropertyDefaultSeed| *d) == applying_defaults(
                            ds@.take(i as int),
                            *usage,
                        ),
                    decreases ds@.len() - i,
                {
                    let ghost before = r@.map_values(|d: &UsagePropertyDefaultSeed| *d);
                    if usage_property_default_applies(&ds[i], usage) {
                        r.push(&ds[i]);
                    }
                    proof {
                        assert(ds@.take(i + 1).drop_last() =~= ds@.take(i as int));
                        assert(r@.map_values(|d: &UsagePropertyDefaultSeed| *d) =~= applying_defaults(
                            ds@.take(i + 1),
                            *usage,
                        ));
                    }
                    i = i + 1;
                }
                assert(ds@.take(ds@.len() as int) =~= ds@);
            },
            None => {},
        }
        assert(r@.map_values(|d: &UsagePropertyDefaultSeed| *d) =~= match lookup(
            self@.semantic_defaults.usage_property_defaults@,
            usage.construct@,
        ) {
            Some(ds) => applying_defaults(ds@, *usage),
            None => Seq::empty(),
        });
        r
    }

    /// The actions of the usage's construct that apply to it, in order.
    pub fn usage_actions(&self, usage: &ResolvedUsage) -> (r: Vec<&UsageActionSeed>)
        ensures
            r@.map_values(|a: &UsageActionSeed| *a) == match lookup(
                self@.semantic_defaults.usage_actions@,
                usage.construct@,
            ) {
                Some(acts) => applying_actions(acts@, *usage),
                None => Seq::empty(),
            },
    {
        let mut r: Vec<&UsageActionSeed> = Vec::new();
        match self.semantic_defaults.usage_actions.get(usage.construct.as_str()) {
            Some(acts) => {
                let mut i: usize = 0;
                while i < acts.len()
                    invariant
                        i <= acts@.len(),
                        r@.map_values(|a: &UsageActionSeed| *a) == applying_actions(
                            acts@.take(i as int),
                            *usage,
                        ),
                    decreases acts@.len() - i,
                {
                    if usage_action_applies(&acts[i], usage) {
                        r.push(&acts[i]);
                    }
                    proof {
                        assert(acts@.take(i + 1).drop_last() =~= acts@.take(i as int));
                        assert(r@.map_values(|a: &UsageActionSeed| *a) =~= applying_actions(
                            acts@.take(i + 1),
                            *usage,
                        ));
                    }
                    i = i + 1;
                }
                assert(acts@.take(acts@.len() as int) =~= acts@);
            },
            None => {},
        }
        assert(r@.map_values(|a: &UsageActionSeed| *a) =~= match lookup(
            self@.semantic_defaults.usage_actions@,
            usage.construct@,
        ) {
            Some(acts) => applying_actions(acts@, *usage),
            None => Seq::empty(),
        });
        r
    }

    /// The materialized specialization policy of the usage's construct.
    pub fn usage_materialized_specialization_policy(&self, usage: &ResolvedUsage) -> (r: Option<&str>)
        ensures
            opt_slice(r) == match lookup(
                self@.semantic_defaults.usage_specialization_policies@,
                usage.construct@,
            ) {
                Some(p) => opt_string_view(p.materialized_refs_policy),
                None => None,
            },
    {
        match self.semantic_defaults.usage_specialization_policies.get(usage.construct.as_str()) {
            Some(p) => match &p.materialized_refs_policy {
                Some(v) => Some(v.as_str()),
                None => None,
            },
            None => None,
        }
    }

    /// The specialization reference policy of the usage's construct.
    pub fn usage_specialization_refs_policy(&self, usage: &ResolvedUsage) -> (r: Option<&str>)
        ensures
            opt_slice(r) == match lookup(
                self@.semantic_defaults.usage_specialization_policies@,
                usage.construct@,
            ) {
                Some(p) => opt_string_view(p.specialization_refs_policy),
                None => None,
            },
    {
        match self.semantic_defaults.usage_specialization_policies.get(usage.construct.as_str()) {
            Some(p) => match &p.specialization_refs_policy {
                Some(v) => Some(v.as_str()),
                None => None,
            },
            None => None,
        }
    }

    /// The reference target policy of `construct`.
    pub fn usage_reference_target_resolution_policy(&self, construct: &str) -> (r: Option<&str>)
        ensures
            opt_slice(r) == match lookup(
                self@.semantic_defaults.usage_resolution_policies@,
                construct@,
            ) {
                Some(p) => opt_string_view(p.reference_target_policy),
                None => None,
            },
    {
        match self.semantic_defaults.usage_resolution_policies.get(construct) {
            Some(p) => match &p.reference_target_policy {
                Some(v) => Some(v.as_str()),
                None => None,
            },
            None => None,
        }
    }

    /// The connection-end specialization policy of `construct`, with the
    /// parent construct it names, if it has one.
    pub fn usage_connection_end_specialization_policy(&self, construct: &str) -> (r: Option<
        (&str, Option<&str>),
    >)
        ensures
            match lookup(self@.semantic_defaults.usage_resolution_policies@, construct@) {
                Some(p) => match p.connection_end_specialization_policy {
                    Some(policy) => r matches Some((a, b)) && a@ == policy@ && opt_slice(b)
                        == opt_string_view(p.connection_end_parent_construct),
                    None => r is None,
                },
                None => r is None,
            },
    {
        let p = match self.semantic_defaults.usage_resolution_policies.get(construct) {
            Some(p) => p,
            None => {
                return None;
            },
        };
        let policy = match &p.connection_end_specialization_policy {
            Some(v) => v.as_str(),
            None => {
                return None;
            },
        };
        let parent = match &p.connection_end_parent_construct {
            Some(v) => Some(v.as_str()),
            None => None,
        };
        Some((policy, parent))
    }

    /// Whether traversal of the usage's construct records the previous
    /// state.
    pub fn usage_records_previous_state(&self, usage: &ResolvedUsage) -> (r: bool)
        ensures
            r == (lookup(self@.semantic_defaults.usage_traversal_policies@, usage.construct@) matches Some(
                p,
            ) && p.records_previous_state),
    {
        match self.semantic_defaults.usage_traversal_policies.get(usage.construct.as_str()) {
            Some(p) => p.records_previous_state,
            None => false,
        }
    }

    /// Whether ids of the usage's construct get a source location when the
    /// start column is missing.
    pub fn usage_appends_source_location_if_missing_start_col(&self, usage: &ResolvedUsage) -> (r:
        bool)
        ensures
            r == (lookup(self@.semantic_defaults.usage_id_policies@, usage.construct@) matches Some(p)
                && p.append_source_location_if_missing_start_col),
    {
        match self.semantic_defaults.usage_id_policies.get(usage.construct.as_str()) {
            Some(p) => p.append_source_location_if_missing_start_col,
            None => false,
        }
    }

    /// The companion construct generated beside a definition of
    /// `construct`.
    pub fn generated_companion_construct_for_definition(&self, construct: &str) -> (r: Option<&str>)
        ensures
            opt_slice(r) == match lookup(
                self@.semantic_defaults.definition_companion_policies@,
                construct@,
            ) {
                Some(p) => opt_string_view(p.generated_companion_construct),
                None => None,
            },
    {
        match self.semantic_defaults.definition_companion_policies.get(construct) {
            Some(p) => match &p.generated_companion_construct {
                Some(v) => Some(v.as_str()),
                None => None,
            },
            None => None,
        }
    }
}

} // verus!
