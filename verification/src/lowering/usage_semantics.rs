//! How a resolved usage is given its types, specializations, feature
//! references and direction from its own declaration, the semantic
//! defaults of its construct, and the reference semantics of its
//! modifiers.
use vstd::prelude::*;

use crate::kerml::ast::strings_view;
use crate::kerml::token::SourceSpan;
use crate::lowering::bundle::{
    MappingBundle, MappingView, family_subsets, opt_string_view, specialized_subset_default,
    subset_default, type_default, usage_specializations,
};
use crate::lowering::elaborate::{ReferenceUsageSemantics, SemanticsView, dedupe, dedupe_refs};
use crate::lowering::emit::{
    display_name, display_name_for_ref, first_modifier_value, modifier_value, sibling_state,
    sibling_state_id,
};
use crate::lowering::ir::{ResolvedDefinition, ResolvedUsage};
use crate::strmap::{lookup, str_lookup};
use crate::text::{has_sub, is_prefix, replace_all, replace_str, contains_str, starts_with};
use crate::lowering::semantic_defaults::{ReferenceModifierSemanticsSeed, UsageActionSeed, UsagePropertyDefaultSeed};
use crate::text::str_eq;

verus! {

/// A semantic default value with its placeholders for the usage's declared
/// name or owner filled in.
pub open spec fn default_value(value: Seq<char>, usage: ResolvedUsage) -> Seq<char> {
    if value == "$declared_name"@ {
        usage.declared_name@
    } else if value == "$owner_qualified_name"@ {
        usage.owner_qualified_name@
    } else {
        value
    }
}

/// Each value with its placeholders filled in.
pub open spec fn default_values(vs: Seq<Seq<char>>, usage: ResolvedUsage) -> Seq<Seq<char>> {
    vs.map_values(|v: Seq<char>| default_value(v, usage))
}

/// The usage carries modifier `m`.
pub open spec fn has_modifier(usage: ResolvedUsage, m: Seq<char>) -> bool {
    strings_view(usage.modifiers@).contains(m)
}

/// Whether the usage carries modifier `m`.
pub fn usage_has_modifier(usage: &ResolvedUsage, m: &str) -> (r: bool)
    ensures
        r == has_modifier(*usage, m@),
{
    let mut i: usize = 0;
    while i < usage.modifiers.len()
        invariant
            i <= usage.modifiers@.len(),
            forall|j: int| 0 <= j < i ==> (#[trigger] usage.modifiers@[j])@ != m@,
        decreases usage.modifiers@.len() - i,
    {
        if str_eq(usage.modifiers[i].as_str(), m) {
            assert(strings_view(usage.modifiers@)[i as int] == m@);
            return true;
        }
        i = i + 1;
    }
    false
}

/// Fills in the placeholders of a semantic default value.
pub fn resolve_semantic_default_value(value: &str, usage: &ResolvedUsage) -> (r: String)
    ensures
        r@ == default_value(value@, *usage),
{
    if str_eq(value, "$declared_name") {
        usage.declared_name.clone()
    } else if str_eq(value, "$owner_qualified_name") {
        usage.owner_qualified_name.clone()
    } else {
        String::from_str(value)
    }
}

/// Appends each of `values`, placeholders filled in, to `out`.
fn extend_with_defaults(out: &mut Vec<String>, values: &Vec<String>, usage: &ResolvedUsage)
    ensures
        strings_view(final(out)@) == strings_view(old(out)@) + default_values(
            strings_view(values@),
            *usage,
        ),
{
    let ghost start = strings_view(out@);
    let mut i: usize = 0;
    while i < values.len()
        invariant
            i <= values@.len(),
            strings_view(out@) == start + default_values(strings_view(values@), *usage).take(
                i as int,
            ),
        decreases values@.len() - i,
    {
        let ghost before = strings_view(out@);
        let v = resolve_semantic_default_value(values[i].as_str(), usage);
        out.push(v);
        proof {
            let dv = default_values(strings_view(values@), *usage);
            assert(strings_view(out@) =~= before.push(dv[i as int]));
            assert(dv.take(i + 1) =~= dv.take(i as int).push(dv[i as int]));
        }
        i = i + 1;
    }
    assert(default_values(strings_view(values@), *usage).take(values@.len() as int)
        =~= default_values(strings_view(values@), *usage));
}

/// What a modifier rule makes of the semantics `s` of `usage`.
pub open spec fn applied_modifier_semantics(
    rule: ReferenceModifierSemanticsSeed,
    usage: ResolvedUsage,
    s: SemanticsView,
) -> SemanticsView {
    SemanticsView {
        type_refs: if s.type_refs.len() == 0 && rule.default_type_ref is Some {
            seq![default_value(rule.default_type_ref->Some_0@, usage)]
        } else {
            s.type_refs
        },
        semantic_specializations: match rule.semantic_specializations {
            Some(ss) => default_values(strings_view(ss@), usage),
            None => s.semantic_specializations,
        },
        subsetted_feature_refs: s.subsetted_feature_refs + default_values(
            strings_view(rule.subsetted_feature_refs@),
            usage,
        ),
        specialized_feature_refs: s.specialized_feature_refs + default_values(
            strings_view(rule.specialized_feature_refs@),
            usage,
        ),
        redefined_feature_refs: s.redefined_feature_refs + default_values(
            strings_view(rule.redefined_feature_refs@),
            usage,
        ),
        direction: match rule.direction {
            Some(d) => Some(d@),
            None => match rule.direction_from_modifier {
                Some(dm) => if has_modifier(usage, dm@) {
                    Some(dm@)
                } else {
                    s.direction
                },
                None => s.direction,
            },
        },
    }
}

/// Applies a modifier rule to the semantics of a reference usage.
pub fn apply_reference_modifier_semantics(
    rule: &ReferenceModifierSemanticsSeed,
    usage: &ResolvedUsage,
    semantics: &mut ReferenceUsageSemantics,
)
    ensures
        final(semantics)@ == applied_modifier_semantics(*rule, *usage, old(semantics)@),
{
    if semantics.type_refs.len() == 0 {
        match &rule.default_type_ref {
            Some(d) => {
                let v = resolve_semantic_default_value(d.as_str(), usage);
                let ghost before = semantics.type_refs@;
                semantics.type_refs.push(v);
                assert(strings_view(semantics.type_refs@) =~= seq![default_value(d@, *usage)]);
            },
            None => {},
        }
    }
    match &rule.semantic_specializations {
        Some(ss) => {
            let mut resolved: Vec<String> = Vec::new();
            extend_with_defaults(&mut resolved, ss, usage);
            assert(strings_view(resolved@) =~= default_values(strings_view(ss@), *usage));
            semantics.semantic_specializations = resolved;
        },
        None => {},
    }
    extend_with_defaults(&mut semantics.subsetted_feature_refs, &rule.subsetted_feature_refs, usage);
    extend_with_defaults(
        &mut semantics.specialized_feature_refs,
        &rule.specialized_feature_refs,
        usage,
    );
    extend_with_defaults(&mut semantics.redefined_feature_refs, &rule.redefined_feature_refs, usage);
    match &rule.direction {
        Some(d) => {
            semantics.direction = Some(d.clone());
        },
        None => match &rule.direction_from_modifier {
            Some(dm) => {
                if usage_has_modifier(usage, dm.as_str()) {
                    semantics.direction = Some(dm.clone());
                }
            },
            None => {},
        },
    }
}

/// The first of `candidates` that the usage carries as a modifier.
pub open spec fn first_present(candidates: Seq<Seq<char>>, usage: ResolvedUsage) -> Option<Seq<char>>
    decreases candidates.len(),
{
    if candidates.len() == 0 {
        None
    } else if has_modifier(usage, candidates[0]) {
        Some(candidates[0])
    } else {
        first_present(candidates.drop_first(), usage)
    }
}

/// The first direction among `direction_modifiers` that the usage carries.
pub fn reference_direction_from_modifiers(usage: &ResolvedUsage, direction_modifiers: &[String]) -> (r:
    Option<String>)
    ensures
        match r {
            Some(d) => first_present(strings_view(direction_modifiers@), *usage) == Some(d@),
            None => first_present(strings_view(direction_modifiers@), *usage) is None,
        },
{
    let ghost ds = strings_view(direction_modifiers@);
    let mut i: usize = 0;
    assert(ds.skip(0) =~= ds);
    while i < direction_modifiers.len()
        invariant
            ds == strings_view(direction_modifiers@),
            i <= ds.len(),
            first_present(ds, *usage) == first_present(ds.skip(i as int), *usage),
        decreases ds.len() - i,
    {
        proof {
            assert(ds.skip(i as int)[0] == direction_modifiers@[i as int]@);
            assert(ds.skip(i as int).drop_first() =~= ds.skip(i + 1));
        }
        if usage_has_modifier(usage, direction_modifiers[i].as_str()) {
            return Some(direction_modifiers[i].clone());
        }
        i = i + 1;
    }
    None
}

/// Every one of `xs` is a modifier of the usage.
pub open spec fn all_present(xs: Seq<Seq<char>>, usage: ResolvedUsage) -> bool {
    forall|i: int| 0 <= i < xs.len() ==> has_modifier(usage, #[trigger] xs[i])
}

/// None of `xs` is a modifier of the usage.
pub open spec fn none_present(xs: Seq<Seq<char>>, usage: ResolvedUsage) -> bool {
    forall|i: int| 0 <= i < xs.len() ==> !has_modifier(usage, #[trigger] xs[i])
}

/// A property default applies to a usage whose owner is the default's owner
/// construct (if it names one), that carries all its present modifiers and
/// none of its absent ones.
pub open spec fn property_default_applies(d: UsagePropertyDefaultSeed, usage: ResolvedUsage) -> bool {
    &&& match d.owner_construct {
        Some(o) => o@ == usage.owner_construct@,
        None => true,
    }
    &&& all_present(strings_view(d.present_modifiers@), usage)
    &&& none_present(strings_view(d.absent_modifiers@), usage)
}

/// Whether a property default applies to a usage.
pub fn usage_property_default_applies(default: &UsagePropertyDefaultSeed, usage: &ResolvedUsage) -> (r:
    bool)
    ensures
        r == property_default_applies(*default, *usage),
{
    match &default.owner_construct {
        Some(o) => {
            if !str_eq(o.as_str(), usage.owner_construct.as_str()) {
                return false;
            }
        },
        None => {},
    }
    let mut i: usize = 0;
    while i < default.present_modifiers.len()
        invariant
            i <= default.present_modifiers@.len(),
            forall|j: int|
                0 <= j < i ==> has_modifier(*usage, #[trigger] strings_view(default.present_modifiers@)[j]),
        decreases default.present_modifiers@.len() - i,
    {
        if !usage_has_modifier(usage, default.present_modifiers[i].as_str()) {
            assert(!has_modifier(*usage, strings_view(default.present_modifiers@)[i as int]));
            return false;
        }
        i = i + 1;
    }
    let mut k: usize = 0;
    while k < default.absent_modifiers.len()
        invariant
            k <= default.absent_modifiers@.len(),
            all_present(strings_view(default.present_modifiers@), *usage),
            forall|j: int|
                0 <= j < k ==> !has_modifier(*usage, #[trigger] strings_view(default.absent_modifiers@)[j]),
        decreases default.absent_modifiers@.len() - k,
    {
        if usage_has_modifier(usage, default.absent_modifiers[k].as_str()) {
            assert(has_modifier(*usage, strings_view(default.absent_modifiers@)[k as int]));
            return false;
        }
        k = k + 1;
    }
    true
}

/// A usage action applies unless it needs metadata properties the usage
/// does not have.
pub open spec fn action_applies(action: UsageActionSeed, usage: ResolvedUsage) -> bool {
    !action.requires_metadata_properties || usage.metadata_properties@.len() > 0
}

/// Whether a usage action applies to a usage.
pub fn usage_action_applies(action: &UsageActionSeed, usage: &ResolvedUsage) -> (r: bool)
    ensures
        r == action_applies(*action, *usage),
{
    !action.requires_metadata_properties || usage.metadata_properties.len() > 0
}

/// The view of an optional string.
pub open spec fn opt_string(o: Option<String>) -> Option<Seq<char>> {
    match o {
        Some(s) => Some(s@),
        None => None,
    }
}

/// The element a usage action targets: the reference target, the owner, or
/// the value as written.
pub open spec fn action_target(value: Seq<char>, usage: ResolvedUsage, owner_id: Seq<char>) -> Option<Seq<char>> {
    if value == "$reference_target_or_owner"@ {
        match usage.reference_target {
            Some(t) => Some(t@),
            None => Some(owner_id),
        }
    } else if value == "$reference_target"@ {
        opt_string(usage.reference_target)
    } else if value == "$owner_id"@ {
        Some(owner_id)
    } else {
        Some(value)
    }
}

/// The element a usage action targets.
pub fn resolve_usage_action_target(value: &str, usage: &ResolvedUsage, owner_id: &str) -> (r: Option<
    String,
>)
    ensures
        opt_string(r) == action_target(value@, *usage, owner_id@),
{
    if str_eq(value, "$reference_target_or_owner") {
        match &usage.reference_target {
            Some(t) => Some(t.clone()),
            None => Some(String::from_str(owner_id)),
        }
    } else if str_eq(value, "$reference_target") {
        match &usage.reference_target {
            Some(t) => Some(t.clone()),
            None => None,
        }
    } else if str_eq(value, "$owner_id") {
        Some(String::from_str(owner_id))
    } else {
        Some(String::from_str(value))
    }
}


/// Whether `v` holds a string equal to `x`.
pub fn strings_contain(v: &[String], x: &str) -> (r: bool)
    ensures
        r == strings_view(v@).contains(x@),
{
    let mut i: usize = 0;
    while i < v.len()
        invariant
            i <= v@.len(),
            forall|j: int| 0 <= j < i ==> (#[trigger] v@[j])@ != x@,
        decreases v@.len() - i,
    {
        if str_eq(v[i].as_str(), x) {
            assert(strings_view(v@)[i as int] == x@);
            return true;
        }
        i = i + 1;
    }
    false
}

/// A copy of a list of strings.
pub fn copy_strings(v: &Vec<String>) -> (r: Vec<String>)
    ensures
        strings_view(r@) == strings_view(v@),
{
    let mut r: Vec<String> = Vec::new();
    let mut i: usize = 0;
    while i < v.len()
        invariant
            i <= v@.len(),
            r@.len() == i,
            forall|j: int| 0 <= j < i ==> (#[trigger] r@[j])@ == v@[j]@,
        decreases v@.len() - i,
    {
        r.push(v[i].clone());
        i = i + 1;
    }
    assert(strings_view(r@) =~= strings_view(v@));
    r
}

/// Appends a copy of each of `values` to `out`.
pub fn extend_strings(out: &mut Vec<String>, values: &[String])
    ensures
        strings_view(final(out)@) == strings_view(old(out)@) + strings_view(values@),
{
    let ghost start = strings_view(out@);
    let mut i: usize = 0;
    while i < values.len()
        invariant
            i <= values@.len(),
            strings_view(out@) == start + strings_view(values@).take(i as int),
        decreases values@.len() - i,
    {
        let ghost before = strings_view(out@);
        out.push(values[i].clone());
        proof {
            assert(strings_view(out@) =~= before.push(values@[i as int]@));
            assert(strings_view(values@).take(i + 1) =~= strings_view(values@).take(i as int).push(
                values@[i as int]@,
            ));
        }
        i = i + 1;
    }
    assert(strings_view(values@).take(values@.len() as int) =~= strings_view(values@));
}


// ------------------------------------------------------------ specializations of a usage

/// The specialization reference policy of the usage's construct.
pub open spec fn refs_policy(v: MappingView, usage: ResolvedUsage) -> Option<Seq<char>> {
    match lookup(v.semantic_defaults.usage_specialization_policies@, usage.construct@) {
        Some(p) => opt_string_view(p.specialization_refs_policy),
        None => None,
    }
}

/// The materialized specialization policy of the usage's construct.
pub open spec fn materialized_policy(v: MappingView, usage: ResolvedUsage) -> Option<Seq<char>> {
    match lookup(v.semantic_defaults.usage_specialization_policies@, usage.construct@) {
        Some(p) => opt_string_view(p.materialized_refs_policy),
        None => None,
    }
}

/// The view of optional reference semantics.
pub open spec fn opt_semantics(rs: Option<&ReferenceUsageSemantics>) -> Option<SemanticsView> {
    match rs {
        Some(s) => Some(s@),
        None => None,
    }
}

/// The semantic specializations of a definition: its own, else its
/// construct's.
pub open spec fn definition_specializations(v: MappingView, d: ResolvedDefinition) -> Seq<Seq<char>> {
    if d.specializes@.len() == 0 {
        match lookup(v.definition_semantic_specializations, d.construct@) {
            Some(ss) => strings_view(ss@),
            None => Seq::empty(),
        }
    } else {
        strings_view(d.specializes@)
    }
}

/// The semantic specializations of a definition.
pub fn semantic_specializations_for_definition(definition: &ResolvedDefinition, mappings: &MappingBundle) -> (r:
    Vec<String>)
    ensures
        strings_view(r@) == definition_specializations(mappings@, *definition),
{
    if definition.specializes.len() == 0 {
        mappings.semantic_specializations_for_definition(definition.construct.as_str())
    } else {
        copy_strings(&definition.specializes)
    }
}

/// The semantic specializations of a usage: those of its reference
/// semantics, else its own, else none when feature references stand in
/// for them, else its type (or, for an enumeration value, its
/// enumeration).
pub open spec fn usage_semantic_specializations(
    v: MappingView,
    usage: ResolvedUsage,
    rs: Option<SemanticsView>,
) -> Seq<Seq<char>> {
    match rs {
        Some(s) => s.semantic_specializations,
        None => if usage.specializes@.len() > 0 {
            strings_view(usage.specializes@)
        } else if usage.is_implicit_name && usage.redefined_features@.len() > 0
            && usage.specialized_features@.len() == 0 && usage.subsetted_features@.len() == 0 {
            Seq::empty()
        } else if !usage.has_explicit_type && (usage.specialized_features@.len() > 0
            || usage.subsetted_features@.len() > 0 || usage.redefined_features@.len() > 0) {
            Seq::empty()
        } else if refs_policy(v, usage) != Some("merge_feature_refs_into_semantic_specializations"@) {
            match usage.type_ref {
                Some(t) => seq![t@],
                None => if usage.construct@ == "EnumerationUsage"@ && usage.owner_construct@
                    == "EnumerationDefinition"@ {
                    seq![usage.owner_qualified_name@]
                } else {
                    Seq::empty()
                },
            }
        } else {
            Seq::empty()
        },
    }
}

/// A single string list.
fn one_string(s: &String) -> (r: Vec<String>)
    ensures
        strings_view(r@) == seq![s@],
{
    let mut r: Vec<String> = Vec::new();
    r.push(s.clone());
    assert(strings_view(r@) =~= seq![s@]);
    r
}

/// An empty string list.
fn no_strings() -> (r: Vec<String>)
    ensures
        strings_view(r@) == Seq::<Seq<char>>::empty(),
{
    let r: Vec<String> = Vec::new();
    assert(strings_view(r@) =~= Seq::<Seq<char>>::empty());
    r
}

/// Whether the policy `p` is `expected`.
fn policy_is(p: Option<&str>, expected: &str) -> (r: bool)
    ensures
        r == (match p {
            Some(x) => Some(x@),
            None => None,
        } == Some(expected@)),
{
    match p {
        Some(x) => crate::text::str_eq(x, expected),
        None => false,
    }
}

/// The semantic specializations of a usage.
pub fn semantic_specializations_for_usage(
    usage: &ResolvedUsage,
    mappings: &MappingBundle,
    reference_semantics: Option<&ReferenceUsageSemantics>,
) -> (r: Vec<String>)
    ensures
        strings_view(r@) == usage_semantic_specializations(
            mappings@,
            *usage,
            opt_semantics(reference_semantics),
        ),
{
    match reference_semantics {
        Some(s) => {
            return copy_strings(&s.semantic_specializations);
        },
        None => {},
    }
    if usage.specializes.len() > 0 {
        return copy_strings(&usage.specializes);
    }
    if usage.is_implicit_name && usage.redefined_features.len() > 0
        && usage.specialized_features.len() == 0 && usage.subsetted_features.len() == 0 {
        return no_strings();
    }
    if !usage.has_explicit_type && (usage.specialized_features.len() > 0
        || usage.subsetted_features.len() > 0 || usage.redefined_features.len() > 0) {
        return no_strings();
    }
    if !policy_is(
        mappings.usage_specialization_refs_policy(usage),
        "merge_feature_refs_into_semantic_specializations",
    ) {
        match &usage.type_ref {
            Some(t) => {
                return one_string(t);
            },
            None => {},
        }
        if crate::text::str_eq(usage.construct.as_str(), "EnumerationUsage") && crate::text::str_eq(
            usage.owner_construct.as_str(),
            "EnumerationDefinition",
        ) {
            return one_string(&usage.owner_qualified_name);
        }
    }
    no_strings()
}

/// The specialization references of a usage under its construct's policy,
/// each once.
pub open spec fn specialization_refs(
    v: MappingView,
    usage: ResolvedUsage,
    semantic: Seq<Seq<char>>,
    specialized: Seq<Seq<char>>,
    subsetted: Seq<Seq<char>>,
    redefined: Seq<Seq<char>>,
) -> Seq<Seq<char>> {
    let policy = refs_policy(v, usage);
    if policy == Some("merge_feature_refs_into_semantic_specializations"@) {
        dedupe(semantic + specialized + subsetted + redefined)
    } else if policy
        == Some("suppress_feature_refs_for_explicit_type_specialized_features_without_redefinitions"@)
        && usage.has_explicit_type && usage.specialized_features@.len() > 0 && redefined.len() == 0 {
        dedupe(semantic + redefined)
    } else {
        dedupe(semantic + specialized + subsetted + redefined)
    }
}

/// The specialization references of a usage.
pub fn usage_specialization_refs(
    usage: &ResolvedUsage,
    mappings: &MappingBundle,
    semantic_specializations: Vec<String>,
    specialized_feature_refs: &[String],
    subsetted_feature_refs: &[String],
    redefined_feature_refs: &[String],
) -> (r: Vec<String>)
    ensures
        strings_view(r@) == specialization_refs(
            mappings@,
            *usage,
            strings_view(semantic_specializations@),
            strings_view(specialized_feature_refs@),
            strings_view(subsetted_feature_refs@),
            strings_view(redefined_feature_refs@),
        ),
{
    let mut semantic_specializations = semantic_specializations;
    let policy = mappings.usage_specialization_refs_policy(usage);
    if policy_is(policy, "merge_feature_refs_into_semantic_specializations") {
        extend_strings(&mut semantic_specializations, specialized_feature_refs);
        extend_strings(&mut semantic_specializations, subsetted_feature_refs);
        extend_strings(&mut semantic_specializations, redefined_feature_refs);
        return dedupe_refs(semantic_specializations);
    }
    if policy_is(
        policy,
        "suppress_feature_refs_for_explicit_type_specialized_features_without_redefinitions",
    ) && usage.has_explicit_type && usage.specialized_features.len() > 0
        && redefined_feature_refs.len() == 0 {
        extend_strings(&mut semantic_specializations, redefined_feature_refs);
        return dedupe_refs(semantic_specializations);
    }
    extend_strings(&mut semantic_specializations, specialized_feature_refs);
    extend_strings(&mut semantic_specializations, subsetted_feature_refs);
    extend_strings(&mut semantic_specializations, redefined_feature_refs);
    dedupe_refs(semantic_specializations)
}

/// The entries of `xs` that are not among `ys`, in order.
pub open spec fn without(xs: Seq<Seq<char>>, ys: Seq<Seq<char>>) -> Seq<Seq<char>>
    decreases xs.len(),
{
    if xs.len() == 0 {
        Seq::empty()
    } else {
        without(xs.drop_last(), ys) + if ys.contains(xs.last()) {
            Seq::empty()
        } else {
            seq![xs.last()]
        }
    }
}

/// The specialization references emitted for a usage: under the policy of
/// specialized actions without multiplicity, `kerml.Feature` in place of
/// the specialized features.
pub open spec fn materialized_refs(
    v: MappingView,
    usage: ResolvedUsage,
    refs: Seq<Seq<char>>,
    specialized: Seq<Seq<char>>,
) -> Seq<Seq<char>> {
    if materialized_policy(v, usage)
        == Some("prepend_feature_for_specialized_actions_without_multiplicity"@)
        && usage.multiplicity is None {
        let kept = without(refs, specialized);
        dedupe(
            if specialized.len() > 0 {
                seq!["kerml.Feature"@] + kept
            } else {
                kept
            },
        )
    } else {
        refs
    }
}

/// The specialization references emitted for a usage.
pub fn materialized_usage_specialization_refs(
    usage: &ResolvedUsage,
    mappings: &MappingBundle,
    specialization_refs: &[String],
    specialized_feature_refs: &[String],
) -> (r: Vec<String>)
    ensures
        strings_view(r@) == materialized_refs(
            mappings@,
            *usage,
            strings_view(specialization_refs@),
            strings_view(specialized_feature_refs@),
        ),
{
    if policy_is(
        mappings.usage_materialized_specialization_policy(usage),
        "prepend_feature_for_specialized_actions_without_multiplicity",
    ) && usage.multiplicity.is_none() {
        let ghost xs = strings_view(specialization_refs@);
        let ghost ys = strings_view(specialized_feature_refs@);
        let mut kept: Vec<String> = Vec::new();
        let mut i: usize = 0;
        while i < specialization_refs.len()
            invariant
                i <= specialization_refs@.len(),
                xs == strings_view(specialization_refs@),
                ys == strings_view(specialized_feature_refs@),
                strings_view(kept@) == without(xs.take(i as int), ys),
            decreases specialization_refs@.len() - i,
        {
            let ghost before = strings_view(kept@);
            if !strings_contain(specialized_feature_refs, specialization_refs[i].as_str()) {
                kept.push(specialization_refs[i].clone());
            }
            proof {
                assert(xs.take(i + 1).drop_last() =~= xs.take(i as int));
                assert(xs.take(i + 1).last() == specialization_refs@[i as int]@);
                assert(strings_view(kept@) =~= without(xs.take(i + 1), ys));
            }
            i = i + 1;
        }
        assert(xs.take(specialization_refs@.len() as int) =~= xs);
        if specialized_feature_refs.len() > 0 {
            let mut refs: Vec<String> = Vec::new();
            refs.push(String::from_str("kerml.Feature"));
            let ghost head = strings_view(refs@);
            assert(head =~= seq!["kerml.Feature"@]);
            extend_strings(&mut refs, kept.as_slice());
            return dedupe_refs(refs);
        }
        return dedupe_refs(kept);
    }
    copy_strings_slice(specialization_refs)
}

/// A copy of a slice of strings.
fn copy_strings_slice(v: &[String]) -> (r: Vec<String>)
    ensures
        strings_view(r@) == strings_view(v@),
{
    let mut r: Vec<String> = Vec::new();
    extend_strings(&mut r, v);
    assert(strings_view(r@) =~= Seq::<Seq<char>>::empty() + strings_view(v@));
    r
}

/// The usage is a connection end: it carries `end` or an `end-` modifier.
pub open spec fn is_end(usage: ResolvedUsage) -> bool {
    exists|i: int|
        0 <= i < usage.modifiers@.len() && (usage.modifiers@[i]@ == "end"@ || is_prefix(
            "end-"@,
            #[trigger] usage.modifiers@[i]@,
        ))
}

/// Whether the usage is a connection end.
pub fn usage_is_end(usage: &ResolvedUsage) -> (r: bool)
    ensures
        r == is_end(*usage),
{
    let mut i: usize = 0;
    while i < usage.modifiers.len()
        invariant
            i <= usage.modifiers@.len(),
            forall|j: int|
                0 <= j < i ==> !(usage.modifiers@[j]@ == "end"@ || is_prefix(
                    "end-"@,
                    #[trigger] usage.modifiers@[j]@,
                )),
        decreases usage.modifiers@.len() - i,
    {
        let m = usage.modifiers[i].as_str();
        if crate::text::str_eq(m, "end") || starts_with(m, "end-") {
            return true;
        }
        i = i + 1;
    }
    false
}

/// The type that features the usage: its owner, when the owner gives a type
/// context.
pub fn usage_featuring_type_ref(usage: &ResolvedUsage, owner_id: &str, mappings: &MappingBundle) -> (r:
    Option<String>)
    ensures
        opt_string(r) == if strings_view(
            mappings@.semantic_defaults.usage_context.no_type_context_owner_constructs@,
        ).contains(usage.owner_construct@) {
            None
        } else {
            Some(owner_id@)
        },
{
    if mappings.usage_has_type_context(usage) {
        Some(String::from_str(owner_id))
    } else {
        None
    }
}

/// The direction of a usage: its reference semantics', else the first
/// direction modifier it carries.
pub open spec fn direction_of(v: MappingView, usage: ResolvedUsage, rs: Option<SemanticsView>) -> Option<
    Seq<char>,
> {
    match rs {
        Some(s) if s.direction is Some => s.direction,
        _ => first_present(strings_view(v.semantic_defaults.usage_context.direction_modifiers@), usage),
    }
}

/// The direction of a usage.
pub fn usage_direction<'a>(
    usage: &'a ResolvedUsage,
    mappings: &'a MappingBundle,
    reference_semantics: Option<&'a ReferenceUsageSemantics>,
) -> (r: Option<&'a str>)
    ensures
        match r {
            Some(d) => direction_of(mappings@, *usage, opt_semantics(reference_semantics)) == Some(d@),
            None => direction_of(mappings@, *usage, opt_semantics(reference_semantics)) is None,
        },
{
    match reference_semantics {
        Some(s) => match &s.direction {
            Some(d) => {
                return Some(d.as_str());
            },
            None => {},
        },
        None => {},
    }
    mappings.usage_direction_from_modifiers(usage)
}

/// The span of a usage's own declaration: without its closing line when it
/// has members and spans lines.
pub open spec fn source_span_of(usage: ResolvedUsage) -> SourceSpan {
    if usage.members@.len() > 0 && usage.span.end_line > usage.span.start_line {
        SourceSpan { end_line: (usage.span.end_line - 1) as usize, ..usage.span }
    } else {
        usage.span
    }
}

/// The span of a usage's own declaration.
pub fn usage_source_span(usage: &ResolvedUsage) -> (r: SourceSpan)
    ensures
        r == source_span_of(*usage),
{
    let mut span = usage.span;
    if usage.members.len() > 0 && span.end_line > span.start_line {
        span.end_line = span.end_line - 1;
    }
    span
}

/// The type of a usage: the first of its reference semantics' types, else
/// its own, else its construct's default.
pub open spec fn type_ref_of(v: MappingView, usage: ResolvedUsage, rs: Option<SemanticsView>) -> Option<
    Seq<char>,
> {
    match rs {
        Some(s) => if s.type_refs.len() > 0 {
            Some(s.type_refs[0])
        } else {
            None
        },
        None => match usage.type_ref {
            Some(t) => Some(t@),
            None => type_default(v.semantic_defaults, usage),
        },
    }
}

/// The type of a usage.
pub fn usage_type_ref(
    usage: &ResolvedUsage,
    mappings: &MappingBundle,
    reference_semantics: Option<&ReferenceUsageSemantics>,
) -> (r: Option<String>)
    ensures
        opt_string(r) == type_ref_of(mappings@, *usage, opt_semantics(reference_semantics)),
{
    match reference_semantics {
        Some(s) => {
            if s.type_refs.len() > 0 {
                Some(s.type_refs[0].clone())
            } else {
                None
            }
        },
        None => match &usage.type_ref {
            Some(t) => Some(t.clone()),
            None => mappings.usage_type_default(usage),
        },
    }
}

/// The subsetted features of a usage: its reference semantics', else its
/// own, else none when it redefines, else its construct's defaults, else
/// its semantic specializations; each once.
pub open spec fn subsetted_refs(v: MappingView, usage: ResolvedUsage, rs: Option<SemanticsView>) -> Seq<
    Seq<char>,
> {
    let own = strings_view(usage.subsetted_features@);
    let specializations = usage_specializations(v, usage.construct@, strings_view(usage.modifiers@));
    match rs {
        Some(s) => dedupe(s.subsetted_feature_refs),
        None => if own.len() > 0 {
            dedupe(own)
        } else if usage.redefined_features@.len() > 0 {
            Seq::empty()
        } else {
            match specialized_subset_default(v.semantic_defaults, usage) {
                Some(d) => dedupe(d),
                None => if lookup(v.semantic_defaults.usage_subset_defaults@, usage.construct@) matches Some(
                    d,
                ) && d.append_semantic_specializations_when_no_defaults {
                    dedupe(specializations)
                } else if subset_default(v.semantic_defaults, usage).len() > 0 {
                    dedupe(subset_default(v.semantic_defaults, usage))
                } else {
                    dedupe(specializations)
                },
            }
        },
    }
}

/// The subsetted features of a usage.
pub fn usage_subsetted_feature_refs(
    usage: &ResolvedUsage,
    mappings: &MappingBundle,
    reference_semantics: Option<&ReferenceUsageSemantics>,
) -> (r: Vec<String>)
    ensures
        strings_view(r@) == subsetted_refs(mappings@, *usage, opt_semantics(reference_semantics)),
{
    match reference_semantics {
        Some(s) => {
            return dedupe_refs(copy_strings(&s.subsetted_feature_refs));
        },
        None => {},
    }
    if usage.subsetted_features.len() > 0 {
        return dedupe_refs(copy_strings(&usage.subsetted_features));
    }
    if usage.redefined_features.len() > 0 {
        return no_strings();
    }
    match mappings.specialized_feature_subset_default(usage) {
        Some(d) => {
            return dedupe_refs(d);
        },
        None => {},
    }
    if mappings.usage_appends_semantic_specializations_to_subset_defaults(usage) {
        return dedupe_refs(
            mappings.semantic_specializations_for_usage(
                usage.construct.as_str(),
                usage.modifiers.as_slice(),
            ),
        );
    }
    let default_subset_refs = mappings.usage_subset_default(usage);
    if default_subset_refs.len() > 0 {
        return dedupe_refs(default_subset_refs);
    }
    dedupe_refs(
        mappings.semantic_specializations_for_usage(usage.construct.as_str(), usage.modifiers.as_slice()),
    )
}

/// The usage's own feature references followed by those of its reference
/// semantics, each once.
pub open spec fn with_semantics(own: Seq<Seq<char>>, extra: Option<Seq<Seq<char>>>) -> Seq<Seq<char>> {
    dedupe(
        own + match extra {
            Some(e) => e,
            None => Seq::empty(),
        },
    )
}

/// The specialized features of a usage, with those of its reference
/// semantics.
pub fn usage_specialized_feature_refs(
    usage: &ResolvedUsage,
    reference_semantics: Option<&ReferenceUsageSemantics>,
) -> (r: Vec<String>)
    ensures
        strings_view(r@) == with_semantics(
            strings_view(usage.specialized_features@),
            match reference_semantics {
                Some(s) => Some(s@.specialized_feature_refs),
                None => None,
            },
        ),
{
    let mut refs = copy_strings(&usage.specialized_features);
    match reference_semantics {
        Some(s) => extend_strings(&mut refs, s.specialized_feature_refs.as_slice()),
        None => {
            assert(strings_view(refs@) =~= strings_view(usage.specialized_features@)
                + Seq::<Seq<char>>::empty());
        },
    }
    dedupe_refs(refs)
}

/// The redefined features of a usage, with those of its reference
/// semantics.
pub fn usage_redefined_feature_refs(
    usage: &ResolvedUsage,
    reference_semantics: Option<&ReferenceUsageSemantics>,
) -> (r: Vec<String>)
    ensures
        strings_view(r@) == with_semantics(
            strings_view(usage.redefined_features@),
            match reference_semantics {
                Some(s) => Some(s@.redefined_feature_refs),
                None => None,
            },
        ),
{
    let mut refs = copy_strings(&usage.redefined_features);
    match reference_semantics {
        Some(s) => extend_strings(&mut refs, s.redefined_feature_refs.as_slice()),
        None => {
            assert(strings_view(refs@) =~= strings_view(usage.redefined_features@)
                + Seq::<Seq<char>>::empty());
        },
    }
    dedupe_refs(refs)
}

/// The declared name, if there is one.
pub open spec fn declared(usage: ResolvedUsage) -> Option<Seq<char>> {
    if usage.declared_name@.len() > 0 {
        Some(usage.declared_name@)
    } else {
        None
    }
}

/// The name shown for a usage: for an implicitly named one, the last
/// feature its family subsets, else its declared name.
pub open spec fn display_name_of(v: MappingView, usage: ResolvedUsage) -> Option<Seq<char>> {
    if usage.is_implicit_name {
        match lookup(v.semantic_defaults.usage_family_defaults@, usage.construct@) {
            Some(d) => if family_subsets(d, usage.owner_construct@).len() > 0 {
                Some(display_name(family_subsets(d, usage.owner_construct@).last()))
            } else {
                declared(usage)
            },
            None => declared(usage),
        }
    } else {
        declared(usage)
    }
}

/// The name shown for a usage.
pub fn usage_display_name(usage: &ResolvedUsage, mappings: &MappingBundle) -> (r: Option<String>)
    ensures
        opt_string(r) == display_name_of(mappings@, *usage),
{
    if usage.is_implicit_name {
        match mappings.usage_family_default(usage.construct.as_str(), usage.owner_construct.as_str()) {
            Some(defaults) => {
                let n = defaults.subsetted_feature_refs.len();
                if n > 0 {
                    proof {
                        assert(strings_view(defaults.subsetted_feature_refs@).last()
                            == defaults.subsetted_feature_refs@[n - 1]@);
                    }
                    return Some(display_name_for_ref(defaults.subsetted_feature_refs[n - 1].as_str()));
                }
            },
            None => {},
        }
    }
    if usage.declared_name.unicode_len() > 0 {
        Some(usage.declared_name.clone())
    } else {
        None
    }
}

// ------------------------------------------------------------ property default values

/// The placeholders a property default value may hold, each with what
/// replaces it.
pub open spec fn placeholders(usage: ResolvedUsage, owner_id: Seq<char>) -> Seq<(Seq<char>, Option<Seq<char>>)> {
    seq![
        ("$owner_id"@, Some(owner_id)),
        ("$qualified_name"@, Some(usage.qualified_name@)),
        ("$declared_name"@, Some(usage.declared_name@)),
        ("$allocation_source"@, opt_string(usage.allocation_source)),
        ("$allocation_target"@, opt_string(usage.allocation_target)),
        ("$reference_target"@, opt_string(usage.reference_target)),
        ("$metadata_body"@, str_lookup(usage.metadata_properties@, "body"@)),
        ("$metadata_locale"@, str_lookup(usage.metadata_properties@, "locale"@)),
        (
            "$modifier_value_trigger_kind"@,
            first_modifier_value(strings_view(usage.modifiers@), "trigger_kind"@),
        ),
        ("$modifier_value_trigger"@, first_modifier_value(strings_view(usage.modifiers@), "trigger"@)),
        (
            "$sibling_state_id_transition_target"@,
            match first_modifier_value(strings_view(usage.modifiers@), "transition_target"@) {
                Some(t) => Some(sibling_state(usage.owner_qualified_name@, t)),
                None => None,
            },
        ),
    ]
}

/// `s` with each placeholder of `ps` that it holds replaced, in order; no
/// value if a placeholder it holds has no replacement.
pub open spec fn fill_placeholders(s: Seq<char>, ps: Seq<(Seq<char>, Option<Seq<char>>)>) -> Option<
    Seq<char>,
>
    decreases ps.len(),
{
    if ps.len() == 0 {
        Some(s)
    } else if !has_sub(s, ps[0].0) {
        fill_placeholders(s, ps.drop_first())
    } else {
        match ps[0].1 {
            None => None,
            Some(r) => fill_placeholders(replace_all(s, ps[0].0, r), ps.drop_first()),
        }
    }
}

/// The optional string as a slice.
fn opt_as_str(o: &Option<String>) -> (r: Option<&str>)
    ensures
        match r {
            Some(x) => opt_string(*o) == Some(x@),
            None => o is None,
        },
{
    match o {
        Some(s) => Some(s.as_str()),
        None => None,
    }
}

/// The placeholder `p` of `resolved`, replaced by `replacement`: `None` if
/// it occurs and there is no replacement.
fn fill_one(resolved: String, p: &str, replacement: Option<&str>) -> (r: Option<String>)
    requires
        p@.len() > 0,
    ensures
        match r {
            Some(x) => if has_sub(resolved@, p@) {
                replacement matches Some(rep) && x@ == replace_all(resolved@, p@, rep@)
            } else {
                x@ == resolved@
            },
            None => has_sub(resolved@, p@) && replacement is None,
        },
{
    if !contains_str(resolved.as_str(), p) {
        return Some(resolved);
    }
    match replacement {
        None => None,
        Some(rep) => Some(replace_str(resolved.as_str(), p, rep)),
    }
}

/// A property default value with the usage's placeholders filled in.
pub fn resolve_usage_property_default_value(value: &str, usage: &ResolvedUsage, owner_id: &str) -> (r:
    Option<String>)
    ensures
        opt_string(r) == fill_placeholders(value@, placeholders(*usage, owner_id@)),
{
    let ghost ps = placeholders(*usage, owner_id@);
    let mut resolved = String::from_str(value);
    let sibling: Option<String> = match modifier_value(usage.modifiers.as_slice(), "transition_target") {
        Some(t) => sibling_state_id(usage.owner_qualified_name.as_str(), t),
        None => None,
    };
    let body = match usage.metadata_properties.get("body") {
        Some(b) => Some(b.as_str()),
        None => None,
    };
    let locale = match usage.metadata_properties.get("locale") {
        Some(b) => Some(b.as_str()),
        None => None,
    };
    let steps: [(&str, Option<&str>); 11] = [
        ("$owner_id", Some(owner_id)),
        ("$qualified_name", Some(usage.qualified_name.as_str())),
        ("$declared_name", Some(usage.declared_name.as_str())),
        ("$allocation_source", opt_as_str(&usage.allocation_source)),
        ("$allocation_target", opt_as_str(&usage.allocation_target)),
        ("$reference_target", opt_as_str(&usage.reference_target)),
        ("$metadata_body", body),
        ("$metadata_locale", locale),
        ("$modifier_value_trigger_kind", modifier_value(usage.modifiers.as_slice(), "trigger_kind")),
        ("$modifier_value_trigger", modifier_value(usage.modifiers.as_slice(), "trigger")),
        ("$sibling_state_id_transition_target", opt_as_str(&sibling)),
    ];
    proof {
        reveal_strlit("$owner_id");
        reveal_strlit("$qualified_name");
        reveal_strlit("$declared_name");
        reveal_strlit("$allocation_source");
        reveal_strlit("$allocation_target");
        reveal_strlit("$reference_target");
        reveal_strlit("$metadata_body");
        reveal_strlit("$metadata_locale");
        reveal_strlit("$modifier_value_trigger_kind");
        reveal_strlit("$modifier_value_trigger");
        reveal_strlit("$sibling_state_id_transition_target");
    }
    let ghost sv = steps@.map_values(|p: (&str, Option<&str>)| (p.0@, match p.1 {
        Some(x) => Some(x@),
        None => None,
    }));
    assert(sv =~= ps);
    let mut i: usize = 0;
    assert(ps.skip(0) =~= ps);
    while i < 11
        invariant
            i <= 11,
            steps@.len() == 11,
            sv == steps@.map_values(|p: (&str, Option<&str>)| (p.0@, match p.1 {
                Some(x) => Some(x@),
                None => None,
            })),
            sv == ps,
            ps == placeholders(*usage, owner_id@),
            forall|j: int| 0 <= j < 11 ==> (#[trigger] ps[j]).0.len() > 0,
            fill_placeholders(value@, ps) == fill_placeholders(resolved@, ps.skip(i as int)),
        decreases 11 - i,
    {
        let (p, replacement) = steps[i];
        proof {
            assert(ps.skip(i as int)[0] == sv[i as int]);
            assert(ps.skip(i as int).drop_first() =~= ps.skip(i + 1));
            assert(sv[i as int].0 == p@);
            assert(sv[i as int].1 == match replacement {
                Some(x) => Some(x@),
                None => None,
            });
        }
        let ghost before = resolved@;
        match fill_one(resolved, p, replacement) {
            Some(next) => {
                resolved = next;
            },
            None => {
                proof {
                    let rest = ps.skip(i as int);
                    assert(has_sub(before, rest[0].0));
                    assert(rest[0].1 is None);
                    assert(fill_placeholders(before, rest) == None::<Seq<char>>);
                }
                return None;
            },
        }
        i = i + 1;
    }
    assert(ps.skip(11) =~= Seq::<(Seq<char>, Option<Seq<char>>)>::empty());
    Some(resolved)
}

} // verus!
